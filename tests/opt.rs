use pkghist::error::{Error, ErrorDetail};
use pkghist::opt::{
    check_gt_0, level_filter_from_verbosity, parse_u32, validate_gt_0, Config, Direction, Format,
    LevelFilter, StateMode,
};

#[test]
fn should_have_log_filter_trace() {
    let level_filter = level_filter_from_verbosity(4);
    assert_eq!(level_filter, LevelFilter::Trace)
}

#[test]
fn should_have_log_filter_debug() {
    let level_filter = level_filter_from_verbosity(3);
    assert_eq!(level_filter, LevelFilter::Debug)
}

#[test]
fn should_have_log_filter_info() {
    let level_filter = level_filter_from_verbosity(2);
    assert_eq!(level_filter, LevelFilter::Info)
}

#[test]
fn should_have_log_filter_warn() {
    let level_filter = level_filter_from_verbosity(1);
    assert_eq!(level_filter, LevelFilter::Warn)
}

#[test]
fn should_have_log_filter_off() {
    let level_filter = level_filter_from_verbosity(0);
    assert_eq!(level_filter, LevelFilter::Off)
}

#[test]
fn opt_should_validate_gt_0() {
    let r = validate_gt_0(&String::from("123"));
    assert_eq!(r.is_ok(), true)
}

#[test]
fn opt_should_not_validate_gt_0_no_number() {
    let r = validate_gt_0(&String::from("notanumber"));
    assert_eq!(r.is_err(), true)
}

#[test]
fn opt_should_not_validate_gt_0() {
    let r = validate_gt_0(&String::from("0"));
    assert_eq!(r.is_err(), true)
}

#[test]
fn cli_should_validate_gt_0() {
    let r = validate_gt_0("123");
    assert_eq!(r.is_ok(), true)
}

#[test]
fn cli_should_not_validate_gt_0_no_number() {
    let r = validate_gt_0("notanumber");
    assert_eq!(r.is_err(), true)
}

#[test]
fn cli_should_not_validate_gt_0() {
    let r = validate_gt_0("0");
    assert_eq!(r.is_err(), true)
}

#[test]
fn gt_0_messages() {
    assert_eq!(validate_gt_0("1"), Ok(String::from("1")));
    assert_eq!(
        validate_gt_0("0"),
        Err(String::from("limit must be greater than 0"))
    );
    assert_eq!(
        validate_gt_0("-3"),
        Err(String::from("Please provide a positive number"))
    );
    assert_eq!(check_gt_0("7", Some(7)), Ok(String::from("7")));
    assert_eq!(
        check_gt_0("0", Some(0)),
        Err(String::from("limit must be greater than 0"))
    );
    assert_eq!(
        check_gt_0("x", None),
        Err(String::from("Please provide a positive number"))
    );
}

fn plain() -> Format {
    Format::Plain {
        with_colors: true,
        without_details: false,
    }
}

#[test]
fn config_should_parse_format_plain() {
    let format: Result<Format, Error> = "plain".parse();
    assert!(format.is_ok());
    assert_eq!(format.unwrap(), plain())
}

#[test]
fn config_should_parse_format_plain_ignore_case() {
    let format: Result<Format, Error> = "PlAiN".parse();
    assert!(format.is_ok());
    assert_eq!(format.unwrap(), plain())
}

#[test]
fn config_should_parse_format_json() {
    let format: Result<Format, Error> = "json".parse();
    assert!(format.is_ok());
    assert_eq!(
        format.unwrap(),
        Format::Json {
            without_details: false
        }
    )
}

#[test]
fn config_should_parse_format_json_ignore_case() {
    let format: Result<Format, Error> = "JsOn".parse();
    assert!(format.is_ok());
    assert_eq!(
        format.unwrap(),
        Format::Json {
            without_details: false
        }
    )
}

#[test]
fn config_should_not_parse_format() {
    let format: Result<Format, Error> = "foo".parse();
    assert!(format.is_err());
    assert_eq!(
        format.err().unwrap(),
        Error::new(ErrorDetail::InvalidFormat)
    );
}

#[test]
fn opt_should_parse_format_plain() {
    let format: Result<Format, Error> = "plain".parse();
    assert!(format.is_ok());
    assert_eq!(format.unwrap(), plain())
}

#[test]
fn opt_should_parse_format_plain_ignore_case() {
    let format: Result<Format, Error> = "PlAiN".parse();
    assert!(format.is_ok());
    assert_eq!(format.unwrap(), plain())
}

#[test]
fn opt_should_parse_format_json() {
    let format: Result<Format, Error> = "json".parse();
    assert!(format.is_ok());
    assert_eq!(
        format.unwrap(),
        Format::Json {
            without_details: false
        }
    )
}

#[test]
fn opt_should_parse_format_json_ignore_case() {
    let format: Result<Format, Error> = "JsOn".parse();
    assert!(format.is_ok());
    assert_eq!(
        format.unwrap(),
        Format::Json {
            without_details: false
        }
    )
}

#[test]
fn opt_should_not_parse_format() {
    let format: Result<Format, Error> = "foo".parse();
    assert!(format.is_err());
    assert_eq!(
        format.err().unwrap(),
        Error::new(ErrorDetail::InvalidFormat)
    );
}

#[test]
fn mod_should_parse_format_plain() {
    let format: Result<Format, Error> = "plain".parse();
    assert!(format.is_ok());
    assert_eq!(
        format.unwrap(),
        Format::Plain {
            with_colors: true,
            without_details: false
        }
    )
}

#[test]
fn mod_should_parse_format_plain_ignore_case() {
    let format: Result<Format, Error> = "PlAiN".parse();
    assert!(format.is_ok());
    assert_eq!(
        format.unwrap(),
        Format::Plain {
            with_colors: true,
            without_details: false
        }
    )
}

#[test]
fn mod_should_parse_format_json() {
    let format: Result<Format, Error> = "json".parse();
    assert!(format.is_ok());
    assert_eq!(
        format.unwrap(),
        Format::Json {
            without_details: false
        }
    )
}

#[test]
fn mod_should_parse_format_json_ignore_case() {
    let format: Result<Format, Error> = "JsOn".parse();
    assert!(format.is_ok());
    assert_eq!(
        format.unwrap(),
        Format::Json {
            without_details: false
        }
    )
}

#[test]
fn should_parse_format_compact() {
    let format: Result<Format, Error> = "compact".parse();
    assert!(format.is_ok());
    assert_eq!(
        format.unwrap(),
        Format::Compact {
            with_colors: true,
            without_details: false
        }
    )
}

#[test]
fn should_parse_format_compact_ignore_case() {
    let format: Result<Format, Error> = "CoMpAcT".parse();
    assert!(format.is_ok());
    assert_eq!(
        format.unwrap(),
        Format::Compact {
            with_colors: true,
            without_details: false
        }
    )
}

#[test]
fn mod_should_not_parse_format() {
    let format: Result<Format, Error> = "foo".parse();
    assert!(format.is_err());
    assert_eq!(
        format.err().unwrap(),
        Error::new(ErrorDetail::InvalidFormat)
    )
}

#[test]
fn format_from_lowercase_is_exact() {
    assert_eq!(
        Format::from_lowercase("compact").unwrap(),
        Format::Compact {
            with_colors: true,
            without_details: false
        }
    );
    assert!(Format::from_lowercase("Compact").is_err());
}

#[test]
fn default_config() {
    let config = Config::new();
    assert_eq!(config.logfile, "/var/log/pacman.log");
    assert!(config.filters.is_empty());
    assert_eq!(config.exclude, false);
    assert_eq!(config.with_removed, false);
    assert_eq!(config.removed_only, false);
    assert_eq!(config.format, plain());
    assert_eq!(config.limit, None);
    assert_eq!(config.direction, None);
    assert_eq!(config.after, None);
    assert_eq!(config.state_mode(), StateMode::WithoutRemoved);
}

#[test]
fn state_mode_of_flags() {
    let mut config = Config::default();
    config.removed_only = true;
    assert_eq!(config.state_mode(), StateMode::WithoutInstalled);
    config.removed_only = false;
    config.with_removed = true;
    assert_eq!(config.state_mode(), StateMode::AllPackages);
}

#[test]
fn directions_from_counts() {
    assert_eq!(Direction::from_first(50), Direction::Forwards { n: 50 });
    assert_eq!(Direction::from_last(50), Direction::Backwards { n: 50 });
}

#[test]
fn counts_read_like_u32_parse() {
    for text in ["0", "7", "+5", "007", "4294967295", "4294967296", "", "+", "-1", "1a", " 1", "99999999999"] {
        assert_eq!(parse_u32(text), text.parse::<u32>().ok(), "{}", text);
    }
    assert_eq!(parse_u32("+42"), Some(42));
    assert_eq!(parse_u32("4294967296"), None);
}
