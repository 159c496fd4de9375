use pkghist::action::Action;
use pkghist::event::PacmanEvent;
use pkghist::format::{format_compact, format_plain, last_action, max_lens};
use pkghist::pkghist::{Event, PackageHistory};
use pkghist::timestamp::Timestamp;

fn ev(a: &str, v: &str, d: &str) -> Event {
    Event {
        a: String::from(a),
        v: String::from(v),
        d: String::from(d),
    }
}

fn one_installed() -> Vec<PackageHistory> {
    vec![PackageHistory {
        p: String::from("foo"),
        e: vec![ev("Installed", "0.0.1", "2019-08-26 12:00:00")],
    }]
}

fn three_events(first: &str) -> Vec<PackageHistory> {
    vec![PackageHistory {
        p: String::from("foo"),
        e: vec![
            ev(first, "0.0.2", "2019-08-26 12:00:00"),
            ev("Downgraded", "0.0.1", "2019-08-26 13:00:00"),
            ev("Removed", "0.0.1", "2019-08-26 14:00:00"),
        ],
    }]
}

fn plain(h: &[PackageHistory], with_colors: bool, without_details: bool) -> String {
    let mut stdout = Vec::new();
    format_plain(&mut stdout, h, with_colors, without_details).unwrap();
    String::from_utf8(stdout).unwrap()
}

fn compact(h: &[PackageHistory], with_colors: bool, without_details: bool) -> String {
    let mut stdout = Vec::new();
    format_compact(&mut stdout, h, with_colors, without_details).unwrap();
    String::from_utf8(stdout).unwrap()
}

const COLORED: &str = "\u{1b}[38;5;1mfoo\u{1b}[39m\n  [2019-08-26 12:00:00] Upgraded\n    0.0.2\u{1b}[39m\n\u{1b}[38;5;3m  [2019-08-26 13:00:00] Downgraded\n    0.0.1\u{1b}[39m\n\u{1b}[38;5;1m  [2019-08-26 14:00:00] Removed\n    0.0.1\u{1b}[39m\n";
const COMPACT: &str = "\u{1b}[38;5;2m|foo|2019-08-26 12:00:00|Upgraded  |0.0.2|\u{1b}[39m\n\
                       \u{1b}[38;5;3m|foo|2019-08-26 13:00:00|Downgraded|0.0.1|\u{1b}[39m\n\
                       \u{1b}[38;5;1m|foo|2019-08-26 14:00:00|Removed   |0.0.1|\u{1b}[39m\n";
const COMPACT_NO_DETAILS: &str = "\u{1b}[38;5;2m|foo|\u{1b}[39m\n\
                                  \u{1b}[38;5;3m|foo|\u{1b}[39m\n\
                                  \u{1b}[38;5;1m|foo|\u{1b}[39m\n";

#[test]
fn pkghist_should_print_to_stdout_colored() {
    assert_eq!(plain(&three_events("Upgraded"), true, false), COLORED)
}

#[test]
fn format_should_print_to_stdout_colored() {
    assert_eq!(plain(&three_events("Upgraded"), true, false), COLORED)
}

#[test]
fn pkghist_should_print_to_stdout_colored_no_details() {
    assert_eq!(plain(&one_installed(), true, true), "\u{1b}[38;5;2mfoo\u{1b}[39m\n")
}

#[test]
fn format_should_print_to_stdout_colored_no_details() {
    assert_eq!(plain(&one_installed(), true, true), "\u{1b}[38;5;2mfoo\u{1b}[39m\n")
}

#[test]
fn pkghist_should_print_to_stdout_no_colors() {
    assert_eq!(
        plain(&one_installed(), false, false),
        "foo\n  [2019-08-26 12:00:00] Installed\n    0.0.1\n"
    )
}

#[test]
fn format_should_print_to_stdout_no_colors() {
    assert_eq!(
        plain(&one_installed(), false, false),
        "foo\n  [2019-08-26 12:00:00] Installed\n    0.0.1\n"
    )
}

#[test]
fn pkghist_should_print_to_stdout_no_colors_no_details() {
    assert_eq!(plain(&one_installed(), false, true), "foo\n")
}

#[test]
fn format_should_print_to_stdout_no_colors_no_details() {
    assert_eq!(plain(&one_installed(), false, true), "foo\n")
}

#[test]
fn pkghist_should_print_compact_to_stdout() {
    assert_eq!(compact(&three_events("Upgraded"), true, false), COMPACT)
}

#[test]
fn format_should_print_compact_to_stdout() {
    assert_eq!(compact(&three_events("Upgraded"), true, false), COMPACT)
}

fn one_upgraded() -> Vec<PackageHistory> {
    vec![PackageHistory {
        p: String::from("foo"),
        e: vec![ev("Upgraded", "0.0.2", "2019-08-26 12:00:00")],
    }]
}

#[test]
fn pkghist_should_print_compact_to_stdout_no_colors() {
    assert_eq!(
        compact(&one_upgraded(), false, false),
        "|foo|2019-08-26 12:00:00|Upgraded|0.0.2|\n"
    )
}

#[test]
fn format_should_print_compact_to_stdout_no_colors() {
    assert_eq!(
        compact(&one_upgraded(), false, false),
        "|foo|2019-08-26 12:00:00|Upgraded|0.0.2|\n"
    )
}

#[test]
fn pkghist_should_print_compact_to_stdout_no_details() {
    assert_eq!(compact(&three_events("Installed"), true, true), COMPACT_NO_DETAILS)
}

#[test]
fn format_should_print_compact_to_stdout_no_details() {
    assert_eq!(compact(&three_events("Installed"), true, true), COMPACT_NO_DETAILS)
}

#[test]
fn pkghist_should_print_compact_to_stdout_no_details_no_colors() {
    assert_eq!(compact(&one_installed(), false, true), "|foo|\n")
}

#[test]
fn format_should_print_compact_to_stdout_no_details_no_colors() {
    assert_eq!(compact(&one_installed(), false, true), "|foo|\n")
}

fn two_packages() -> Vec<PackageHistory> {
    vec![
        PackageHistory {
            p: String::from("foo"),
            e: vec![
                ev("Installed", "0.0.1", "2019-08-26 12:00:00"),
                ev("Upgraded", "0.0.2", "2019-08-30 13:30:00"),
            ],
        },
        PackageHistory {
            p: String::from("another"),
            e: vec![
                ev("Installed", "1.0.1", "2019-08-27 12:00:00"),
                ev("Upgraded", "1.0.2-deadbeef", "2019-09-01 13:30:00"),
            ],
        },
    ]
}

#[test]
fn pkghist_should_get_max_lens() {
    let (p_max, d_max, a_max, v_max) = max_lens(&two_packages());
    assert_eq!(p_max, 7);
    assert_eq!(d_max, 19);
    assert_eq!(a_max, 9);
    assert_eq!(v_max, 14)
}

#[test]
fn format_should_get_max_lens() {
    let (p_max, d_max, a_max, v_max) = max_lens(&two_packages());
    assert_eq!(p_max, 7);
    assert_eq!(d_max, 19);
    assert_eq!(a_max, 9);
    assert_eq!(v_max, 14)
}

fn another(last: &str) -> PackageHistory {
    PackageHistory {
        p: String::from("another"),
        e: vec![
            ev("Installed", "1.0.1", "2019-08-27 12:00:00"),
            ev(last, "1.0.2-deadbeef", "2019-09-01 13:30:00"),
        ],
    }
}

#[test]
fn pkghist_should_get_last_action_removed() {
    assert_eq!(last_action(&another("Removed")), Action::Removed)
}

#[test]
fn format_should_get_last_action_removed() {
    assert_eq!(last_action(&another("Removed")), Action::Removed)
}

#[test]
fn pkghist_should_get_last_action_upgraded() {
    assert_eq!(last_action(&another("Upgraded")), Action::Upgraded)
}

#[test]
fn format_should_get_last_action_upgraded() {
    assert_eq!(last_action(&another("Upgraded")), Action::Upgraded)
}

#[test]
fn compact_pads_columns_to_the_widest_entry() {
    let out = compact(&two_packages(), false, false);
    assert_eq!(
        out,
        "|foo    |2019-08-26 12:00:00|Installed|0.0.1         |\n\
         |foo    |2019-08-30 13:30:00|Upgraded |0.0.2         |\n\
         |another|2019-08-27 12:00:00|Installed|1.0.1         |\n\
         |another|2019-09-01 13:30:00|Upgraded |1.0.2-deadbeef|\n"
    );
    assert_eq!(compact(&[], true, false), "");
    assert_eq!(max_lens(&[]), (0, 0, 0, 0));
}

#[test]
fn should_create_package_histories_with_new() {
    let ev1 = Event::new(
        String::from("1.2.1"),
        String::from("2019-10-01 12:30:00"),
        String::from("Upgraded"),
    );
    let ev2 = Event::new(
        String::from("1.2.1"),
        String::from("2019-10-01 13:30:00"),
        String::from("Removed"),
    );

    let package_histories = PackageHistory::new(String::from("foo"), vec![ev1.clone(), ev2.clone()]);

    assert_eq!(package_histories.p, "foo");
    assert_eq!(package_histories.e.len(), 2);
    assert!(package_histories.e.contains(&ev1));
    assert!(package_histories.e.contains(&ev2))
}

fn created() -> PackageHistory {
    let ev1 = PacmanEvent::new(
        Timestamp::from_ymd_hms(2019, 9, 1, 12, 30, 0).unwrap(),
        Action::Installed,
        String::from("test"),
        String::from("0.1.0"),
        None,
    );
    let ev2 = PacmanEvent::new(
        Timestamp::from_ymd_hms(2019, 9, 1, 18, 30, 10).unwrap(),
        Action::Upgraded,
        String::from("test"),
        String::from("0.1.0"),
        Some(String::from("0.1.1")),
    );
    PackageHistory::from_pacman_events(&vec![ev1, ev2])
}

fn created_events() -> Vec<Event> {
    vec![
        Event::new(
            String::from("0.1.0"),
            String::from("2019-09-01 12:30:00"),
            String::from("Installed"),
        ),
        Event::new(
            String::from("0.1.1"),
            String::from("2019-09-01 18:30:10"),
            String::from("Upgraded"),
        ),
    ]
}

#[test]
fn pkghist_should_create_package_histories() {
    let package_history = created();
    assert_eq!(package_history.p, "test");
    assert_eq!(package_history.e.len(), 2);
    assert_eq!(package_history.e, created_events())
}

#[test]
fn mod_should_create_package_histories() {
    let package_history = created();
    assert_eq!(package_history.p, "test");
    assert_eq!(package_history.e.len(), 2);
    assert_eq!(package_history.e, created_events())
}
