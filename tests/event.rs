use std::str::FromStr;

use pkghist::action::Action;
use pkghist::error::ErrorDetail;
use pkghist::event::{from_lines, PacmanEvent};
use pkghist::pkghist::sort_events;
use pkghist::timestamp::Timestamp;

fn at(y: i32, mo: u32, d: u32, h: u32, mi: u32, s: u32) -> Timestamp {
    Timestamp::from_ymd_hms(y, mo, d, h, mi, s).unwrap()
}

#[test]
fn should_parse_new_date_format() {
    let p1: PacmanEvent = "[2019-10-23T20:25:18+0200] [ALPM] installed yay (9.4.2-1)"
        .parse()
        .unwrap();
    assert_eq!(p1.date, at(2019, 10, 23, 20, 25, 18))
}

#[test]
fn should_order_pacman_events_by_date() {
    let p1: PacmanEvent = "[2019-07-16 21:07] [ALPM] installed nvidia (430.26)"
        .parse()
        .unwrap();
    let p2: PacmanEvent = "[2019-07-16 21:08] [ALPM] upgraded nvidia (430.26 -> 430.26-5)"
        .parse()
        .unwrap();
    let p3: PacmanEvent = "[2019-07-16 21:09] [ALPM] upgraded nvidia (430.26-9 -> 430.26-10)"
        .parse()
        .unwrap();
    let p = vec![p2.copy(), p3.copy(), p1.copy()];

    let sorted = sort_events(&p);

    let should_match = vec![p1, p2, p3];
    assert_eq!(sorted, should_match)
}

#[test]
fn should_extract_a_pacman_event_with_from_and_to() {
    let line: PacmanEvent = "[2019-07-05 22:10] [ALPM] upgraded libva (2.4.1-1 -> 2.5.0-1)"
        .parse()
        .unwrap();
    let expected_pacman_event = PacmanEvent {
        date: at(2019, 7, 5, 22, 10, 0),
        action: Action::Upgraded,
        package: String::from("libva"),
        from: String::from("2.4.1-1"),
        to: Some(String::from("2.5.0-1")),
    };
    assert_eq!(line, expected_pacman_event)
}

#[test]
fn should_extract_a_pacman_install_event() {
    let line: PacmanEvent = "[2019-06-26 10:47] [ALPM] installed ansible (2.8.1-1)"
        .parse()
        .unwrap();
    let exptected_pacman_event = PacmanEvent {
        date: at(2019, 6, 26, 10, 47, 0),
        action: Action::Installed,
        package: String::from("ansible"),
        from: String::from("2.8.1-1"),
        to: None,
    };
    assert_eq!(line, exptected_pacman_event)
}

#[test]
fn should_extract_a_pacman_downgraded_event() {
    let line: PacmanEvent = "[2018-12-15 00:22] [ALPM] downgraded mps-youtube (0.2.8-2 -> 0.2.8-1)"
        .parse()
        .unwrap();
    let expected_pacman_event = PacmanEvent {
        date: at(2018, 12, 15, 0, 22, 0),
        action: Action::Downgraded,
        package: String::from("mps-youtube"),
        from: String::from("0.2.8-2"),
        to: Some(String::from("0.2.8-1")),
    };
    assert_eq!(line, expected_pacman_event)
}

#[test]
fn should_extract_a_pacman_reinstall_event() {
    let line: PacmanEvent = "[2019-06-26 10:47] [ALPM] reinstalled ansible (2.8.1-1)"
        .parse()
        .unwrap();
    let exptected_pacman_event = PacmanEvent::new(
        at(2019, 6, 26, 10, 47, 0),
        Action::Reinstalled,
        String::from("ansible"),
        String::from("2.8.1-1"),
        None,
    );
    assert_eq!(line, exptected_pacman_event)
}

#[test]
fn should_extract_a_removed_pacman_event_with_from() {
    let line: PacmanEvent = "[2019-07-04 14:05] [ALPM] removed gnome-common (3.18.0-3)"
        .parse()
        .unwrap();
    let expected_pacman_event = PacmanEvent::new(
        at(2019, 7, 4, 14, 5, 0),
        Action::Removed,
        String::from("gnome-common"),
        String::from("3.18.0-3"),
        None,
    );
    assert_eq!(line, expected_pacman_event)
}

#[test]
fn should_not_extract_a_pacman_event() {
    let r = PacmanEvent::from_str("[2019-07-04 14:05] I AM NOT MATCHING");
    assert_eq!(r.is_err(), true)
}

#[test]
fn should_extract_the_valid_lines() {
    let lines: Vec<String> = "[2019-07-14 21:33] [PACMAN] synchronizing package lists\n[2019-07-14 21:33] [PACMAN] starting full system upgrade\n[2019-07-14 21:33] [ALPM] transaction started\n[2019-07-14 21:33] [ALPM] upgraded feh (3.1.3-1 -> 3.2-1)\n[2019-07-14 21:33] [ALPM] upgraded libev (4.25-1 -> 4.27-1)\n[2019-07-14 21:33] [ALPM] upgraded iso-codes (4.2-1 -> 4.3-1)"
        .lines()
        .map(String::from)
        .collect();

    let pacman_events = from_lines(&lines);

    assert_eq!(pacman_events.len(), 3);

    let packages: Vec<String> = pacman_events.iter().map(|p| p.package.clone()).collect();
    assert_eq!(
        packages.as_slice(),
        [
            String::from("feh"),
            String::from("libev"),
            String::from("iso-codes"),
        ]
    );
}

#[test]
fn should_skip_invalid_line() {
    let lines = vec![String::from(
        "[2018-12-15 00:19] [PACMAN] Running 'pacman -U ^\u{fffd}\u{fffd}sA\u{fffd}\u{fffd}'",
    )];

    let pacman_events = from_lines(&lines);

    assert_eq!(pacman_events.len(), 0);
}

#[test]
fn malformed_lines_give_invalid_format() {
    let bad = [
        "",
        "[2019-07-04 14:05] [ALPM] Installed foo (1.0)",
        "[2019-07-04 14:05] [ALPM] installed foo 1.0",
        "[2019-07-04 14:05] [ALPM] installed foo ()",
        "[2019-07-04 14:05] [ALPM] upgraded foo (1.0 -> )",
        "[2019-13-04 14:05] [ALPM] installed foo (1.0)",
        "[2019-07-04 14:05] [] installed foo (1.0)",
        "[19-07-04 14:05] [ALPM] installed foo (1.0)",
    ];
    for line in bad.iter() {
        let e = PacmanEvent::parse(line).err().unwrap();
        assert_eq!(e.detail, ErrorDetail::InvalidFormat);
    }
}

#[test]
fn text_after_the_version_clause_is_ignored() {
    let e = PacmanEvent::parse("[2019-07-04 14:05] [ALPM] upgraded foo (1.0 -> 2.0) trailing")
        .unwrap();
    assert_eq!(e.from, "1.0");
    assert_eq!(e.to, Some(String::from("2.0")));
    assert_eq!(e.printable_version(), "2.0");
}

#[test]
fn parsed_lines_never_outnumber_the_log() {
    let lines: Vec<String> = vec![
        String::from("noise"),
        String::from("[2019-07-04 14:05] [ALPM] installed a (1)"),
        String::from("[2019-07-04 14:05] [ALPM] frobnicated b (1)"),
    ];
    let events = from_lines(&lines);
    assert_eq!(events.len(), 1);
    assert!(events.len() <= lines.len());
    assert_eq!(events[0].package, "a");
}

#[test]
fn zoned_and_minute_dates_compare() {
    let a = PacmanEvent::parse("[2019-10-23 20:25] [ALPM] installed a (1)").unwrap();
    let b = PacmanEvent::parse("[2019-10-23T20:25:18+0200] [ALPM] installed a (1)").unwrap();
    assert_eq!(b.date.seconds - a.date.seconds, 18);
    assert_eq!(b.date.text(), "2019-10-23 20:25:18");
    assert_eq!(Timestamp::parse_minutes("2019-10-23 20:25"), Some(a.date));
    assert_eq!(Timestamp::parse_minutes("20191002 1230"), None);
}
