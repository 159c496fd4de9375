use std::str::FromStr;

use pkghist::action::Action;
use pkghist::error::{Error, ErrorDetail};

#[test]
fn should_be_removed() {
    let removed = Action::Removed;
    assert_eq!(removed.is_removed(), true);
    assert_eq!(removed.is_installed(), false)
}

#[test]
fn should_be_installed() {
    let installed = Action::Upgraded;
    assert_eq!(installed.is_installed(), true);
    assert_eq!(installed.is_removed(), false)
}

#[test]
fn should_parse_action_installed() {
    let action: Action = "installed".parse().unwrap();
    assert_eq!(action, Action::Installed)
}

#[test]
fn should_parse_action_reinstalled() {
    let action: Action = "reinstalled".parse().unwrap();
    assert_eq!(action, Action::Reinstalled)
}

#[test]
fn should_parse_action_removed() {
    let action: Action = "removed".parse().unwrap();
    assert_eq!(action, Action::Removed)
}

#[test]
fn should_parse_action_upgraded() {
    let action: Action = "upgraded".parse().unwrap();
    assert_eq!(action, Action::Upgraded)
}

#[test]
fn should_not_parse_an_action() {
    let action: Error = Action::from_str("foo").err().unwrap();
    assert_eq!(action, Error::new(ErrorDetail::InvalidAction))
}

#[test]
fn action_keyword_in_any_case() {
    assert_eq!(Action::parse("DownGraded").unwrap(), Action::Downgraded);
    assert_eq!(Action::from_lowercase("downgraded").unwrap(), Action::Downgraded);
    assert!(Action::from_lowercase("Downgraded").is_err());
}

#[test]
fn action_names() {
    assert_eq!(Action::Installed.name(), "Installed");
    assert_eq!(Action::Reinstalled.name(), "Reinstalled");
    assert_eq!(Action::Upgraded.name(), "Upgraded");
    assert_eq!(Action::Downgraded.name(), "Downgraded");
    assert_eq!(Action::Removed.name(), "Removed");
}
