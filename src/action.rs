//! The kinds of package events that a log records.
use vstd::prelude::*;

use crate::error::{Error, ErrorDetail};
use crate::text::{chars_of, lower_of, lowercase, same_chars, string_of};

verus! {

/// What happened to a package.
#[derive(Debug, Clone, Copy, PartialEq, Eq, Structural)]
pub enum Action {
    Installed,
    Reinstalled,
    Upgraded,
    Downgraded,
    Removed,
}

/// The keyword of an action as it stands in a log line.
pub open spec fn action_word(a: Action) -> Seq<char> {
    match a {
        Action::Installed => seq!['i', 'n', 's', 't', 'a', 'l', 'l', 'e', 'd'],
        Action::Reinstalled => seq!['r', 'e', 'i', 'n', 's', 't', 'a', 'l', 'l', 'e', 'd'],
        Action::Upgraded => seq!['u', 'p', 'g', 'r', 'a', 'd', 'e', 'd'],
        Action::Downgraded => seq!['d', 'o', 'w', 'n', 'g', 'r', 'a', 'd', 'e', 'd'],
        Action::Removed => seq!['r', 'e', 'm', 'o', 'v', 'e', 'd'],
    }
}

/// The action whose keyword is `w`, if any.
pub open spec fn action_of_word(w: Seq<char>) -> Option<Action> {
    if w == action_word(Action::Installed) {
        Some(Action::Installed)
    } else if w == action_word(Action::Reinstalled) {
        Some(Action::Reinstalled)
    } else if w == action_word(Action::Upgraded) {
        Some(Action::Upgraded)
    } else if w == action_word(Action::Downgraded) {
        Some(Action::Downgraded)
    } else if w == action_word(Action::Removed) {
        Some(Action::Removed)
    } else {
        None
    }
}

/// The printed name of an action: its keyword with a capital first letter.
pub open spec fn action_name(a: Action) -> Seq<char> {
    match a {
        Action::Installed => seq!['I', 'n', 's', 't', 'a', 'l', 'l', 'e', 'd'],
        Action::Reinstalled => seq!['R', 'e', 'i', 'n', 's', 't', 'a', 'l', 'l', 'e', 'd'],
        Action::Upgraded => seq!['U', 'p', 'g', 'r', 'a', 'd', 'e', 'd'],
        Action::Downgraded => seq!['D', 'o', 'w', 'n', 'g', 'r', 'a', 'd', 'e', 'd'],
        Action::Removed => seq!['R', 'e', 'm', 'o', 'v', 'e', 'd'],
    }
}

/// The action whose printed name is `w`, if any.
pub open spec fn action_of_name(w: Seq<char>) -> Option<Action> {
    if w == action_name(Action::Installed) {
        Some(Action::Installed)
    } else if w == action_name(Action::Reinstalled) {
        Some(Action::Reinstalled)
    } else if w == action_name(Action::Upgraded) {
        Some(Action::Upgraded)
    } else if w == action_name(Action::Downgraded) {
        Some(Action::Downgraded)
    } else if w == action_name(Action::Removed) {
        Some(Action::Removed)
    } else {
        None
    }
}

pub(crate) fn word_chars(a: Action) -> (r: Vec<char>)
    ensures
        r@ == action_word(a),
{
    match a {
        Action::Installed => vec!['i', 'n', 's', 't', 'a', 'l', 'l', 'e', 'd'],
        Action::Reinstalled => vec!['r', 'e', 'i', 'n', 's', 't', 'a', 'l', 'l', 'e', 'd'],
        Action::Upgraded => vec!['u', 'p', 'g', 'r', 'a', 'd', 'e', 'd'],
        Action::Downgraded => vec!['d', 'o', 'w', 'n', 'g', 'r', 'a', 'd', 'e', 'd'],
        Action::Removed => vec!['r', 'e', 'm', 'o', 'v', 'e', 'd'],
    }
}

pub(crate) fn name_chars(a: Action) -> (r: Vec<char>)
    ensures
        r@ == action_name(a),
{
    match a {
        Action::Installed => vec!['I', 'n', 's', 't', 'a', 'l', 'l', 'e', 'd'],
        Action::Reinstalled => vec!['R', 'e', 'i', 'n', 's', 't', 'a', 'l', 'l', 'e', 'd'],
        Action::Upgraded => vec!['U', 'p', 'g', 'r', 'a', 'd', 'e', 'd'],
        Action::Downgraded => vec!['D', 'o', 'w', 'n', 'g', 'r', 'a', 'd', 'e', 'd'],
        Action::Removed => vec!['R', 'e', 'm', 'o', 'v', 'e', 'd'],
    }
}

/// The action whose keyword is `w`, if any.
pub(crate) fn action_from_word(w: &Vec<char>) -> (r: Option<Action>)
    ensures
        r == action_of_word(w@),
{
    if same_chars(w, &word_chars(Action::Installed)) {
        Some(Action::Installed)
    } else if same_chars(w, &word_chars(Action::Reinstalled)) {
        Some(Action::Reinstalled)
    } else if same_chars(w, &word_chars(Action::Upgraded)) {
        Some(Action::Upgraded)
    } else if same_chars(w, &word_chars(Action::Downgraded)) {
        Some(Action::Downgraded)
    } else if same_chars(w, &word_chars(Action::Removed)) {
        Some(Action::Removed)
    } else {
        None
    }
}

/// The action whose printed name is `w`, if any.
pub(crate) fn action_from_name(w: &Vec<char>) -> (r: Option<Action>)
    ensures
        r == action_of_name(w@),
{
    if same_chars(w, &name_chars(Action::Installed)) {
        Some(Action::Installed)
    } else if same_chars(w, &name_chars(Action::Reinstalled)) {
        Some(Action::Reinstalled)
    } else if same_chars(w, &name_chars(Action::Upgraded)) {
        Some(Action::Upgraded)
    } else if same_chars(w, &name_chars(Action::Downgraded)) {
        Some(Action::Downgraded)
    } else if same_chars(w, &name_chars(Action::Removed)) {
        Some(Action::Removed)
    } else {
        None
    }
}

impl Action {
    pub open spec fn spec_is_removed(self) -> bool {
        self == Action::Removed
    }

    pub fn is_removed(&self) -> (r: bool)
        ensures
            r == self.spec_is_removed(),
    {
        match self {
            Action::Removed => true,
            _ => false,
        }
    }

    pub fn is_installed(&self) -> (r: bool)
        ensures
            r == !self.spec_is_removed(),
    {
        !self.is_removed()
    }

    /// The printed name of the action (`Installed`, `Removed`, ...).
    pub fn name(&self) -> (r: String)
        ensures
            r@ == action_name(*self),
    {
        string_of(&name_chars(*self))
    }

    /// Reads an action from a keyword that is already in lower case.
    pub fn from_lowercase(s: &str) -> (r: Result<Action, Error>)
        ensures
            match action_of_word(s@) {
                Some(a) => r == Ok::<Action, Error>(a),
                None => r is Err && r->Err_0.detail == ErrorDetail::InvalidAction,
            },
    {
        match action_from_word(&chars_of(s)) {
            Some(a) => Ok(a),
            None => Err(Error::new(ErrorDetail::InvalidAction)),
        }
    }

    /// Reads an action from its keyword, in any case.
    pub fn parse(s: &str) -> (r: Result<Action, Error>)
        ensures
            match action_of_word(lower_of(s@)) {
                Some(a) => r == Ok::<Action, Error>(a),
                None => r is Err && r->Err_0.detail == ErrorDetail::InvalidAction,
            },
    {
        let lower = lowercase(s);
        Action::from_lowercase(lower.as_str())
    }
}

impl std::str::FromStr for Action {
    type Err = Error;

    fn from_str(s: &str) -> Result<Action, Error> {
        Action::parse(s)
    }
}

} // verus!
