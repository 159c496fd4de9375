//! Query and output settings, and the checks on their values.
use vstd::prelude::*;

use crate::error::{Error, ErrorDetail};
use crate::event::is_digit;
use crate::text::{chars_of, lower_of, lowercase, same_chars};
use crate::timestamp::Timestamp;

verus! {

/// How the package histories are written out.
#[derive(Debug, Clone, Copy, PartialEq, Eq, Structural)]
pub enum Format {
    Plain { with_colors: bool, without_details: bool },
    Json { without_details: bool },
    Compact { with_colors: bool, without_details: bool },
}

/// The format a lower-case name stands for.
pub open spec fn format_of_name(s: Seq<char>) -> Option<Format> {
    if s == seq!['j', 's', 'o', 'n'] {
        Some(Format::Json { without_details: false })
    } else if s == seq!['p', 'l', 'a', 'i', 'n'] {
        Some(Format::Plain { with_colors: true, without_details: false })
    } else if s == seq!['c', 'o', 'm', 'p', 'a', 'c', 't'] {
        Some(Format::Compact { with_colors: true, without_details: false })
    } else {
        None
    }
}

impl Format {
    /// Reads a format from a name that is already in lower case.
    pub fn from_lowercase(s: &str) -> (r: Result<Format, Error>)
        ensures
            match format_of_name(s@) {
                Some(f) => r == Ok::<Format, Error>(f),
                None => r is Err && r->Err_0.detail == ErrorDetail::InvalidFormat,
            },
    {
        let cs = chars_of(s);
        if same_chars(&cs, &vec!['j', 's', 'o', 'n']) {
            Ok(Format::Json { without_details: false })
        } else if same_chars(&cs, &vec!['p', 'l', 'a', 'i', 'n']) {
            Ok(Format::Plain { with_colors: true, without_details: false })
        } else if same_chars(&cs, &vec!['c', 'o', 'm', 'p', 'a', 'c', 't']) {
            Ok(Format::Compact { with_colors: true, without_details: false })
        } else {
            Err(Error::new(ErrorDetail::InvalidFormat))
        }
    }

    /// Reads a format from its name, in any case.
    pub fn parse(s: &str) -> (r: Result<Format, Error>)
        ensures
            match format_of_name(lower_of(s@)) {
                Some(f) => r == Ok::<Format, Error>(f),
                None => r is Err && r->Err_0.detail == ErrorDetail::InvalidFormat,
            },
    {
        let lower = lowercase(s);
        Format::from_lowercase(lower.as_str())
    }
}

impl std::str::FromStr for Format {
    type Err = Error;

    fn from_str(s: &str) -> Result<Format, Error> {
        Format::parse(s)
    }
}

/// Which end of the packages, ordered by their latest event, to keep.
#[derive(Debug, Clone, Copy, PartialEq, Eq, Structural)]
pub enum Direction {
    Forwards { n: usize },
    Backwards { n: usize },
}

impl Direction {
    pub fn from_first(n: u32) -> (r: Direction)
        ensures
            r == (Direction::Forwards { n: n as usize }),
    {
        Direction::Forwards { n: n as usize }
    }

    pub fn from_last(n: u32) -> (r: Direction)
        ensures
            r == (Direction::Backwards { n: n as usize }),
    {
        Direction::Backwards { n: n as usize }
    }
}

/// Which packages a query keeps by the newest event of each.
#[derive(Debug, Clone, Copy, PartialEq, Eq, Structural)]
pub enum StateMode {
    /// Every package.
    AllPackages,
    /// Packages whose newest event is no removal.
    WithoutRemoved,
    /// Packages whose newest event is a removal.
    WithoutInstalled,
}

/// The settings of a query and of its output.
pub struct Config {
    pub exclude: bool,
    pub removed_only: bool,
    pub with_removed: bool,
    pub logfile: String,
    pub filters: Vec<String>,
    pub format: Format,
    pub limit: Option<u32>,
    pub direction: Option<Direction>,
    pub after: Option<Timestamp>,
}

/// The state mode that the two flags select; `removed_only` wins.
pub open spec fn mode_of(removed_only: bool, with_removed: bool) -> StateMode {
    if removed_only {
        StateMode::WithoutInstalled
    } else if with_removed {
        StateMode::AllPackages
    } else {
        StateMode::WithoutRemoved
    }
}

impl Config {
    /// The default settings: every installed package of `/var/log/pacman.log`,
    /// in colored plain text.
    pub fn new() -> (r: Config)
        ensures
            !r.exclude && !r.removed_only && !r.with_removed,
            r.logfile@ == "/var/log/pacman.log"@,
            r.filters@.len() == 0,
            r.format == (Format::Plain { with_colors: true, without_details: false }),
            r.limit is None && r.direction is None && r.after is None,
    {
        Config {
            exclude: false,
            removed_only: false,
            with_removed: false,
            logfile: "/var/log/pacman.log".to_owned(),
            filters: Vec::new(),
            format: Format::Plain { with_colors: true, without_details: false },
            limit: None,
            direction: None,
            after: None,
        }
    }

    pub fn state_mode(&self) -> (r: StateMode)
        ensures
            r == mode_of(self.removed_only, self.with_removed),
    {
        if self.removed_only {
            StateMode::WithoutInstalled
        } else if self.with_removed {
            StateMode::AllPackages
        } else {
            StateMode::WithoutRemoved
        }
    }
}

impl Default for Config {
    fn default() -> (r: Config)
        ensures
            !r.exclude && !r.removed_only && !r.with_removed,
            r.logfile@ == "/var/log/pacman.log"@,
            r.filters@.len() == 0,
            r.format == (Format::Plain { with_colors: true, without_details: false }),
            r.limit is None && r.direction is None && r.after is None,
    {
        Config::new()
    }
}

/// The value of a text of decimal digits.
pub open spec fn digits_value(s: Seq<char>) -> int
    decreases s.len(),
{
    if s.len() == 0 {
        0
    } else {
        digits_value(s.drop_last()) * 10 + (s.last() as int - '0' as int)
    }
}

pub open spec fn all_digits(s: Seq<char>) -> bool {
    forall|i: int| 0 <= i < s.len() ==> is_digit(#[trigger] s[i])
}

/// The digits of a count: the text without one leading `+`.
pub open spec fn count_digits(s: Seq<char>) -> Seq<char> {
    if s.len() > 0 && s[0] == '+' {
        s.drop_first()
    } else {
        s
    }
}

/// What `str::parse::<u32>` reads from a text: an optional `+`, then one
/// or more decimal digits whose value fits in a `u32`.
pub open spec fn u32_of_text(s: Seq<char>) -> Option<u32> {
    let d = count_digits(s);
    if d.len() > 0 && all_digits(d) && digits_value(d) <= u32::MAX {
        Some(digits_value(d) as u32)
    } else {
        None
    }
}

proof fn lemma_digits_value_grows(s: Seq<char>, k: int)
    requires
        all_digits(s),
        0 <= k <= s.len(),
    ensures
        digits_value(s.subrange(0, k)) <= digits_value(s),
        0 <= digits_value(s.subrange(0, k)),
    decreases s.len() - k,
{
    if k < s.len() {
        lemma_digits_value_grows(s, k + 1);
        let t = s.subrange(0, k + 1);
        assert(t.drop_last() =~= s.subrange(0, k));
        assert(is_digit(s[k]));
    } else {
        assert(s.subrange(0, k) =~= s);
        lemma_digits_value_non_negative(s);
    }
}

proof fn lemma_digits_value_non_negative(s: Seq<char>)
    requires
        all_digits(s),
    ensures
        0 <= digits_value(s),
    decreases s.len(),
{
    if s.len() > 0 {
        assert(is_digit(s.last()));
        lemma_digits_value_non_negative(s.drop_last());
    }
}

/// Reads a count as `str::parse::<u32>` does.
pub fn parse_u32(s: &str) -> (r: Option<u32>)
    ensures
        r == u32_of_text(s@),
{
    let cs = chars_of(s);
    let start: usize = if cs.len() > 0 && cs[0] == '+' {
        1
    } else {
        0
    };
    let ghost d = count_digits(s@);
    assert(d =~= cs@.subrange(start as int, cs@.len() as int));
    if start == cs.len() {
        return None;
    }
    let mut acc: u64 = 0;
    let mut i: usize = start;
    while i < cs.len()
        invariant
            start <= i <= cs@.len(),
            d == cs@.subrange(start as int, cs@.len() as int),
            d == count_digits(s@),
            all_digits(d.subrange(0, i - start)),
            acc as int == digits_value(d.subrange(0, i - start)),
            acc <= u32::MAX,
        decreases cs.len() - i,
    {
        let c = cs[i];
        assert(c == d[i - start]);
        if !('0' <= c && c <= '9') {
            assert(!is_digit(d[i - start]));
            assert(!all_digits(d));
            return None;
        }
        let digit = (c as u32 - '0' as u32) as u64;
        assert(d.subrange(0, i + 1 - start).drop_last() =~= d.subrange(0, i - start));
        assert(d.subrange(0, i + 1 - start).last() == c);
        assert forall|j: int| 0 <= j < i + 1 - start implies is_digit(#[trigger] d.subrange(0, i + 1 - start)[j]) by {
            if j < i - start {
                assert(d.subrange(0, i + 1 - start)[j] == d.subrange(0, i - start)[j]);
            }
        }
        assert(digit as int == c as int - '0' as int);
        let next = acc * 10 + digit;
        assert(next as int == digits_value(d.subrange(0, i + 1 - start)));
        if next > u32::MAX as u64 {
            proof {
                if all_digits(d) {
                    lemma_digits_value_grows(d, i + 1 - start);
                }
            }
            return None;
        }
        acc = next;
        i = i + 1;
    }
    assert(d.subrange(0, d.len() as int) =~= d);
    Some(acc as u32)
}

/// The answer of the positive-count check on a text, given the number read
/// from it.
pub open spec fn gt_0_answer(s: Seq<char>, parsed: Option<u32>) -> Result<Seq<char>, Seq<char>> {
    match parsed {
        Some(l) => if l > 0 {
            Ok(s)
        } else {
            Err("limit must be greater than 0"@)
        },
        None => Err("Please provide a positive number"@),
    }
}

pub open spec fn result_view(r: Result<String, String>) -> Result<Seq<char>, Seq<char>> {
    match r {
        Ok(s) => Ok(s@),
        Err(s) => Err(s@),
    }
}

/// Checks a count read from `s`: the text itself where the number is
/// positive, else a message.
pub fn check_gt_0(s: &str, parsed: Option<u32>) -> (r: Result<String, String>)
    ensures
        result_view(r) == gt_0_answer(s@, parsed),
{
    match parsed {
        Some(l) => if l > 0 {
            Ok(s.to_owned())
        } else {
            Err("limit must be greater than 0".to_owned())
        },
        None => Err("Please provide a positive number".to_owned()),
    }
}

/// Accepts a text that is a positive number, as a count must be.
pub fn validate_gt_0(s: &str) -> (r: Result<String, String>)
    ensures
        result_view(r) == gt_0_answer(s@, u32_of_text(s@)),
{
    check_gt_0(s, parse_u32(s))
}

/// How much the log of the program itself says.
#[derive(Debug, Clone, Copy, PartialEq, Eq, Structural)]
pub enum LevelFilter {
    Off,
    Error,
    Warn,
    Info,
    Debug,
    Trace,
}

pub fn level_filter_from_verbosity(verbosity: u64) -> (r: LevelFilter)
    ensures
        r == (if verbosity == 0 {
            LevelFilter::Off
        } else if verbosity == 1 {
            LevelFilter::Warn
        } else if verbosity == 2 {
            LevelFilter::Info
        } else if verbosity == 3 {
            LevelFilter::Debug
        } else {
            LevelFilter::Trace
        }),
{
    match verbosity {
        0 => LevelFilter::Off,
        1 => LevelFilter::Warn,
        2 => LevelFilter::Info,
        3 => LevelFilter::Debug,
        _ => LevelFilter::Trace,
    }
}

} // verus!
