//! Log lines and the events they record.
//!
//! A line that records an event reads
//! `[<date>] [<source>] <action> <package> (<from>[ -> <to>])`, where the
//! date is `YYYY-MM-DD HH:MM` or `YYYY-MM-DDTHH:MM:SS±HHMM`, the source holds
//! no `]`, the action is one of the lower-case keywords, the package holds no
//! space, and each version is non-empty and holds neither a space nor `)`.
//! Whatever follows the closing parenthesis is ignored. Every other line is
//! no event.
use vstd::prelude::*;

use crate::action::{action_from_word, action_of_word, action_word, Action};
use crate::error::{Error, ErrorDetail};
use crate::text::{chars_of, string_of};
use crate::timestamp::{stamp_of_text, Timestamp};

verus! {

/// One event of the log: what happened to which package, when, and between
/// which versions.
#[derive(Debug, PartialEq, Eq)]
pub struct PacmanEvent {
    pub date: Timestamp,
    pub action: Action,
    pub package: String,
    pub from: String,
    pub to: Option<String>,
}

/// The mathematical content of an event.
pub struct EventView {
    pub date: i64,
    pub action: Action,
    pub package: Seq<char>,
    pub from: Seq<char>,
    pub to: Option<Seq<char>>,
}

pub open spec fn opt_view(o: Option<String>) -> Option<Seq<char>> {
    match o {
        Some(s) => Some(s@),
        None => None,
    }
}

impl View for PacmanEvent {
    type V = EventView;

    open spec fn view(&self) -> EventView {
        EventView {
            date: self.date.seconds,
            action: self.action,
            package: self.package@,
            from: self.from@,
            to: opt_view(self.to),
        }
    }
}

/// The views of a sequence of events.
pub open spec fn views(s: Seq<PacmanEvent>) -> Seq<EventView> {
    s.map_values(|e: PacmanEvent| e@)
}

/// The version an event leaves the package at: the new one where there is
/// one, else the one named.
pub open spec fn printable_version_of(e: EventView) -> Seq<char> {
    match e.to {
        Some(t) => t,
        None => e.from,
    }
}

impl PacmanEvent {
    pub fn new(
        date: Timestamp,
        action: Action,
        package: String,
        from: String,
        to: Option<String>,
    ) -> (r: PacmanEvent)
        ensures
            r == (PacmanEvent { date, action, package, from, to }),
    {
        PacmanEvent { date, action, package, from, to }
    }

    /// A copy of the event.
    pub fn copy(&self) -> (r: PacmanEvent)
        ensures
            r@ == self@,
    {
        let to = match &self.to {
            Some(t) => Some(t.clone()),
            None => None,
        };
        PacmanEvent {
            date: self.date,
            action: self.action,
            package: self.package.clone(),
            from: self.from.clone(),
            to,
        }
    }

    pub fn printable_version(&self) -> (r: String)
        ensures
            r@ == printable_version_of(self@),
    {
        match &self.to {
            Some(t) => t.clone(),
            None => self.from.clone(),
        }
    }

    /// Reads an event from a log line; `InvalidFormat` where the line records
    /// none.
    pub fn parse(line: &str) -> (r: Result<PacmanEvent, Error>)
        ensures
            match event_of_line(line@) {
                Some(e) => r is Ok && r->Ok_0@ == e,
                None => r is Err && r->Err_0.detail == ErrorDetail::InvalidFormat,
            },
    {
        let cs = chars_of(line);
        match line_fields(&cs) {
            None => Err(Error::new(ErrorDetail::InvalidFormat)),
            Some((date, action, package, from, to)) => {
                let date_text = string_of(&date);
                match Timestamp::parse_log_date(date_text.as_str()) {
                    None => Err(Error::new(ErrorDetail::InvalidFormat)),
                    Some(t) => {
                        let to_text = match to {
                            Some(v) => Some(string_of(&v)),
                            None => None,
                        };
                        Ok(
                            PacmanEvent {
                                date: t,
                                action,
                                package: string_of(&package),
                                from: string_of(&from),
                                to: to_text,
                            },
                        )
                    },
                }
            },
        }
    }
}

impl std::str::FromStr for PacmanEvent {
    type Err = Error;

    fn from_str(s: &str) -> Result<PacmanEvent, Error> {
        PacmanEvent::parse(s)
    }
}

/// The parts of a line that records an event, before its date is read.
pub struct LineFields {
    pub date: Seq<char>,
    pub action: Action,
    pub package: Seq<char>,
    pub from: Seq<char>,
    pub to: Option<Seq<char>>,
}

pub open spec fn is_digit(c: char) -> bool {
    '0' <= c && c <= '9'
}

/// The character that may stand at place `i` of a `YYYY-MM-DD HH:MM` date.
pub open spec fn minute_slot(i: int, c: char) -> bool {
    if i == 4 || i == 7 {
        c == '-'
    } else if i == 10 {
        c == ' '
    } else if i == 13 {
        c == ':'
    } else {
        is_digit(c)
    }
}

/// The character that may stand at place `i` of a
/// `YYYY-MM-DDTHH:MM:SS±HHMM` date.
pub open spec fn zoned_slot(i: int, c: char) -> bool {
    if i == 4 || i == 7 {
        c == '-'
    } else if i == 10 {
        c == 'T'
    } else if i == 13 || i == 16 {
        c == ':'
    } else if i == 19 {
        c == '+' || c == '-'
    } else {
        is_digit(c)
    }
}

pub open spec fn minute_shape(d: Seq<char>) -> bool {
    d.len() == 16 && forall|i: int| 0 <= i < 16 ==> minute_slot(i, #[trigger] d[i])
}

pub open spec fn zoned_shape(d: Seq<char>) -> bool {
    d.len() == 24 && forall|i: int| 0 <= i < 24 ==> zoned_slot(i, #[trigger] d[i])
}

/// Which characters end a field.
#[derive(Clone, Copy, PartialEq, Eq, Structural)]
pub enum Stop {
    Bracket,
    Space,
    SpaceOrParen,
}

pub open spec fn is_stop(stop: Stop, c: char) -> bool {
    match stop {
        Stop::Bracket => c == ']',
        Stop::Space => c == ' ',
        Stop::SpaceOrParen => c == ' ' || c == ')',
    }
}

/// The first place at or after `p` that holds a stop character, or the length.
pub open spec fn scan(s: Seq<char>, p: int, stop: Stop) -> int
    decreases s.len() - p,
{
    if p >= s.len() {
        s.len() as int
    } else if is_stop(stop, s[p]) {
        p
    } else {
        scan(s, p + 1, stop)
    }
}

/// Where the bracketed date of a line closes, or -1.
pub open spec fn date_end(line: Seq<char>) -> int {
    if line.len() >= 18 && line[0] == '[' && line[17] == ']' && minute_shape(line.subrange(1, 17)) {
        17
    } else if line.len() >= 26 && line[0] == '[' && line[25] == ']' && zoned_shape(
        line.subrange(1, 25),
    ) {
        25
    } else {
        -1
    }
}

/// The version clause from place `f0` on: `<from>)` or `<from> -> <to>)`.
pub open spec fn version_fields(line: Seq<char>, f0: int) -> Option<(Seq<char>, Option<Seq<char>>)> {
    let f1 = scan(line, f0, Stop::SpaceOrParen);
    if f1 <= f0 || f1 >= line.len() {
        None
    } else if line[f1] == ')' {
        Some((line.subrange(f0, f1), None))
    } else if line.len() - f1 > 3 && line[f1 + 1] == '-' && line[f1 + 2] == '>' && line[f1 + 3]
        == ' ' {
        let t0 = f1 + 4;
        let t1 = scan(line, t0, Stop::SpaceOrParen);
        if t1 > t0 && t1 < line.len() && line[t1] == ')' {
            Some((line.subrange(f0, f1), Some(line.subrange(t0, t1))))
        } else {
            None
        }
    } else {
        None
    }
}

/// The fields of a line that records an event, if it does.
pub open spec fn line_fields_of(line: Seq<char>) -> Option<LineFields> {
    let de = date_end(line);
    if de < 0 || !(de + 2 < line.len() && line[de + 1] == ' ' && line[de + 2] == '[') {
        None
    } else {
        let s0 = de + 3;
        let s1 = scan(line, s0, Stop::Bracket);
        if !(s1 > s0 && s1 + 1 < line.len() && line[s1 + 1] == ' ') {
            None
        } else {
            let a0 = s1 + 2;
            let a1 = scan(line, a0, Stop::Space);
            if a1 >= line.len() || action_of_word(line.subrange(a0, a1)) is None {
                None
            } else {
                let k0 = a1 + 1;
                let k1 = scan(line, k0, Stop::Space);
                if !(k1 > k0 && k1 + 1 < line.len() && line[k1 + 1] == '(') {
                    None
                } else {
                    match version_fields(line, k1 + 2) {
                        None => None,
                        Some((from, to)) => Some(
                            LineFields {
                                date: line.subrange(1, de),
                                action: action_of_word(line.subrange(a0, a1))->Some_0,
                                package: line.subrange(k0, k1),
                                from,
                                to,
                            },
                        ),
                    }
                }
            }
        }
    }
}

/// The event a line records, if it records one with a date that reads.
pub open spec fn event_of_line(line: Seq<char>) -> Option<EventView> {
    match line_fields_of(line) {
        None => None,
        Some(f) => match stamp_of_text(f.date) {
            None => None,
            Some(t) => Some(
                EventView { date: t, action: f.action, package: f.package, from: f.from, to: f.to },
            ),
        },
    }
}

fn is_stop_char(stop: Stop, c: char) -> (r: bool)
    ensures
        r == is_stop(stop, c),
{
    match stop {
        Stop::Bracket => c == ']',
        Stop::Space => c == ' ',
        Stop::SpaceOrParen => c == ' ' || c == ')',
    }
}

fn scan_from(s: &Vec<char>, p: usize, stop: Stop) -> (r: usize)
    requires
        p <= s@.len(),
    ensures
        r as int == scan(s@, p as int, stop),
        p <= r <= s@.len(),
{
    let mut i = p;
    while i < s.len() && !is_stop_char(stop, s[i])
        invariant
            p <= i <= s@.len(),
            scan(s@, p as int, stop) == scan(s@, i as int, stop),
        decreases s.len() - i,
    {
        i = i + 1;
    }
    i
}

fn sub_chars(s: &Vec<char>, a: usize, b: usize) -> (r: Vec<char>)
    requires
        a <= b <= s@.len(),
    ensures
        r@ == s@.subrange(a as int, b as int),
{
    let mut r: Vec<char> = Vec::new();
    let mut i = a;
    while i < b
        invariant
            a <= i <= b <= s@.len(),
            r@ == s@.subrange(a as int, i as int),
        decreases b - i,
    {
        r.push(s[i]);
        assert(s@.subrange(a as int, i + 1) == s@.subrange(a as int, i as int).push(s@[i as int]));
        i = i + 1;
    }
    r
}

fn minute_slot_ok(i: usize, c: char) -> (r: bool)
    ensures
        r == minute_slot(i as int, c),
{
    if i == 4 || i == 7 {
        c == '-'
    } else if i == 10 {
        c == ' '
    } else if i == 13 {
        c == ':'
    } else {
        '0' <= c && c <= '9'
    }
}

fn zoned_slot_ok(i: usize, c: char) -> (r: bool)
    ensures
        r == zoned_slot(i as int, c),
{
    if i == 4 || i == 7 {
        c == '-'
    } else if i == 10 {
        c == 'T'
    } else if i == 13 || i == 16 {
        c == ':'
    } else if i == 19 {
        c == '+' || c == '-'
    } else {
        '0' <= c && c <= '9'
    }
}

/// Whether the 16 characters from place 1 on have the minute date's shape.
fn has_minute_date(line: &Vec<char>) -> (r: bool)
    requires
        line@.len() >= 17,
    ensures
        r == minute_shape(line@.subrange(1, 17)),
{
    let mut i: usize = 0;
    while i < 16
        invariant
            i <= 16,
            line@.len() >= 17,
            forall|j: int| 0 <= j < i ==> minute_slot(j, #[trigger] line@[1 + j]),
        decreases 16 - i,
    {
        if !minute_slot_ok(i, line[i + 1]) {
            assert(line@.subrange(1, 17)[i as int] == line@[1 + i]);
            return false;
        }
        i = i + 1;
    }
    assert forall|j: int| 0 <= j < 16 implies minute_slot(j, #[trigger] line@.subrange(1, 17)[j]) by {
        assert(line@.subrange(1, 17)[j] == line@[1 + j]);
    }
    true
}

/// Whether the 24 characters from place 1 on have the zoned date's shape.
fn has_zoned_date(line: &Vec<char>) -> (r: bool)
    requires
        line@.len() >= 25,
    ensures
        r == zoned_shape(line@.subrange(1, 25)),
{
    let mut i: usize = 0;
    while i < 24
        invariant
            i <= 24,
            line@.len() >= 25,
            forall|j: int| 0 <= j < i ==> zoned_slot(j, #[trigger] line@[1 + j]),
        decreases 24 - i,
    {
        if !zoned_slot_ok(i, line[i + 1]) {
            assert(line@.subrange(1, 25)[i as int] == line@[1 + i]);
            return false;
        }
        i = i + 1;
    }
    assert forall|j: int| 0 <= j < 24 implies zoned_slot(j, #[trigger] line@.subrange(1, 25)[j]) by {
        assert(line@.subrange(1, 25)[j] == line@[1 + j]);
    }
    true
}

fn find_date_end(line: &Vec<char>) -> (r: Option<usize>)
    ensures
        match r {
            Some(x) => x as int == date_end(line@),
            None => date_end(line@) < 0,
        },
{
    if line.len() >= 18 && line[0] == '[' && line[17] == ']' && has_minute_date(line) {
        Some(17)
    } else if line.len() >= 26 && line[0] == '[' && line[25] == ']' && has_zoned_date(line) {
        Some(25)
    } else {
        None
    }
}

fn read_versions(line: &Vec<char>, f0: usize) -> (r: Option<(Vec<char>, Option<Vec<char>>)>)
    requires
        f0 <= line@.len(),
    ensures
        match version_fields(line@, f0 as int) {
            None => r is None,
            Some((from, to)) => r is Some && r->Some_0.0@ == from && match to {
                None => r->Some_0.1 is None,
                Some(t) => r->Some_0.1 is Some && r->Some_0.1->Some_0@ == t,
            },
        },
{
    let f1 = scan_from(line, f0, Stop::SpaceOrParen);
    if f1 <= f0 || f1 >= line.len() {
        None
    } else if line[f1] == ')' {
        Some((sub_chars(line, f0, f1), None))
    } else if line.len() - f1 > 3 && line[f1 + 1] == '-' && line[f1 + 2] == '>' && line[f1 + 3]
        == ' ' {
        let t0 = f1 + 4;
        let t1 = scan_from(line, t0, Stop::SpaceOrParen);
        if t1 > t0 && t1 < line.len() && line[t1] == ')' {
            Some((sub_chars(line, f0, f1), Some(sub_chars(line, t0, t1))))
        } else {
            None
        }
    } else {
        None
    }
}

/// The fields of a line that records an event: date text, action, package,
/// and the versions.
fn line_fields(line: &Vec<char>) -> (r: Option<(Vec<char>, Action, Vec<char>, Vec<char>, Option<Vec<char>>)>)
    ensures
        match line_fields_of(line@) {
            None => r is None,
            Some(f) => r is Some && r->Some_0.0@ == f.date && r->Some_0.1 == f.action
                && r->Some_0.2@ == f.package && r->Some_0.3@ == f.from && match f.to {
                None => r->Some_0.4 is None,
                Some(t) => r->Some_0.4 is Some && r->Some_0.4->Some_0@ == t,
            },
        },
{
    let de = match find_date_end(line) {
        Some(x) => x,
        None => return None,
    };
    if !(de + 2 < line.len() && line[de + 1] == ' ' && line[de + 2] == '[') {
        return None;
    }
    let s0 = de + 3;
    let s1 = scan_from(line, s0, Stop::Bracket);
    if !(s1 > s0 && line.len() - s1 > 1 && line[s1 + 1] == ' ') {
        return None;
    }
    let a0 = s1 + 2;
    let a1 = scan_from(line, a0, Stop::Space);
    if a1 >= line.len() {
        return None;
    }
    let action = match action_from_word(&sub_chars(line, a0, a1)) {
        Some(a) => a,
        None => return None,
    };
    let k0 = a1 + 1;
    let k1 = scan_from(line, k0, Stop::Space);
    if !(k1 > k0 && line.len() - k1 > 1 && line[k1 + 1] == '(') {
        return None;
    }
    match read_versions(line, k1 + 2) {
        None => None,
        Some((from, to)) => Some((sub_chars(line, 1, de), action, sub_chars(line, k0, k1), from, to)),
    }
}

/// The events that the given lines record, in their order; lines that record
/// none are skipped.
pub open spec fn events_of_lines(lines: Seq<Seq<char>>) -> Seq<EventView>
    decreases lines.len(),
{
    if lines.len() == 0 {
        Seq::empty()
    } else {
        let prev = events_of_lines(lines.drop_last());
        match event_of_line(lines.last()) {
            Some(e) => prev.push(e),
            None => prev,
        }
    }
}

pub open spec fn line_views(lines: Seq<String>) -> Seq<Seq<char>> {
    lines.map_values(|l: String| l@)
}

/// Reads the events of a log given as its lines. Lines that record no event
/// are skipped; the others keep their order.
pub fn from_lines(lines: &Vec<String>) -> (r: Vec<PacmanEvent>)
    ensures
        views(r@) == events_of_lines(line_views(lines@)),
        r@.len() <= lines@.len(),
{
    let mut r: Vec<PacmanEvent> = Vec::new();
    let mut i: usize = 0;
    while i < lines.len()
        invariant
            i <= lines@.len(),
            views(r@) == events_of_lines(line_views(lines@.subrange(0, i as int))),
            r@.len() <= i,
        decreases lines.len() - i,
    {
        proof {
            let pre = line_views(lines@.subrange(0, i + 1));
            assert(pre.drop_last() == line_views(lines@.subrange(0, i as int)));
            assert(pre.last() == lines@[i as int]@);
        }
        let ghost prev = r@;
        match PacmanEvent::parse(lines[i].as_str()) {
            Ok(e) => {
                r.push(e);
                assert(views(r@) == views(prev).push(e@));
            },
            Err(_) => {},
        }
        i = i + 1;
    }
    assert(lines@.subrange(0, lines@.len() as int) == lines@);
    r
}

} // verus!

verus! {

/// The line that records an event with the given fields.
pub open spec fn line_text(
    date: Seq<char>,
    source: Seq<char>,
    action: Action,
    package: Seq<char>,
    from: Seq<char>,
    to: Option<Seq<char>>,
) -> Seq<char> {
    seq!['['] + date + seq![']', ' ', '['] + source + seq![']', ' '] + action_word(action) + seq![' ']
        + package + seq![' ', '('] + from + version_tail(to)
}

/// The end of a version clause: ` -> <to>)` or `)`.
pub open spec fn version_tail(to: Option<Seq<char>>) -> Seq<char> {
    match to {
        Some(t) => seq![' ', '-', '>', ' '] + t + seq![')'],
        None => seq![')'],
    }
}

/// A field that no stop character of the given kind ends early.
pub open spec fn clear_of(s: Seq<char>, stop: Stop) -> bool {
    s.len() > 0 && forall|i: int| 0 <= i < s.len() ==> !is_stop(stop, #[trigger] s[i])
}

proof fn lemma_scan_stops(s: Seq<char>, p: int, q: int, stop: Stop)
    requires
        0 <= p <= q < s.len(),
        forall|k: int| p <= k < q ==> !is_stop(stop, #[trigger] s[k]),
        is_stop(stop, s[q]),
    ensures
        scan(s, p, stop) == q,
    decreases q - p,
{
    if p < q {
        lemma_scan_stops(s, p + 1, q, stop);
    }
}

proof fn lemma_word_has_no_space(a: Action)
    ensures
        clear_of(action_word(a), Stop::Space),
        action_of_word(action_word(a)) == Some(a),
{
    let w = action_word(a);
    assert forall|i: int| 0 <= i < w.len() implies !is_stop(Stop::Space, #[trigger] w[i]) by {
        match a {
            Action::Installed => assert(w[i] != ' '),
            Action::Reinstalled => assert(w[i] != ' '),
            Action::Upgraded => assert(w[i] != ' '),
            Action::Downgraded => assert(w[i] != ' '),
            Action::Removed => assert(w[i] != ' '),
        }
    }
}

/// Reading the line written for an event's fields gives those fields back.
pub proof fn law_line_round_trip(
    date: Seq<char>,
    source: Seq<char>,
    action: Action,
    package: Seq<char>,
    from: Seq<char>,
    to: Option<Seq<char>>,
)
    requires
        minute_shape(date) || zoned_shape(date),
        clear_of(source, Stop::Bracket),
        clear_of(package, Stop::Space),
        clear_of(from, Stop::SpaceOrParen),
        to is Some ==> clear_of(to->Some_0, Stop::SpaceOrParen),
    ensures
        line_fields_of(line_text(date, source, action, package, from, to)) == Some(
            LineFields { date, action, package, from, to },
        ),
{
    let word = action_word(action);
    lemma_word_has_no_space(action);
    let line = line_text(date, source, action, package, from, to);
    let de: int = date.len() as int + 1;
    let s0: int = de + 3;
    let s1: int = s0 + source.len() as int;
    let a0: int = s1 + 2;
    let a1: int = a0 + word.len() as int;
    let k0: int = a1 + 1;
    let k1: int = k0 + package.len() as int;
    let f0: int = k1 + 2;
    let f1: int = f0 + from.len() as int;
    let tail = version_tail(to);
    assert(line =~= seq!['['] + date + seq![']', ' ', '['] + source + seq![']', ' '] + word + seq![' ']
        + package + seq![' ', '('] + from + tail);
    assert(line.len() == f1 + tail.len());
    assert(line[0] == '[');
    assert(line.subrange(1, de) =~= date);
    assert(line[de] == ']' && line[de + 1] == ' ' && line[de + 2] == '[');
    if zoned_shape(date) {
        assert(date[16] == ':');
        assert(line[17] == date[16]);
    }
    assert(date_end(line) == de);
    assert forall|k: int| s0 <= k < s1 implies !is_stop(Stop::Bracket, #[trigger] line[k]) by {
        assert(line[k] == source[k - s0]);
    }
    assert(line[s1] == ']' && line[s1 + 1] == ' ');
    lemma_scan_stops(line, s0, s1, Stop::Bracket);
    assert forall|k: int| a0 <= k < a1 implies !is_stop(Stop::Space, #[trigger] line[k]) by {
        assert(line[k] == word[k - a0]);
    }
    assert(line[a1] == ' ');
    lemma_scan_stops(line, a0, a1, Stop::Space);
    assert(line.subrange(a0, a1) =~= word);
    assert forall|k: int| k0 <= k < k1 implies !is_stop(Stop::Space, #[trigger] line[k]) by {
        assert(line[k] == package[k - k0]);
    }
    assert(line[k1] == ' ' && line[k1 + 1] == '(');
    lemma_scan_stops(line, k0, k1, Stop::Space);
    assert(line.subrange(k0, k1) =~= package);
    assert forall|k: int| f0 <= k < f1 implies !is_stop(Stop::SpaceOrParen, #[trigger] line[k]) by {
        assert(line[k] == from[k - f0]);
    }
    assert(line[f1] == tail[0]);
    lemma_scan_stops(line, f0, f1, Stop::SpaceOrParen);
    assert(line.subrange(f0, f1) =~= from);
    match to {
        None => {},
        Some(t) => {
            let t0: int = f1 + 4;
            let t1: int = t0 + t.len() as int;
            assert(line[f1 + 1] == '-' && line[f1 + 2] == '>' && line[f1 + 3] == ' ');
            assert forall|k: int| t0 <= k < t1 implies !is_stop(Stop::SpaceOrParen, #[trigger] line[k]) by {
                assert(line[k] == t[k - t0]);
            }
            assert(line[t1] == ')');
            lemma_scan_stops(line, t0, t1, Stop::SpaceOrParen);
            assert(line.subrange(t0, t1) =~= t);
        },
    }
}

} // verus!
