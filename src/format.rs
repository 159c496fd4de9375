//! The text forms of package histories: plain and compact, with or without
//! terminal colors.
use vstd::prelude::*;

use termion::color;
use vstd::utf8::encode_utf8;

use crate::action::{action_from_name, action_name, action_of_name, Action};
use crate::error::Error;
use crate::pkghist::{entry_views, history_views, EntryView, HistoryView, PackageHistory};
use crate::text::chars_of;

verus! {

/// The terminal colors the output uses.
#[derive(Clone, Copy, PartialEq, Eq, Structural)]
pub enum Tint {
    Red,
    Green,
    Yellow,
    Reset,
}

/// The escape sequence that sets the foreground color.
pub open spec fn fg_code(t: Tint) -> Seq<char> {
    match t {
        Tint::Red => seq!['\x1b', '[', '3', '8', ';', '5', ';', '1', 'm'],
        Tint::Green => seq!['\x1b', '[', '3', '8', ';', '5', ';', '2', 'm'],
        Tint::Yellow => seq!['\x1b', '[', '3', '8', ';', '5', ';', '3', 'm'],
        Tint::Reset => seq!['\x1b', '[', '3', '9', 'm'],
    }
}

/// Relies on termion's `fg_str` of `color::Red`, `color::Green`,
/// `color::Yellow` and `color::Reset`: the escape sequence itself,
/// `ESC [ 38;5;<n> m` for the palette colors red (1), green (2) and yellow
/// (3), `ESC [ 39 m` to reset. Unlike the `Display` of `color::Fg`, these do
/// not consult the `NO_COLOR` environment variable.
#[verifier::external_body]
fn fg_text(t: Tint) -> (r: String)
    ensures
        r@ == fg_code(t),
{
    match t {
        Tint::Red => color::Red.fg_str().to_owned(),
        Tint::Green => color::Green.fg_str().to_owned(),
        Tint::Yellow => color::Yellow.fg_str().to_owned(),
        Tint::Reset => color::Reset.fg_str().to_owned(),
    }
}

fn put_str(out: &mut Vec<char>, s: &str)
    ensures
        final(out)@ == old(out)@ + s@,
{
    let mut c = chars_of(s);
    out.append(&mut c);
}

fn add_chars(out: &mut Vec<char>, s: Vec<char>)
    ensures
        final(out)@ == old(out)@ + s@,
{
    let mut c = s;
    out.append(&mut c);
}

/// The color of a package's name: red where its last event is a removal.
pub open spec fn header_tint(h: HistoryView) -> Tint {
    if h.e.len() > 0 && h.e.last().a == action_name(Action::Removed) {
        Tint::Red
    } else {
        Tint::Green
    }
}

/// The color that starts an event line of the plain form, if any.
pub open spec fn plain_event_start(a: Seq<char>) -> Seq<char> {
    if a == action_name(Action::Removed) {
        fg_code(Tint::Red)
    } else if a == action_name(Action::Downgraded) {
        fg_code(Tint::Yellow)
    } else {
        Seq::empty()
    }
}

pub open spec fn plain_header(h: HistoryView, with_colors: bool) -> Seq<char> {
    if with_colors {
        fg_code(header_tint(h)) + h.p + fg_code(Tint::Reset) + seq!['\n']
    } else {
        h.p + seq!['\n']
    }
}

/// An event of the plain form: `  [date] action`, then `    version`.
pub open spec fn plain_event(e: EntryView, with_colors: bool) -> Seq<char> {
    if with_colors {
        plain_event_start(e.a) + seq![' ', ' ', '['] + e.d + seq![']', ' '] + e.a + seq!['\n']
            + seq![' ', ' ', ' ', ' '] + e.v + fg_code(Tint::Reset) + seq!['\n']
    } else {
        seq![' ', ' ', '['] + e.d + seq![']', ' '] + e.a + seq!['\n'] + seq![' ', ' ', ' ', ' ']
            + e.v + seq!['\n']
    }
}

pub open spec fn plain_events(es: Seq<EntryView>, with_colors: bool) -> Seq<char>
    decreases es.len(),
{
    if es.len() == 0 {
        Seq::empty()
    } else {
        plain_events(es.drop_last(), with_colors) + plain_event(es.last(), with_colors)
    }
}

pub open spec fn plain_history(h: HistoryView, with_colors: bool, without_details: bool) -> Seq<
    char,
> {
    plain_header(h, with_colors) + if without_details {
        Seq::empty()
    } else {
        plain_events(h.e, with_colors)
    }
}

/// The plain form: each package's name, then its events unless details are
/// left out.
pub open spec fn plain_text(hs: Seq<HistoryView>, with_colors: bool, without_details: bool) -> Seq<
    char,
>
    decreases hs.len(),
{
    if hs.len() == 0 {
        Seq::empty()
    } else {
        plain_text(hs.drop_last(), with_colors, without_details) + plain_history(
            hs.last(),
            with_colors,
            without_details,
        )
    }
}

fn removed_name(a: &String) -> (r: bool)
    ensures
        r == (a@ == action_name(Action::Removed)),
{
    match action_from_name(&chars_of(a.as_str())) {
        Some(Action::Removed) => true,
        _ => false,
    }
}

fn downgraded_name(a: &String) -> (r: bool)
    ensures
        r == (a@ == action_name(Action::Downgraded)),
{
    match action_from_name(&chars_of(a.as_str())) {
        Some(Action::Downgraded) => true,
        _ => false,
    }
}

fn plain_event_chars(e: &crate::pkghist::Event, with_colors: bool) -> (r: Vec<char>)
    ensures
        r@ == plain_event(e@, with_colors),
{
    let mut out: Vec<char> = Vec::new();
    if with_colors {
        if removed_name(&e.a) {
            put_str(&mut out, fg_text(Tint::Red).as_str());
        } else if downgraded_name(&e.a) {
            put_str(&mut out, fg_text(Tint::Yellow).as_str());
        }
    }
    add_chars(&mut out, vec![' ', ' ', '[']);
    put_str(&mut out, e.d.as_str());
    add_chars(&mut out, vec![']', ' ']);
    put_str(&mut out, e.a.as_str());
    out.push('\n');
    add_chars(&mut out, vec![' ', ' ', ' ', ' ']);
    put_str(&mut out, e.v.as_str());
    if with_colors {
        put_str(&mut out, fg_text(Tint::Reset).as_str());
    }
    out.push('\n');
    proof {
        if with_colors {
            assert(out@ =~= plain_event(e@, with_colors));
        } else {
            assert(out@ =~= plain_event(e@, with_colors));
        }
    }
    out
}

fn plain_history_chars(h: &PackageHistory, with_colors: bool, without_details: bool) -> (r: Vec<char>)
    ensures
        r@ == plain_history(h@, with_colors, without_details),
{
    let mut out: Vec<char> = Vec::new();
    if with_colors {
        let n = h.e.len();
        if n > 0 && removed_name(&h.e[n - 1].a) {
            put_str(&mut out, fg_text(Tint::Red).as_str());
        } else {
            put_str(&mut out, fg_text(Tint::Green).as_str());
        }
        put_str(&mut out, h.p.as_str());
        put_str(&mut out, fg_text(Tint::Reset).as_str());
        out.push('\n');
    } else {
        put_str(&mut out, h.p.as_str());
        out.push('\n');
    }
    assert(out@ =~= plain_header(h@, with_colors));
    if !without_details {
        let ghost ev = entry_views(h.e@);
        let ghost head = out@;
        let mut i: usize = 0;
        while i < h.e.len()
            invariant
                i <= h.e@.len(),
                ev == entry_views(h.e@),
                out@ == head + plain_events(ev.subrange(0, i as int), with_colors),
            decreases h.e.len() - i,
        {
            assert(ev.subrange(0, i + 1).drop_last() =~= ev.subrange(0, i as int));
            add_chars(&mut out, plain_event_chars(&h.e[i], with_colors));
            assert(out@ =~= head + plain_events(ev.subrange(0, i + 1), with_colors));
            i = i + 1;
        }
        assert(ev.subrange(0, h.e@.len() as int) =~= ev);
    }
    assert(out@ =~= plain_history(h@, with_colors, without_details));
    out
}

fn push_bytes(stdout: &mut Vec<u8>, text: &Vec<char>)
    ensures
        final(stdout)@ == old(stdout)@ + encode_utf8(text@),
{
    let s = crate::text::string_of(text);
    let b = s.as_str().as_bytes();
    let ghost head = stdout@;
    let mut i: usize = 0;
    while i < b.len()
        invariant
            i <= b@.len(),
            b@ == encode_utf8(text@),
            stdout@ == head + b@.subrange(0, i as int),
        decreases b.len() - i,
    {
        stdout.push(b[i]);
        assert(b@.subrange(0, i + 1) =~= b@.subrange(0, i as int).push(b@[i as int]));
        i = i + 1;
    }
    assert(b@.subrange(0, b@.len() as int) =~= b@);
}

/// The plain form of the histories.
pub fn render_plain(package_histories: &[PackageHistory], with_colors: bool, without_details: bool) -> (r: Vec<char>)
    ensures
        r@ == plain_text(history_views(package_histories@), with_colors, without_details),
{
    let ghost hv = history_views(package_histories@);
    let mut out: Vec<char> = Vec::new();
    let mut i: usize = 0;
    while i < package_histories.len()
        invariant
            i <= package_histories@.len(),
            hv == history_views(package_histories@),
            out@ == plain_text(hv.subrange(0, i as int), with_colors, without_details),
        decreases package_histories.len() - i,
    {
        assert(hv.subrange(0, i + 1).drop_last() =~= hv.subrange(0, i as int));
        add_chars(&mut out, plain_history_chars(&package_histories[i], with_colors, without_details));
        i = i + 1;
    }
    assert(hv.subrange(0, package_histories@.len() as int) =~= hv);
    out
}

/// Writes the plain form of the histories, UTF-8 encoded.
pub fn format_plain(
    stdout: &mut Vec<u8>,
    package_histories: &[PackageHistory],
    with_colors: bool,
    without_details: bool,
) -> (r: Result<(), Error>)
    ensures
        r is Ok,
        final(stdout)@ == old(stdout)@ + encode_utf8(
            plain_text(history_views(package_histories@), with_colors, without_details),
        ),
{
    let text = render_plain(package_histories, with_colors, without_details);
    push_bytes(stdout, &text);
    Ok(())
}

/// The largest of the byte lengths of the package names, and of the dates,
/// actions and versions of all events; 0 where there is none.
pub open spec fn max_of(a: int, b: int) -> int {
    if a >= b {
        a
    } else {
        b
    }
}

pub open spec fn byte_len(s: Seq<char>) -> int {
    encode_utf8(s).len() as int
}

/// A column of the compact form, beside the package name.
#[derive(Clone, Copy, PartialEq, Eq, Structural)]
pub enum Column {
    Date,
    Action,
    Version,
}

pub open spec fn column_of(e: EntryView, c: Column) -> Seq<char> {
    match c {
        Column::Date => e.d,
        Column::Action => e.a,
        Column::Version => e.v,
    }
}

pub open spec fn entries_max(es: Seq<EntryView>, field: Column) -> int
    decreases es.len(),
{
    if es.len() == 0 {
        0
    } else {
        max_of(entries_max(es.drop_last(), field), byte_len(column_of(es.last(), field)))
    }
}

pub open spec fn lens_of(hs: Seq<HistoryView>) -> (int, int, int, int)
    decreases hs.len(),
{
    if hs.len() == 0 {
        (0, 0, 0, 0)
    } else {
        let p = lens_of(hs.drop_last());
        let h = hs.last();
        (
            max_of(p.0, byte_len(h.p)),
            max_of(p.1, entries_max(h.e, Column::Date)),
            max_of(p.2, entries_max(h.e, Column::Action)),
            max_of(p.3, entries_max(h.e, Column::Version)),
        )
    }
}

fn max_usize(a: usize, b: usize) -> (r: usize)
    ensures
        r as int == max_of(a as int, b as int),
{
    if a >= b {
        a
    } else {
        b
    }
}

/// The widths of the columns of the compact form.
pub fn max_lens(package_histories: &[PackageHistory]) -> (r: (usize, usize, usize, usize))
    ensures
        r.0 as int == lens_of(history_views(package_histories@)).0,
        r.1 as int == lens_of(history_views(package_histories@)).1,
        r.2 as int == lens_of(history_views(package_histories@)).2,
        r.3 as int == lens_of(history_views(package_histories@)).3,
{
    let ghost hv = history_views(package_histories@);
    let mut pm: usize = 0;
    let mut dm: usize = 0;
    let mut am: usize = 0;
    let mut vm: usize = 0;
    let mut i: usize = 0;
    while i < package_histories.len()
        invariant
            i <= package_histories@.len(),
            hv == history_views(package_histories@),
            (pm as int, dm as int, am as int, vm as int) == lens_of(hv.subrange(0, i as int)),
        decreases package_histories.len() - i,
    {
        assert(hv.subrange(0, i + 1).drop_last() =~= hv.subrange(0, i as int));
        let h = &package_histories[i];
        assert(hv.subrange(0, i + 1).last() == h@);
        let lp = h.p.as_str().as_bytes().len();
        assert(lp as int == byte_len(h@.p));
        pm = max_usize(pm, lp);
        let ghost ev = entry_views(h.e@);
        let mut dh: usize = 0;
        let mut ah: usize = 0;
        let mut vh: usize = 0;
        let mut j: usize = 0;
        while j < h.e.len()
            invariant
                j <= h.e@.len(),
                ev == entry_views(h.e@),
                dh as int == entries_max(ev.subrange(0, j as int), Column::Date),
                ah as int == entries_max(ev.subrange(0, j as int), Column::Action),
                vh as int == entries_max(ev.subrange(0, j as int), Column::Version),
            decreases h.e.len() - j,
        {
            assert(ev.subrange(0, j + 1).drop_last() =~= ev.subrange(0, j as int));
            assert(ev.subrange(0, j + 1).last() == h.e@[j as int]@);
            let e = &h.e[j];
            let ld = e.d.as_str().as_bytes().len();
            let la = e.a.as_str().as_bytes().len();
            let lv = e.v.as_str().as_bytes().len();
            assert(ld as int == byte_len(e@.d));
            assert(la as int == byte_len(e@.a));
            assert(lv as int == byte_len(e@.v));
            dh = max_usize(dh, ld);
            ah = max_usize(ah, la);
            vh = max_usize(vh, lv);
            j = j + 1;
        }
        assert(ev.subrange(0, h.e@.len() as int) =~= ev);
        dm = max_usize(dm, dh);
        am = max_usize(am, ah);
        vm = max_usize(vm, vh);
        i = i + 1;
    }
    assert(hv.subrange(0, package_histories@.len() as int) =~= hv);
    (pm, dm, am, vm)
}

/// The action of the last event of a history.
pub fn last_action(package_history: &PackageHistory) -> (r: Action)
    requires
        package_history.e@.len() > 0,
        action_of_name(package_history.e@.last().a@) is Some,
    ensures
        r == action_of_name(package_history.e@.last().a@)->Some_0,
{
    let n = package_history.e.len();
    match action_from_name(&chars_of(package_history.e[n - 1].a.as_str())) {
        Some(a) => a,
        None => Action::Installed,
    }
}

/// `n` spaces.
pub open spec fn spaces(n: int) -> Seq<char> {
    Seq::new(if n > 0 { n as nat } else { 0 }, |i: int| ' ')
}

/// The text left-aligned in a field of `w` characters.
pub open spec fn pad(s: Seq<char>, w: int) -> Seq<char> {
    if s.len() < w {
        s + spaces(w - s.len())
    } else {
        s
    }
}

/// The color of an event line of the compact form.
pub open spec fn compact_tint(a: Seq<char>) -> Tint {
    if a == action_name(Action::Removed) {
        Tint::Red
    } else if a == action_name(Action::Downgraded) {
        Tint::Yellow
    } else {
        Tint::Green
    }
}

/// One line of the compact form: `|package|date|action|version|`, each
/// field padded to its column's width; the package alone without details.
pub open spec fn compact_line(
    p: Seq<char>,
    e: EntryView,
    w: (int, int, int, int),
    with_colors: bool,
    without_details: bool,
) -> Seq<char> {
    (if with_colors {
        fg_code(compact_tint(e.a))
    } else {
        Seq::empty()
    }) + seq!['|'] + pad(p, w.0) + seq!['|'] + (if without_details {
        Seq::empty()
    } else {
        pad(e.d, w.1) + seq!['|'] + pad(e.a, w.2) + seq!['|'] + pad(e.v, w.3) + seq!['|']
    }) + (if with_colors {
        fg_code(Tint::Reset)
    } else {
        Seq::empty()
    }) + seq!['\n']
}

pub open spec fn compact_lines(
    p: Seq<char>,
    es: Seq<EntryView>,
    w: (int, int, int, int),
    with_colors: bool,
    without_details: bool,
) -> Seq<char>
    decreases es.len(),
{
    if es.len() == 0 {
        Seq::empty()
    } else {
        compact_lines(p, es.drop_last(), w, with_colors, without_details) + compact_line(
            p,
            es.last(),
            w,
            with_colors,
            without_details,
        )
    }
}

pub open spec fn compact_with(
    hs: Seq<HistoryView>,
    w: (int, int, int, int),
    with_colors: bool,
    without_details: bool,
) -> Seq<char>
    decreases hs.len(),
{
    if hs.len() == 0 {
        Seq::empty()
    } else {
        compact_with(hs.drop_last(), w, with_colors, without_details) + compact_lines(
            hs.last().p,
            hs.last().e,
            w,
            with_colors,
            without_details,
        )
    }
}

/// The compact form: one line per event, in columns as wide as their
/// longest entry.
pub open spec fn compact_text(hs: Seq<HistoryView>, with_colors: bool, without_details: bool) -> Seq<
    char,
> {
    compact_with(hs, lens_of(hs), with_colors, without_details)
}

fn put_padded(out: &mut Vec<char>, s: &str, w: usize)
    ensures
        final(out)@ == old(out)@ + pad(s@, w as int),
{
    let c = chars_of(s);
    let n = c.len();
    let ghost head = old(out)@;
    put_str(out, s);
    if n < w {
        let mut k: usize = n;
        while k < w
            invariant
                n <= k <= w,
                n == s@.len(),
                out@ == head + s@ + spaces(k - n),
            decreases w - k,
        {
            out.push(' ');
            assert(spaces(k + 1 - n) =~= spaces(k - n).push(' '));
            k = k + 1;
        }
    } else {
        assert(out@ =~= head + s@);
    }
    assert(out@ =~= head + pad(s@, w as int));
}

fn compact_line_chars(
    p: &String,
    e: &crate::pkghist::Event,
    w: (usize, usize, usize, usize),
    with_colors: bool,
    without_details: bool,
) -> (r: Vec<char>)
    ensures
        r@ == compact_line(p@, e@, (w.0 as int, w.1 as int, w.2 as int, w.3 as int), with_colors, without_details),
{
    let mut out: Vec<char> = Vec::new();
    if with_colors {
        if removed_name(&e.a) {
            put_str(&mut out, fg_text(Tint::Red).as_str());
        } else if downgraded_name(&e.a) {
            put_str(&mut out, fg_text(Tint::Yellow).as_str());
        } else {
            put_str(&mut out, fg_text(Tint::Green).as_str());
        }
    }
    let ghost start = out@;
    out.push('|');
    put_padded(&mut out, p.as_str(), w.0);
    out.push('|');
    let ghost mid = out@;
    if !without_details {
        put_padded(&mut out, e.d.as_str(), w.1);
        out.push('|');
        put_padded(&mut out, e.a.as_str(), w.2);
        out.push('|');
        put_padded(&mut out, e.v.as_str(), w.3);
        out.push('|');
    }
    let ghost body = out@;
    if with_colors {
        put_str(&mut out, fg_text(Tint::Reset).as_str());
    }
    out.push('\n');
    let ghost wi = (w.0 as int, w.1 as int, w.2 as int, w.3 as int);
    assert(mid =~= start + seq!['|'] + pad(p@, wi.0) + seq!['|']);
    if !without_details {
        assert(body =~= mid + (pad(e@.d, wi.1) + seq!['|'] + pad(e@.a, wi.2) + seq!['|'] + pad(e@.v, wi.3) + seq!['|']));
    } else {
        assert(body =~= mid + Seq::<char>::empty());
    }
    assert(out@ =~= compact_line(p@, e@, wi, with_colors, without_details));
    out
}

/// The compact form of the histories.
pub fn render_compact(package_histories: &[PackageHistory], with_colors: bool, without_details: bool) -> (r: Vec<char>)
    ensures
        r@ == compact_text(history_views(package_histories@), with_colors, without_details),
{
    let ghost hv = history_views(package_histories@);
    let w = max_lens(package_histories);
    let ghost wi = (w.0 as int, w.1 as int, w.2 as int, w.3 as int);
    assert(wi == lens_of(hv));
    let mut out: Vec<char> = Vec::new();
    let mut i: usize = 0;
    while i < package_histories.len()
        invariant
            i <= package_histories@.len(),
            hv == history_views(package_histories@),
            wi == (w.0 as int, w.1 as int, w.2 as int, w.3 as int),
            out@ == compact_with(hv.subrange(0, i as int), wi, with_colors, without_details),
        decreases package_histories.len() - i,
    {
        assert(hv.subrange(0, i + 1).drop_last() =~= hv.subrange(0, i as int));
        let h = &package_histories[i];
        let ghost ev = entry_views(h.e@);
        let ghost head = out@;
        let mut j: usize = 0;
        while j < h.e.len()
            invariant
                j <= h.e@.len(),
                ev == entry_views(h.e@),
                wi == (w.0 as int, w.1 as int, w.2 as int, w.3 as int),
                out@ == head + compact_lines(h.p@, ev.subrange(0, j as int), wi, with_colors, without_details),
            decreases h.e.len() - j,
        {
            assert(ev.subrange(0, j + 1).drop_last() =~= ev.subrange(0, j as int));
            add_chars(&mut out, compact_line_chars(&h.p, &h.e[j], w, with_colors, without_details));
            assert(out@ =~= head + compact_lines(h.p@, ev.subrange(0, j + 1), wi, with_colors, without_details));
            j = j + 1;
        }
        assert(ev.subrange(0, h.e@.len() as int) =~= ev);
        i = i + 1;
    }
    assert(hv.subrange(0, package_histories@.len() as int) =~= hv);
    out
}

/// Writes the compact form of the histories, UTF-8 encoded.
pub fn format_compact(
    stdout: &mut Vec<u8>,
    package_histories: &[PackageHistory],
    with_colors: bool,
    without_details: bool,
) -> (r: Result<(), Error>)
    ensures
        r is Ok,
        final(stdout)@ == old(stdout)@ + encode_utf8(
            compact_text(history_views(package_histories@), with_colors, without_details),
        ),
{
    let text = render_compact(package_histories, with_colors, without_details);
    push_bytes(stdout, &text);
    Ok(())
}

} // verus!
