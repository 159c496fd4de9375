//! Package histories: the result of a query over the events of a log.
use vstd::prelude::*;

use itertools::Itertools;
use vstd::multiset::Multiset;

use crate::action::action_name;
use crate::event::{printable_version_of, views, EventView, PacmanEvent};
use crate::filter::{
    all_non_empty, date_stage, filter_dates, filter_names, filter_state, limit_events, limit_tail,
    name_stage, pattern_views, state_filter,
};
use crate::group::{
    add_event, group, group_spec, group_views, lemma_find_group_range, GroupView, PackageGroup,
};
use crate::opt::{mode_of, Config};
use crate::range::{range, window};
use crate::text::{text_le, text_lt};
use crate::timestamp::stamp_text_of;

verus! {

/// One event of a history, as printed: version, date and action.
#[derive(Debug, Clone, PartialEq, Eq)]
pub struct Event {
    pub v: String,
    pub d: String,
    pub a: String,
}

pub struct EntryView {
    pub v: Seq<char>,
    pub d: Seq<char>,
    pub a: Seq<char>,
}

impl View for Event {
    type V = EntryView;

    open spec fn view(&self) -> EntryView {
        EntryView { v: self.v@, d: self.d@, a: self.a@ }
    }
}

/// The printed form of an event.
pub open spec fn entry_of(e: EventView) -> EntryView {
    EntryView { v: printable_version_of(e), d: stamp_text_of(e.date), a: action_name(e.action) }
}

pub open spec fn entry_views(s: Seq<Event>) -> Seq<EntryView> {
    s.map_values(|e: Event| e@)
}

impl Event {
    pub fn new(version: String, date: String, action: String) -> (r: Event)
        ensures
            r == (Event { v: version, d: date, a: action }),
    {
        Event { v: version, d: date, a: action }
    }

    pub fn from_pacman_event(pacman_event: &PacmanEvent) -> (r: Event)
        ensures
            r@ == entry_of(pacman_event@),
    {
        Event::new(pacman_event.printable_version(), pacman_event.date.text(), pacman_event.action.name())
    }

    pub fn copy(&self) -> (r: Event)
        ensures
            r@ == self@,
    {
        Event { v: self.v.clone(), d: self.d.clone(), a: self.a.clone() }
    }
}

/// The events of one package, oldest first.
#[derive(Debug, Clone)]
pub struct PackageHistory {
    pub p: String,
    pub e: Vec<Event>,
}

pub struct HistoryView {
    pub p: Seq<char>,
    pub e: Seq<EntryView>,
}

impl View for PackageHistory {
    type V = HistoryView;

    open spec fn view(&self) -> HistoryView {
        HistoryView { p: self.p@, e: entry_views(self.e@) }
    }
}

pub open spec fn history_views(s: Seq<PackageHistory>) -> Seq<HistoryView> {
    s.map_values(|h: PackageHistory| h@)
}

fn entries_of(events: &Vec<PacmanEvent>) -> (r: Vec<Event>)
    ensures
        entry_views(r@) == views(events@).map_values(|e: EventView| entry_of(e)),
{
    let ghost ev = views(events@).map_values(|e: EventView| entry_of(e));
    let mut r: Vec<Event> = Vec::new();
    let mut i: usize = 0;
    while i < events.len()
        invariant
            i <= events@.len(),
            ev == views(events@).map_values(|e: EventView| entry_of(e)),
            entry_views(r@) == ev.subrange(0, i as int),
        decreases events.len() - i,
    {
        let ghost prev = r@;
        r.push(Event::from_pacman_event(&events[i]));
        assert(entry_views(r@) =~= entry_views(prev).push(ev[i as int]));
        assert(ev.subrange(0, i + 1) =~= ev.subrange(0, i as int).push(ev[i as int]));
        i = i + 1;
    }
    assert(ev.subrange(0, events@.len() as int) =~= ev);
    r
}

impl PackageHistory {
    pub fn new(p: String, e: Vec<Event>) -> (r: PackageHistory)
        ensures
            r == (PackageHistory { p, e }),
    {
        PackageHistory { p, e }
    }

    /// The history of the given events, named after the package of the first.
    pub fn from_pacman_events(pacman_events: &Vec<PacmanEvent>) -> (r: PackageHistory)
        requires
            pacman_events@.len() > 0,
        ensures
            r@ == (HistoryView {
                p: pacman_events@[0].package@,
                e: views(pacman_events@).map_values(|e: EventView| entry_of(e)),
            }),
    {
        PackageHistory::new(pacman_events[0].package.clone(), entries_of(pacman_events))
    }

    pub fn copy(&self) -> (r: PackageHistory)
        ensures
            r@ == self@,
    {
        let mut e: Vec<Event> = Vec::new();
        let mut i: usize = 0;
        while i < self.e.len()
            invariant
                i <= self.e@.len(),
                entry_views(e@) == entry_views(self.e@).subrange(0, i as int),
            decreases self.e.len() - i,
        {
            let ghost prev = e@;
            e.push(self.e[i].copy());
            assert(entry_views(e@) =~= entry_views(prev).push(self.e@[i as int]@));
            assert(entry_views(self.e@).subrange(0, i + 1) =~= entry_views(self.e@).subrange(
                0,
                i as int,
            ).push(self.e@[i as int]@));
            i = i + 1;
        }
        assert(entry_views(self.e@).subrange(0, self.e@.len() as int) =~= entry_views(self.e@));
        PackageHistory { p: self.p.clone(), e }
    }
}

/// Where an event of date `d` goes into `s` to keep equal dates in their
/// order: after the last event not later than `d`.
pub open spec fn insert_pos(s: Seq<EventView>, d: i64) -> int
    decreases s.len(),
{
    if s.len() == 0 {
        0
    } else if s.last().date > d {
        insert_pos(s.drop_last(), d)
    } else {
        s.len() as int
    }
}

/// The events ordered by date, oldest first; events with equal dates keep
/// their order.
pub open spec fn sort_by_date(s: Seq<EventView>) -> Seq<EventView>
    decreases s.len(),
{
    if s.len() == 0 {
        Seq::empty()
    } else {
        let p = sort_by_date(s.drop_last());
        p.insert(insert_pos(p, s.last().date), s.last())
    }
}

pub proof fn lemma_insert_pos_range(s: Seq<EventView>, d: i64)
    ensures
        0 <= insert_pos(s, d) <= s.len(),
    decreases s.len(),
{
    if s.len() > 0 {
        lemma_insert_pos_range(s.drop_last(), d);
    }
}

pub proof fn lemma_sort_by_date_len(s: Seq<EventView>)
    ensures
        sort_by_date(s).len() == s.len(),
    decreases s.len(),
{
    if s.len() > 0 {
        lemma_sort_by_date_len(s.drop_last());
        lemma_insert_pos_range(sort_by_date(s.drop_last()), s.last().date);
    }
}

/// Orders events by date, oldest first; events with equal dates keep their
/// order.
pub fn sort_events(events: &Vec<PacmanEvent>) -> (r: Vec<PacmanEvent>)
    ensures
        views(r@) == sort_by_date(views(events@)),
{
    let ghost ev = views(events@);
    let mut r: Vec<PacmanEvent> = Vec::new();
    let mut i: usize = 0;
    while i < events.len()
        invariant
            i <= events@.len(),
            ev == views(events@),
            views(r@) == sort_by_date(ev.subrange(0, i as int)),
        decreases events.len() - i,
    {
        assert(ev.subrange(0, i + 1).drop_last() =~= ev.subrange(0, i as int));
        let d = events[i].date.seconds;
        let ghost rv = views(r@);
        let mut k = r.len();
        assert(rv.subrange(0, r@.len() as int) =~= rv);
        while k > 0 && r[k - 1].date.seconds > d
            invariant
                k <= r@.len(),
                rv == views(r@),
                insert_pos(rv, d) == insert_pos(rv.subrange(0, k as int), d),
            decreases k,
        {
            assert(rv.subrange(0, k - 1) =~= rv.subrange(0, k as int).drop_last());
            k = k - 1;
        }
        proof {
            lemma_insert_pos_range(rv, d);
        }
        r.insert(k, events[i].copy());
        assert(views(r@) =~= rv.insert(k as int, ev[i as int]));
        i = i + 1;
    }
    assert(ev.subrange(0, events@.len() as int) =~= ev);
    r
}

/// The history of a group: its events ordered by date, cut to the newest
/// `limit`.
pub open spec fn history_of(g: GroupView, limit: Option<u32>) -> HistoryView {
    HistoryView {
        p: g.package,
        e: limit_tail(sort_by_date(g.events), limit).map_values(|e: EventView| entry_of(e)),
    }
}

fn history_of_group(g: &PackageGroup, limit: Option<u32>) -> (r: PackageHistory)
    ensures
        r@ == history_of(g@, limit),
{
    let sorted = sort_events(&g.events);
    let kept = limit_events(&sorted, limit);
    PackageHistory::new(g.package.clone(), entries_of(&kept))
}

/// The groups that a query selects: by newest event, by date, by name, then
/// the window.
pub open spec fn selected_groups(log: Seq<EventView>, c: Config) -> Seq<GroupView> {
    window(
        name_stage(
            date_stage(state_filter(group_spec(log), mode_of(c.removed_only, c.with_removed)), c.after),
            pattern_views(c.filters@),
            c.exclude,
        ),
        c.direction,
    )
}

/// The histories a query gives, in the order of the selected groups.
pub open spec fn histories_spec(log: Seq<EventView>, c: Config) -> Seq<HistoryView> {
    selected_groups(log, c).map_values(|g: GroupView| history_of(g, c.limit))
}

/// The order of histories in a result: by package name.
pub open spec fn pair_le(a: (String, usize), b: (String, usize)) -> bool {
    text_lt(a.0@, b.0@) || (a.0@ == b.0@ && a.1 <= b.1)
}

/// Relies on `itertools::Itertools::sorted`: the same items in ascending
/// order, tuples ordered field by field and strings by their characters.
#[verifier::external_body]
fn sorted_pairs(v: Vec<(String, usize)>) -> (r: Vec<(String, usize)>)
    ensures
        r@.to_multiset() == v@.to_multiset(),
        forall|i: int, j: int| 0 <= i < j < r@.len() ==> pair_le(#[trigger] r@[i], #[trigger] r@[j]),
{
    v.into_iter().sorted().collect()
}

pub proof fn lemma_group_spec_non_empty(log: Seq<EventView>)
    ensures
        all_non_empty(group_spec(log)),
    decreases log.len(),
{
    if log.len() > 0 {
        let gs = group_spec(log.drop_last());
        lemma_group_spec_non_empty(log.drop_last());
        lemma_find_group_range(gs, log.last().package);
        let r = add_event(gs, log.last());
        assert forall|i: int| 0 <= i < r.len() implies (#[trigger] r[i]).events.len() > 0 by {
            if i < gs.len() {
                assert(gs[i].events.len() > 0);
            }
        }
    }
}

pub proof fn lemma_name_stage_non_empty(gs: Seq<GroupView>, ps: Seq<Seq<char>>, exclude: bool)
    requires
        all_non_empty(gs),
    ensures
        all_non_empty(name_stage(gs, ps, exclude)),
    decreases gs.len(),
{
    if gs.len() > 0 {
        assert(all_non_empty(gs.drop_last())) by {
            assert forall|i: int| 0 <= i < gs.len() - 1 implies (#[trigger] gs.drop_last()[i]).events.len() > 0 by {
                assert(gs[i].events.len() > 0);
            }
        }
        lemma_name_stage_non_empty(gs.drop_last(), ps, exclude);
        assert(gs[gs.len() - 1].events.len() > 0);
    }
}

/// `a` holds the items of `b`, each as many times.
pub open spec fn same_items(a: Seq<HistoryView>, b: Seq<HistoryView>) -> bool {
    a.to_multiset() == b.to_multiset()
}

/// Adds the history of a key to a multiset.
pub open spec fn insert_history(
    hs: Seq<HistoryView>,
) -> spec_fn((String, usize), Multiset<HistoryView>) -> Multiset<HistoryView> {
    |k: (String, usize), m: Multiset<HistoryView>| m.insert(hs[k.1 as int])
}

proof fn lemma_fold_is_multiset(s: Seq<(String, usize)>, hs: Seq<HistoryView>, m: Multiset<HistoryView>)
    ensures
        s.fold_right(insert_history(hs), m) == m.add(
            s.map_values(|k: (String, usize)| hs[k.1 as int]).to_multiset(),
        ),
    decreases s.len(),
{
    broadcast use vstd::seq_lib::group_to_multiset_ensures;

    let g = |k: (String, usize)| hs[k.1 as int];
    if s.len() == 0 {
        assert(s.map_values(g) =~= Seq::<HistoryView>::empty());
        assert(m.add(Seq::<HistoryView>::empty().to_multiset()) =~= m);
    } else {
        let x = s.last();
        lemma_fold_is_multiset(s.drop_last(), hs, m.insert(hs[x.1 as int]));
        assert(s.map_values(g) =~= s.drop_last().map_values(g).push(hs[x.1 as int]));
        assert(m.insert(hs[x.1 as int]).add(s.drop_last().map_values(g).to_multiset()) =~= m.add(
            s.drop_last().map_values(g).push(hs[x.1 as int]).to_multiset(),
        ));
    }
}

/// Keys that are a permutation of each other name the same histories, as
/// many times each.
proof fn lemma_permuted_histories(a: Seq<(String, usize)>, b: Seq<(String, usize)>, hs: Seq<HistoryView>)
    requires
        a.to_multiset() == b.to_multiset(),
    ensures
        a.map_values(|k: (String, usize)| hs[k.1 as int]).to_multiset() == b.map_values(
            |k: (String, usize)| hs[k.1 as int],
        ).to_multiset(),
{
    let f = insert_history(hs);
    assert forall|x: (String, usize), y: (String, usize), v: Multiset<HistoryView>|
        #[trigger] f(x, f(y, v)) == f(y, f(x, v)) by {
        assert(v.insert(hs[y.1 as int]).insert(hs[x.1 as int]) =~= v.insert(hs[x.1 as int]).insert(
            hs[y.1 as int],
        ));
    }
    vstd::seq_lib::lemma_fold_right_permutation(a, b, f, Multiset::empty());
    lemma_fold_is_multiset(a, hs, Multiset::empty());
    lemma_fold_is_multiset(b, hs, Multiset::empty());
    assert(Multiset::<HistoryView>::empty().add(a.map_values(|k: (String, usize)| hs[k.1 as int]).to_multiset())
        =~= a.map_values(|k: (String, usize)| hs[k.1 as int]).to_multiset());
    assert(Multiset::<HistoryView>::empty().add(b.map_values(|k: (String, usize)| hs[k.1 as int]).to_multiset())
        =~= b.map_values(|k: (String, usize)| hs[k.1 as int]).to_multiset());
}

/// The histories stand in the order of their package names.
pub open spec fn sorted_by_name(a: Seq<HistoryView>) -> bool {
    forall|i: int, j: int| 0 <= i < j < a.len() ==> text_le((#[trigger] a[i]).p, (#[trigger] a[j]).p)
}

proof fn lemma_sorted_selection(
    hs: Seq<HistoryView>,
    kv: Seq<(String, usize)>,
    sorted: Seq<(String, usize)>,
    rv: Seq<HistoryView>,
)
    requires
        kv.len() == hs.len(),
        forall|k: int| 0 <= k < kv.len() ==> (#[trigger] kv[k]).1 == k && kv[k].0@ == hs[k].p,
        sorted.to_multiset() == kv.to_multiset(),
        forall|i: int, j: int| 0 <= i < j < sorted.len() ==> pair_le(#[trigger] sorted[i], #[trigger] sorted[j]),
        rv.len() == sorted.len(),
        forall|k: int| 0 <= k < rv.len() ==> #[trigger] rv[k] == hs[sorted[k].1 as int],
    ensures
        same_items(rv, hs),
        sorted_by_name(rv),
{
    broadcast use vstd::seq_lib::group_to_multiset_ensures;

    let g = |k: (String, usize)| hs[k.1 as int];
    assert(rv =~= sorted.map_values(g));
    assert(hs =~= kv.map_values(g));
    lemma_permuted_histories(sorted, kv, hs);
    assert forall|k: int| 0 <= k < sorted.len() implies kv.contains(#[trigger] sorted[k]) by {
        assert(sorted.contains(sorted[k]));
        assert(sorted.to_multiset().count(sorted[k]) > 0);
        assert(kv.to_multiset().count(sorted[k]) > 0);
    }
    assert forall|a: int, b: int| 0 <= a < b < rv.len() implies text_le((#[trigger] rv[a]).p, (#[trigger] rv[b]).p) by {
        assert(pair_le(sorted[a], sorted[b]));
        assert(kv.contains(sorted[a]));
        assert(kv.contains(sorted[b]));
    }
}

/// Runs a query over the events of a log: the histories of the selected
/// packages, each ordered by date and cut to the limit, ordered by package
/// name.
pub fn package_histories(events: &Vec<PacmanEvent>, config: &Config) -> (r: Vec<PackageHistory>)
    ensures
        same_items(history_views(r@), histories_spec(views(events@), *config)),
        sorted_by_name(history_views(r@)),
{
    let ghost log = views(events@);
    let groups = group(events);
    proof {
        lemma_group_spec_non_empty(log);
    }
    let kept = filter_state(&groups, config.state_mode());
    let dated = filter_dates(&kept, &config.after);
    let named = filter_names(&dated, &config.filters, config.exclude);
    proof {
        lemma_name_stage_non_empty(group_views(dated@), pattern_views(config.filters@), config.exclude);
    }
    let windowed = range(&named, &config.direction);
    let ghost sel = group_views(windowed@);
    assert(sel == selected_groups(log, *config));
    let ghost expected = histories_spec(log, *config);
    let mut hs: Vec<PackageHistory> = Vec::new();
    let mut keys: Vec<(String, usize)> = Vec::new();
    let mut i: usize = 0;
    while i < windowed.len()
        invariant
            i <= windowed@.len(),
            sel == group_views(windowed@),
            expected == sel.map_values(|g: GroupView| history_of(g, config.limit)),
            hs@.len() == i,
            keys@.len() == i,
            forall|k: int| 0 <= k < i ==> (#[trigger] hs@[k])@ == expected[k],
            forall|k: int| 0 <= k < i ==> (#[trigger] keys@[k]).1 == k && keys@[k].0@ == hs@[k].p@,
        decreases windowed.len() - i,
    {
        let h = history_of_group(&windowed[i], config.limit);
        keys.push((h.p.clone(), i));
        hs.push(h);
        i = i + 1;
    }
    let ghost kv = keys@;
    let sorted = sorted_pairs(keys);
    proof {
        broadcast use vstd::seq_lib::group_to_multiset_ensures;

        assert(sorted@.to_multiset().len() == kv.to_multiset().len());
        assert forall|j: int| 0 <= j < sorted@.len() implies kv.contains(#[trigger] sorted@[j]) by {
            assert(sorted@.contains(sorted@[j]));
            assert(sorted@.to_multiset().count(sorted@[j]) > 0);
            assert(kv.to_multiset().count(sorted@[j]) > 0);
        }
    }
    let mut r: Vec<PackageHistory> = Vec::new();
    let mut j: usize = 0;
    while j < sorted.len()
        invariant
            j <= sorted@.len(),
            sorted@.len() == hs@.len(),
            hs@.len() == expected.len(),
            forall|k: int| 0 <= k < hs@.len() ==> (#[trigger] hs@[k])@ == expected[k],
            forall|k: int| 0 <= k < kv.len() ==> (#[trigger] kv[k]).1 == k && kv[k].0@ == hs@[k].p@,
            kv.len() == hs@.len(),
            forall|k: int| 0 <= k < sorted@.len() ==> kv.contains(#[trigger] sorted@[k]),
            r@.len() == j,
            forall|k: int| 0 <= k < j ==> (#[trigger] r@[k])@ == hs@[sorted@[k].1 as int]@,
        decreases sorted.len() - j,
    {
        assert(kv.contains(sorted@[j as int]));
        let idx = sorted[j].1;
        r.push(hs[idx].copy());
        j = j + 1;
    }
    proof {
        assert(history_views(hs@) =~= expected);
        assert forall|k: int| 0 <= k < r@.len() implies (#[trigger] history_views(r@)[k]) == history_views(hs@)[sorted@[k].1 as int] by {
            assert(kv.contains(sorted@[k]));
        }
        lemma_sorted_selection(history_views(hs@), kv, sorted@, history_views(r@));
    }
    r
}

} // verus!
