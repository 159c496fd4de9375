//! Properties that relate the stages of a query.
use vstd::prelude::*;

use crate::action::Action;
use crate::event::EventView;
use crate::filter::{limit_tail, state_filter, state_keeps};
use crate::group::{add_event, find_group, group_spec, lemma_find_group_range, newest_of, GroupView};
use crate::opt::{Direction, StateMode};
use crate::range::{rank_in, window_before, window_keeps};
use crate::text::text_lt;
use crate::pkghist::{history_of, insert_pos, lemma_insert_pos_range, lemma_sort_by_date_len, sort_by_date};

verus! {

/// Filtering by the newest event twice gives what filtering once gives, under
/// every mode.
pub proof fn law_state_filter_idempotent(gs: Seq<GroupView>, mode: StateMode)
    ensures
        state_filter(state_filter(gs, mode), mode) == state_filter(gs, mode),
    decreases gs.len(),
{
    if gs.len() > 0 {
        law_state_filter_idempotent(gs.drop_last(), mode);
        let p = state_filter(gs.drop_last(), mode);
        if state_keeps(mode, gs.last().events) {
            assert(p.push(gs.last()).drop_last() =~= p);
        }
    }
}

/// Every group that a state filter keeps is one that its mode accepts.
pub proof fn lemma_state_filter_keeps(gs: Seq<GroupView>, mode: StateMode)
    ensures
        forall|i: int|
            0 <= i < state_filter(gs, mode).len() ==> state_keeps(
                mode,
                (#[trigger] state_filter(gs, mode)[i]).events,
            ),
    decreases gs.len(),
{
    if gs.len() > 0 {
        lemma_state_filter_keeps(gs.drop_last(), mode);
        let p = state_filter(gs.drop_last(), mode);
        let r = state_filter(gs, mode);
        assert forall|i: int| 0 <= i < r.len() implies state_keeps(mode, (#[trigger] r[i]).events) by {
            if i < p.len() {
                assert(r[i] == p[i]);
            }
        }
    }
}

/// Without removed packages, no package left has a removal as its newest
/// event; with removed ones only, every package left has.
pub proof fn law_state_views(gs: Seq<GroupView>)
    ensures
        forall|i: int|
            0 <= i < state_filter(gs, StateMode::WithoutRemoved).len() ==> newest_of(
                (#[trigger] state_filter(gs, StateMode::WithoutRemoved)[i]).events,
            ).action != Action::Removed,
        forall|i: int|
            0 <= i < state_filter(gs, StateMode::WithoutInstalled).len() ==> newest_of(
                (#[trigger] state_filter(gs, StateMode::WithoutInstalled)[i]).events,
            ).action == Action::Removed,
{
    lemma_state_filter_keeps(gs, StateMode::WithoutRemoved);
    lemma_state_filter_keeps(gs, StateMode::WithoutInstalled);
}

/// Events ordered from oldest to newest.
pub open spec fn date_ordered(s: Seq<EventView>) -> bool {
    forall|i: int, j: int| 0 <= i < j < s.len() ==> (#[trigger] s[i]).date <= (#[trigger] s[j]).date
}

proof fn lemma_insert_pos_splits(s: Seq<EventView>, d: i64)
    ensures
        forall|k: int| insert_pos(s, d) <= k < s.len() ==> (#[trigger] s[k]).date > d,
        insert_pos(s, d) > 0 ==> s[insert_pos(s, d) - 1].date <= d,
    decreases s.len(),
{
    lemma_insert_pos_range(s, d);
    if s.len() > 0 && s.last().date > d {
        lemma_insert_pos_splits(s.drop_last(), d);
        lemma_insert_pos_range(s.drop_last(), d);
        let pos = insert_pos(s, d);
        if pos > 0 {
            assert(s.drop_last()[pos - 1] == s[pos - 1]);
        }
        assert forall|k: int| insert_pos(s, d) <= k < s.len() implies (#[trigger] s[k]).date > d by {
            if k < s.len() - 1 {
                assert(s.drop_last()[k] == s[k]);
            }
        }
    }
}

pub proof fn lemma_sort_by_date_ordered(s: Seq<EventView>)
    ensures
        date_ordered(sort_by_date(s)),
    decreases s.len(),
{
    if s.len() > 0 {
        let p = sort_by_date(s.drop_last());
        let e = s.last();
        lemma_sort_by_date_ordered(s.drop_last());
        lemma_insert_pos_range(p, e.date);
        lemma_insert_pos_splits(p, e.date);
        let pos = insert_pos(p, e.date);
        let r = p.insert(pos, e);
        assert forall|i: int, j: int| 0 <= i < j < r.len() implies (#[trigger] r[i]).date <= (#[trigger] r[j]).date by {
            if j < pos {
            } else if j == pos {
                assert(p[pos - 1].date <= e.date);
                if i < pos - 1 {
                    assert(p[i].date <= p[pos - 1].date);
                }
            } else if i < pos {
                assert(r[j] == p[j - 1]);
                if i < pos - 1 {
                    assert(p[i].date <= p[pos - 1].date);
                }
                assert(p[pos - 1].date <= e.date);
            } else if i == pos {
                assert(r[j] == p[j - 1]);
            } else {
                assert(r[i] == p[i - 1]);
                assert(r[j] == p[j - 1]);
            }
        }
    }
}

proof fn lemma_tail_ordered(s: Seq<EventView>, k: int)
    requires
        date_ordered(s),
        0 <= k <= s.len(),
    ensures
        date_ordered(s.subrange(k, s.len() as int)),
{
    let t = s.subrange(k, s.len() as int);
    assert forall|i: int, j: int| 0 <= i < j < t.len() implies (#[trigger] t[i]).date <= (#[trigger] t[j]).date by {
        assert(t[i] == s[k + i]);
        assert(t[j] == s[k + j]);
    }
}

/// Limiting a package's history to `l` events keeps `min(l, count)` of them,
/// the latest: they are the tail of the events ordered by date, they stand
/// from oldest to newest, and every event left out is no later than every
/// event kept.
pub proof fn law_limit_keeps_latest(evs: Seq<EventView>, l: u32)
    ensures
        ({
            let s = sort_by_date(evs);
            let t = limit_tail(s, Some(l));
            let k = s.len() - t.len();
            &&& t.len() == if (l as int) < evs.len() {
                l as int
            } else {
                evs.len() as int
            }
            &&& t == s.subrange(k, s.len() as int)
            &&& date_ordered(t)
            &&& forall|i: int, j: int| 0 <= i < k <= j < s.len() ==> (#[trigger] s[i]).date <= (#[trigger] s[j]).date
        }),
{
    let s = sort_by_date(evs);
    lemma_sort_by_date_len(evs);
    lemma_sort_by_date_ordered(evs);
    if (l as int) >= s.len() {
        assert(s.subrange(0, s.len() as int) =~= s);
    }
    let t = limit_tail(s, Some(l));
    lemma_tail_ordered(s, s.len() - t.len());
}

/// A package's history under a limit `l` holds `min(l, count)` events, where
/// `count` is the number of its events.
pub proof fn law_history_limit_count(g: GroupView, l: u32)
    ensures
        history_of(g, Some(l)).e.len() == if (l as int) < g.events.len() {
            l as int
        } else {
            g.events.len() as int
        },
{
    law_limit_keeps_latest(g.events, l);
}

/// The events of a log that belong to the named package, in log order.
pub open spec fn events_of(log: Seq<EventView>, name: Seq<char>) -> Seq<EventView>
    decreases log.len(),
{
    if log.len() == 0 {
        Seq::empty()
    } else {
        let p = events_of(log.drop_last(), name);
        if log.last().package == name {
            p.push(log.last())
        } else {
            p
        }
    }
}

proof fn lemma_events_of_absent(log: Seq<EventView>, name: Seq<char>)
    requires
        forall|k: int| 0 <= k < log.len() ==> (#[trigger] log[k]).package != name,
    ensures
        events_of(log, name).len() == 0,
    decreases log.len(),
{
    if log.len() > 0 {
        assert(log.last().package != name);
        lemma_events_of_absent(log.drop_last(), name);
    }
}

/// Grouping gives one group per package name, names told apart exactly, and
/// each group holds exactly its package's events in log order.
pub proof fn law_group_contents(log: Seq<EventView>)
    ensures
        forall|i: int, j: int|
            0 <= i < j < group_spec(log).len() ==> (#[trigger] group_spec(log)[i]).package
                != (#[trigger] group_spec(log)[j]).package,
        forall|i: int|
            0 <= i < group_spec(log).len() ==> (#[trigger] group_spec(log)[i]).events == events_of(
                log,
                group_spec(log)[i].package,
            ),
        forall|k: int|
            0 <= k < log.len() ==> exists|i: int|
                0 <= i < group_spec(log).len() && (#[trigger] group_spec(log)[i]).package
                    == (#[trigger] log[k]).package,
    decreases log.len(),
{
    if log.len() > 0 {
        let pre = log.drop_last();
        let e = log.last();
        let gs = group_spec(pre);
        let r = group_spec(log);
        law_group_contents(pre);
        lemma_find_group_range(gs, e.package);
        let f = find_group(gs, e.package);
        assert(r == add_event(gs, e));
        if f < 0 {
            assert forall|k: int| 0 <= k < pre.len() implies (#[trigger] pre[k]).package != e.package by {
                let i = choose|i: int| 0 <= i < gs.len() && (#[trigger] gs[i]).package == pre[k].package;
            }
            lemma_events_of_absent(pre, e.package);
            assert(events_of(pre, e.package) =~= Seq::<EventView>::empty());
            assert(events_of(log, e.package) =~= seq![e]);
            assert forall|i: int| 0 <= i < r.len() implies (#[trigger] r[i]).events == events_of(log, r[i].package) by {
                if i < gs.len() {
                    assert(r[i] == gs[i]);
                }
            }
            assert forall|k: int| 0 <= k < log.len() implies exists|i: int|
                0 <= i < r.len() && (#[trigger] r[i]).package == (#[trigger] log[k]).package by {
                if k < pre.len() {
                    assert(log[k] == pre[k]);
                    let i = choose|i: int| 0 <= i < gs.len() && (#[trigger] gs[i]).package == pre[k].package;
                    assert(r[i] == gs[i]);
                } else {
                    assert(r[gs.len() as int].package == e.package);
                }
            }
        } else {
            assert forall|i: int| 0 <= i < r.len() implies (#[trigger] r[i]).events == events_of(log, r[i].package) by {
                if i != f {
                    assert(r[i] == gs[i]);
                    assert(gs[i].package != gs[f].package);
                }
            }
            assert forall|i: int, j: int| 0 <= i < j < r.len() implies (#[trigger] r[i]).package != (#[trigger] r[j]).package by {
                assert(r[i].package == gs[i].package);
                assert(r[j].package == gs[j].package);
            }
            assert forall|k: int| 0 <= k < log.len() implies exists|i: int|
                0 <= i < r.len() && (#[trigger] r[i]).package == (#[trigger] log[k]).package by {
                if k < pre.len() {
                    assert(log[k] == pre[k]);
                    let i = choose|i: int| 0 <= i < gs.len() && (#[trigger] gs[i]).package == pre[k].package;
                    assert(r[i].package == gs[i].package);
                } else {
                    assert(r[f].package == e.package);
                }
            }
        }
    }
}

proof fn lemma_text_lt_transitive(a: Seq<char>, b: Seq<char>, c: Seq<char>)
    requires
        text_lt(a, b),
        text_lt(b, c),
    ensures
        text_lt(a, c),
    decreases a.len(),
{
    if a.len() > 0 && b.len() > 0 && c.len() > 0 && a[0] == b[0] && b[0] == c[0] {
        lemma_text_lt_transitive(a.drop_first(), b.drop_first(), c.drop_first());
    }
}

proof fn lemma_text_lt_total(a: Seq<char>, b: Seq<char>)
    requires
        a != b,
    ensures
        text_lt(a, b) || text_lt(b, a),
    decreases a.len(),
{
    if a.len() > 0 && b.len() > 0 && a[0] == b[0] {
        if a.drop_first() == b.drop_first() {
            assert(a =~= seq![a[0]] + a.drop_first());
            assert(b =~= seq![b[0]] + b.drop_first());
        }
        lemma_text_lt_total(a.drop_first(), b.drop_first());
    } else if a.len() > 0 && b.len() > 0 {
        assert(a[0] != b[0]);
    } else if a.len() == 0 && b.len() == 0 {
        assert(a =~= b);
    }
}

proof fn lemma_text_lt_irreflexive(a: Seq<char>)
    ensures
        !text_lt(a, a),
    decreases a.len(),
{
    if a.len() > 0 {
        lemma_text_lt_irreflexive(a.drop_first());
    }
}

proof fn lemma_before_transitive(a: GroupView, b: GroupView, c: GroupView)
    requires
        window_before(a, b),
        window_before(b, c),
    ensures
        window_before(a, c),
{
    if a.events.last().date == b.events.last().date && b.events.last().date == c.events.last().date {
        lemma_text_lt_transitive(a.package, b.package, c.package);
    }
}

/// Counting in `gs`, `g` has more groups before it than `h` has, by one for
/// each time `h` itself stands in `gs`.
proof fn lemma_rank_grows(gs: Seq<GroupView>, h: GroupView, g: GroupView)
    requires
        window_before(h, g),
    ensures
        rank_in(gs, g) >= rank_in(gs, h) + (if gs.contains(h) { 1int } else { 0int }),
    decreases gs.len(),
{
    lemma_text_lt_irreflexive(h.package);
    if gs.len() > 0 {
        let x = gs.last();
        lemma_rank_grows(gs.drop_last(), h, g);
        if window_before(x, h) {
            lemma_before_transitive(x, h, g);
        }
        if gs.contains(h) && !gs.drop_last().contains(h) {
            let k = choose|k: int| 0 <= k < gs.len() && gs[k] == h;
            if k < gs.len() - 1 {
                assert(gs.drop_last()[k] == h);
            }
            assert(x == h);
        }
        if gs.drop_last().contains(h) {
            let k = choose|k: int| 0 <= k < gs.len() - 1 && gs.drop_last()[k] == h;
            assert(gs[k] == h);
        }
    }
}

/// Of two packages of different names, one comes before the other in the
/// window order.
proof fn lemma_before_total(g: GroupView, h: GroupView)
    requires
        g.package != h.package,
    ensures
        window_before(g, h) || window_before(h, g),
{
    lemma_text_lt_total(g.package, h.package);
}

/// A window keeps packages from one end of the order by last event date, then
/// name: every package it keeps comes before (with `Forwards`) or after (with
/// `Backwards`) every package of other name that it leaves out.
pub proof fn law_window_keeps_an_end(gs: Seq<GroupView>, dir: Direction, g: GroupView, h: GroupView)
    requires
        gs.contains(g),
        gs.contains(h),
        g.package != h.package,
        window_keeps(gs, g, Some(dir)),
        !window_keeps(gs, h, Some(dir)),
    ensures
        match dir {
            Direction::Forwards { .. } => window_before(g, h),
            Direction::Backwards { .. } => window_before(h, g),
        },
{
    lemma_before_total(g, h);
    match dir {
        Direction::Forwards { .. } => {
            if !window_before(g, h) {
                lemma_rank_grows(gs, h, g);
            }
        },
        Direction::Backwards { .. } => {
            if !window_before(h, g) {
                lemma_rank_grows(gs, g, h);
            }
        },
    }
}

} // verus!
