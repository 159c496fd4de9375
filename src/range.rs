//! The first or last packages, ordered by the date of their last event.
use vstd::prelude::*;

use crate::filter::all_non_empty;
use crate::group::{group_views, GroupView, PackageGroup};
use crate::opt::Direction;
use crate::text::{chars_lt, chars_of, text_lt};

verus! {

/// The date of the last event of a group.
pub open spec fn last_date(g: GroupView) -> i64 {
    g.events.last().date
}

/// The order of packages for windows: by the date of the last event, then
/// by name.
pub open spec fn window_before(a: GroupView, b: GroupView) -> bool {
    last_date(a) < last_date(b) || (last_date(a) == last_date(b) && text_lt(a.package, b.package))
}

/// How many groups of `gs` come before `g`.
pub open spec fn rank_in(gs: Seq<GroupView>, g: GroupView) -> nat
    decreases gs.len(),
{
    if gs.len() == 0 {
        0
    } else {
        rank_in(gs.drop_last(), g) + if window_before(gs.last(), g) {
            1nat
        } else {
            0nat
        }
    }
}

/// Whether `g` is among the first `n` (or last `n`) groups of `all`.
pub open spec fn window_keeps(all: Seq<GroupView>, g: GroupView, dir: Option<Direction>) -> bool {
    match dir {
        None => true,
        Some(Direction::Forwards { n }) => rank_in(all, g) < n,
        Some(Direction::Backwards { n }) => rank_in(all, g) + n >= all.len(),
    }
}

pub open spec fn window_from(all: Seq<GroupView>, part: Seq<GroupView>, dir: Option<Direction>) -> Seq<
    GroupView,
>
    decreases part.len(),
{
    if part.len() == 0 {
        Seq::empty()
    } else {
        let p = window_from(all, part.drop_last(), dir);
        if window_keeps(all, part.last(), dir) {
            p.push(part.last())
        } else {
            p
        }
    }
}

/// The groups in the window, in their order.
pub open spec fn window(gs: Seq<GroupView>, dir: Option<Direction>) -> Seq<GroupView> {
    window_from(gs, gs, dir)
}

fn names_of(groups: &Vec<PackageGroup>) -> (r: Vec<Vec<char>>)
    ensures
        r@.len() == groups@.len(),
        forall|i: int| 0 <= i < r@.len() ==> (#[trigger] r@[i])@ == groups@[i].package@,
{
    let mut r: Vec<Vec<char>> = Vec::new();
    let mut i: usize = 0;
    while i < groups.len()
        invariant
            i <= groups@.len(),
            r@.len() == i,
            forall|j: int| 0 <= j < i ==> (#[trigger] r@[j])@ == groups@[j].package@,
        decreases groups.len() - i,
    {
        r.push(chars_of(groups[i].package.as_str()));
        i = i + 1;
    }
    r
}

/// Keeps the first or last `n` packages in the order of their last event's
/// date, then their name; all of them where no direction is given.
pub fn range(groups: &Vec<PackageGroup>, direction: &Option<Direction>) -> (r: Vec<PackageGroup>)
    requires
        all_non_empty(group_views(groups@)),
    ensures
        group_views(r@) == window(group_views(groups@), *direction),
{
    let ghost gv = group_views(groups@);
    let names = names_of(groups);
    let n = groups.len();
    let mut r: Vec<PackageGroup> = Vec::new();
    let mut i: usize = 0;
    while i < n
        invariant
            i <= n,
            n == groups@.len(),
            gv == group_views(groups@),
            all_non_empty(gv),
            names@.len() == n,
            forall|j: int| 0 <= j < n ==> (#[trigger] names@[j])@ == groups@[j].package@,
            group_views(r@) == window_from(gv, gv.subrange(0, i as int), *direction),
        decreases n - i,
    {
        assert(gv.subrange(0, i + 1).drop_last() =~= gv.subrange(0, i as int));
        assert(gv[i as int].events.len() > 0);
        let gi = &groups[i];
        let di = gi.events[gi.events.len() - 1].date.seconds;
        let mut count: usize = 0;
        let mut j: usize = 0;
        while j < n
            invariant
                j <= n,
                i < n,
                n == groups@.len(),
                gv == group_views(groups@),
                all_non_empty(gv),
                names@.len() == n,
                forall|k: int| 0 <= k < n ==> (#[trigger] names@[k])@ == groups@[k].package@,
                di == last_date(gv[i as int]),
                count == rank_in(gv.subrange(0, j as int), gv[i as int]),
                count <= j,
            decreases n - j,
        {
            assert(gv.subrange(0, j + 1).drop_last() =~= gv.subrange(0, j as int));
            assert(gv[j as int].events.len() > 0);
            let gj = &groups[j];
            let dj = gj.events[gj.events.len() - 1].date.seconds;
            if dj < di || (dj == di && chars_lt(&names[j], &names[i])) {
                count = count + 1;
            }
            j = j + 1;
        }
        assert(gv.subrange(0, n as int) =~= gv);
        let keep = match direction {
            None => true,
            Some(Direction::Forwards { n: m }) => count < *m,
            Some(Direction::Backwards { n: m }) => count as u128 + *m as u128 >= n as u128,
        };
        if keep {
            let ghost prev = r@;
            r.push(groups[i].copy());
            assert(group_views(r@) =~= group_views(prev).push(gv[i as int]));
        }
        i = i + 1;
    }
    assert(gv.subrange(0, n as int) =~= gv);
    r
}

} // verus!
