//! The filters of a query: by the newest event of a package, by date, by
//! package name, and the per-package limit.
use vstd::prelude::*;

use regex::Regex;

use crate::action::Action;
use crate::event::{views, EventView, PacmanEvent};
use crate::group::{group_views, newest, newest_of, GroupView, PackageGroup};
use crate::opt::StateMode;
use crate::timestamp::Timestamp;

verus! {

/// Whether a package with the given events stays under a state mode.
pub open spec fn state_keeps(mode: StateMode, evs: Seq<EventView>) -> bool {
    match mode {
        StateMode::AllPackages => true,
        StateMode::WithoutRemoved => newest_of(evs).action != Action::Removed,
        StateMode::WithoutInstalled => newest_of(evs).action == Action::Removed,
    }
}

/// The groups that stay under a state mode, in their order.
pub open spec fn state_filter(gs: Seq<GroupView>, mode: StateMode) -> Seq<GroupView>
    decreases gs.len(),
{
    if gs.len() == 0 {
        Seq::empty()
    } else {
        let p = state_filter(gs.drop_last(), mode);
        if state_keeps(mode, gs.last().events) {
            p.push(gs.last())
        } else {
            p
        }
    }
}

/// Every group holds at least one event.
pub open spec fn all_non_empty(gs: Seq<GroupView>) -> bool {
    forall|i: int| 0 <= i < gs.len() ==> (#[trigger] gs[i]).events.len() > 0
}

/// Keeps the packages whose newest event the mode accepts.
pub fn filter_state(groups: &Vec<PackageGroup>, mode: StateMode) -> (r: Vec<PackageGroup>)
    requires
        all_non_empty(group_views(groups@)),
    ensures
        group_views(r@) == state_filter(group_views(groups@), mode),
{
    let ghost gv = group_views(groups@);
    let mut r: Vec<PackageGroup> = Vec::new();
    let mut i: usize = 0;
    while i < groups.len()
        invariant
            i <= groups@.len(),
            gv == group_views(groups@),
            all_non_empty(gv),
            group_views(r@) == state_filter(gv.subrange(0, i as int), mode),
        decreases groups.len() - i,
    {
        proof {
            assert(gv.subrange(0, i + 1).drop_last() =~= gv.subrange(0, i as int));
            assert(gv[i as int].events.len() > 0);
        }
        let g = &groups[i];
        let keep = match mode {
            StateMode::AllPackages => true,
            StateMode::WithoutRemoved => {
                let k = newest(&g.events);
                !g.events[k].action.is_removed()
            },
            StateMode::WithoutInstalled => {
                let k = newest(&g.events);
                g.events[k].action.is_removed()
            },
        };
        if keep {
            let ghost prev = r@;
            r.push(g.copy());
            assert(group_views(r@) =~= group_views(prev).push(gv[i as int]));
        }
        i = i + 1;
    }
    assert(gv.subrange(0, groups@.len() as int) =~= gv);
    r
}

/// The events strictly after `after`; all of them where there is no bound.
pub open spec fn after_filter(evs: Seq<EventView>, after: Option<Timestamp>) -> Seq<EventView>
    decreases evs.len(),
{
    if evs.len() == 0 {
        Seq::empty()
    } else {
        let p = after_filter(evs.drop_last(), after);
        match after {
            Some(a) => if evs.last().date > a.seconds {
                p.push(evs.last())
            } else {
                p
            },
            None => p.push(evs.last()),
        }
    }
}

/// Keeps the events strictly after `after`, in their order.
pub fn filter_events(events: &Vec<PacmanEvent>, after: &Option<Timestamp>) -> (r: Vec<PacmanEvent>)
    ensures
        views(r@) == after_filter(views(events@), *after),
{
    let ghost ev = views(events@);
    let mut r: Vec<PacmanEvent> = Vec::new();
    let mut i: usize = 0;
    while i < events.len()
        invariant
            i <= events@.len(),
            ev == views(events@),
            views(r@) == after_filter(ev.subrange(0, i as int), *after),
        decreases events.len() - i,
    {
        assert(ev.subrange(0, i + 1).drop_last() =~= ev.subrange(0, i as int));
        let keep = match after {
            Some(a) => events[i].date.seconds > a.seconds,
            None => true,
        };
        if keep {
            let ghost prev = r@;
            r.push(events[i].copy());
            assert(views(r@) =~= views(prev).push(ev[i as int]));
        }
        i = i + 1;
    }
    assert(ev.subrange(0, events@.len() as int) =~= ev);
    r
}

/// Each group cut to its events after `after`; groups left empty are dropped.
pub open spec fn date_stage(gs: Seq<GroupView>, after: Option<Timestamp>) -> Seq<GroupView>
    decreases gs.len(),
{
    if gs.len() == 0 {
        Seq::empty()
    } else {
        let p = date_stage(gs.drop_last(), after);
        let evs = after_filter(gs.last().events, after);
        if evs.len() > 0 {
            p.push(GroupView { package: gs.last().package, events: evs })
        } else {
            p
        }
    }
}

/// Cuts each group to its events after `after` and drops the groups left
/// empty.
pub fn filter_dates(groups: &Vec<PackageGroup>, after: &Option<Timestamp>) -> (r: Vec<PackageGroup>)
    ensures
        group_views(r@) == date_stage(group_views(groups@), *after),
        all_non_empty(group_views(r@)),
{
    let ghost gv = group_views(groups@);
    let mut r: Vec<PackageGroup> = Vec::new();
    let mut i: usize = 0;
    while i < groups.len()
        invariant
            i <= groups@.len(),
            gv == group_views(groups@),
            group_views(r@) == date_stage(gv.subrange(0, i as int), *after),
            all_non_empty(group_views(r@)),
        decreases groups.len() - i,
    {
        assert(gv.subrange(0, i + 1).drop_last() =~= gv.subrange(0, i as int));
        let evs = filter_events(&groups[i].events, after);
        if evs.len() > 0 {
            let ghost prev = r@;
            let g = PackageGroup { package: groups[i].package.clone(), events: evs };
            r.push(g);
            assert(group_views(r@) =~= group_views(prev).push(
                GroupView { package: gv[i as int].package, events: after_filter(gv[i as int].events, *after) },
            ));
        }
        i = i + 1;
    }
    assert(gv.subrange(0, groups@.len() as int) =~= gv);
    r
}

/// What `regex` answers on a pattern and a text: `None` where the pattern
/// does not compile, else whether it matches somewhere in the text.
pub uninterp spec fn regex_search_of(pattern: Seq<char>, text: Seq<char>) -> Option<bool>;

/// Relies on `regex::Regex::new` and `Regex::is_match`: an unanchored search
/// of the pattern in the text.
#[verifier::external_body]
fn regex_search(pattern: &str, text: &str) -> (r: Option<bool>)
    ensures
        r == regex_search_of(pattern@, text@),
{
    Regex::new(pattern).ok().map(|re| re.is_match(text))
}

/// Whether some pattern matches the name.
pub open spec fn matches_any(patterns: Seq<Seq<char>>, name: Seq<char>) -> bool
    decreases patterns.len(),
{
    if patterns.len() == 0 {
        false
    } else {
        matches_any(patterns.drop_last(), name) || regex_search_of(patterns.last(), name) == Some(
            true,
        )
    }
}

pub open spec fn pattern_views(ps: Seq<String>) -> Seq<Seq<char>> {
    ps.map_values(|p: String| p@)
}

/// Whether some of the patterns matches somewhere in the package name.
pub fn matches_filter(package: &str, filters: &Vec<String>) -> (r: bool)
    ensures
        r == matches_any(pattern_views(filters@), package@),
{
    let ghost pv = pattern_views(filters@);
    let mut found = false;
    let mut i: usize = 0;
    while i < filters.len()
        invariant
            i <= filters@.len(),
            pv == pattern_views(filters@),
            found == matches_any(pv.subrange(0, i as int), package@),
        decreases filters.len() - i,
    {
        assert(pv.subrange(0, i + 1).drop_last() =~= pv.subrange(0, i as int));
        let hit = match regex_search(filters[i].as_str(), package) {
            Some(b) => b,
            None => false,
        };
        found = found || hit;
        i = i + 1;
    }
    assert(pv.subrange(0, filters@.len() as int) =~= pv);
    found
}

/// Whether a package stays under the name patterns: every package where there
/// is none, else the matched ones, or with `exclude` the others.
pub open spec fn name_keeps(patterns: Seq<Seq<char>>, exclude: bool, name: Seq<char>) -> bool {
    patterns.len() == 0 || (matches_any(patterns, name) != exclude)
}

/// Whether a package stays, given whether any pattern is set and whether
/// one matched its name.
pub fn name_kept(has_patterns: bool, matched: bool, exclude: bool) -> (r: bool)
    ensures
        r == (!has_patterns || (matched != exclude)),
{
    !has_patterns || (matched != exclude)
}

pub open spec fn name_stage(gs: Seq<GroupView>, patterns: Seq<Seq<char>>, exclude: bool) -> Seq<
    GroupView,
>
    decreases gs.len(),
{
    if gs.len() == 0 {
        Seq::empty()
    } else {
        let p = name_stage(gs.drop_last(), patterns, exclude);
        if name_keeps(patterns, exclude, gs.last().package) {
            p.push(gs.last())
        } else {
            p
        }
    }
}

/// Keeps the packages that the name patterns select.
pub fn filter_names(groups: &Vec<PackageGroup>, filters: &Vec<String>, exclude: bool) -> (r: Vec<
    PackageGroup,
>)
    ensures
        group_views(r@) == name_stage(group_views(groups@), pattern_views(filters@), exclude),
{
    let ghost gv = group_views(groups@);
    let mut r: Vec<PackageGroup> = Vec::new();
    let mut i: usize = 0;
    while i < groups.len()
        invariant
            i <= groups@.len(),
            gv == group_views(groups@),
            group_views(r@) == name_stage(gv.subrange(0, i as int), pattern_views(filters@), exclude),
        decreases groups.len() - i,
    {
        assert(gv.subrange(0, i + 1).drop_last() =~= gv.subrange(0, i as int));
        let keep = filters.len() == 0 || name_kept(
            true,
            matches_filter(groups[i].package.as_str(), filters),
            exclude,
        );
        if keep {
            let ghost prev = r@;
            r.push(groups[i].copy());
            assert(group_views(r@) =~= group_views(prev).push(gv[i as int]));
        }
        i = i + 1;
    }
    assert(gv.subrange(0, groups@.len() as int) =~= gv);
    r
}

/// Whether the package is among the given names; every package is where none
/// is given.
pub fn is_relevant_package(filters: &[String], package: &str) -> (r: bool)
    ensures
        r == (filters@.len() == 0 || exists|i: int|
            0 <= i < filters@.len() && (#[trigger] filters@[i])@ == package@),
{
    if filters.len() == 0 {
        return true;
    }
    let name = package.to_owned();
    let mut i: usize = 0;
    while i < filters.len()
        invariant
            i <= filters@.len(),
            name@ == package@,
            forall|j: int| 0 <= j < i ==> (#[trigger] filters@[j])@ != package@,
        decreases filters.len() - i,
    {
        if filters[i] == name {
            return true;
        }
        i = i + 1;
    }
    false
}

/// The last `l` events, or all of them where there are no more than `l`.
pub open spec fn limit_tail(evs: Seq<EventView>, limit: Option<u32>) -> Seq<EventView> {
    match limit {
        Some(l) => if l < evs.len() {
            evs.subrange(evs.len() - l, evs.len() as int)
        } else {
            evs
        },
        None => evs,
    }
}

/// Keeps the last `limit` events of a sequence, in their order.
pub fn limit_events(events: &Vec<PacmanEvent>, limit: Option<u32>) -> (r: Vec<PacmanEvent>)
    ensures
        views(r@) == limit_tail(views(events@), limit),
{
    let n = events.len();
    let start: usize = match limit {
        Some(l) => if (l as usize) < n {
            n - l as usize
        } else {
            0
        },
        None => 0,
    };
    let ghost ev = views(events@);
    let mut r: Vec<PacmanEvent> = Vec::new();
    let mut i: usize = start;
    while i < n
        invariant
            start <= i <= n,
            n == events@.len(),
            ev == views(events@),
            views(r@) == ev.subrange(start as int, i as int),
        decreases n - i,
    {
        let ghost prev = r@;
        r.push(events[i].copy());
        assert(views(r@) =~= views(prev).push(ev[i as int]));
        assert(ev.subrange(start as int, i + 1) =~= ev.subrange(start as int, i as int).push(
            ev[i as int],
        ));
        i = i + 1;
    }
    assert(ev.subrange(0, n as int) =~= ev);
    r
}

} // verus!
