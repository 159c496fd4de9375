//! Events gathered per package, and the newest event of a package.
use vstd::prelude::*;

use crate::event::{views, EventView, PacmanEvent};

verus! {

/// The events of one package, in the order in which they were gathered.
pub struct PackageGroup {
    pub package: String,
    pub events: Vec<PacmanEvent>,
}

pub struct GroupView {
    pub package: Seq<char>,
    pub events: Seq<EventView>,
}

impl View for PackageGroup {
    type V = GroupView;

    open spec fn view(&self) -> GroupView {
        GroupView { package: self.package@, events: views(self.events@) }
    }
}

pub open spec fn group_views(s: Seq<PackageGroup>) -> Seq<GroupView> {
    s.map_values(|g: PackageGroup| g@)
}

/// The last place of `gs` whose package is `name`, or -1.
pub open spec fn find_group(gs: Seq<GroupView>, name: Seq<char>) -> int
    decreases gs.len(),
{
    if gs.len() == 0 {
        -1
    } else if gs.last().package == name {
        gs.len() - 1
    } else {
        find_group(gs.drop_last(), name)
    }
}

/// The groups after one more event: appended to its package's group, or in a
/// new group at the end.
pub open spec fn add_event(gs: Seq<GroupView>, e: EventView) -> Seq<GroupView> {
    let k = find_group(gs, e.package);
    if k < 0 {
        gs.push(GroupView { package: e.package, events: seq![e] })
    } else {
        gs.update(k, GroupView { package: gs[k].package, events: gs[k].events.push(e) })
    }
}

/// The events of a log gathered per package: one group per package name, in
/// the order of each name's first event, each group in log order.
pub open spec fn group_spec(log: Seq<EventView>) -> Seq<GroupView>
    decreases log.len(),
{
    if log.len() == 0 {
        Seq::empty()
    } else {
        add_event(group_spec(log.drop_last()), log.last())
    }
}

/// The newest event of a sequence: the latest date, and of events with that
/// date the last one.
pub open spec fn newest_of(evs: Seq<EventView>) -> EventView
    decreases evs.len(),
{
    if evs.len() <= 1 {
        evs[0]
    } else {
        let p = newest_of(evs.drop_last());
        if evs.last().date >= p.date {
            evs.last()
        } else {
            p
        }
    }
}

pub proof fn lemma_find_group_range(gs: Seq<GroupView>, name: Seq<char>)
    ensures
        -1 <= find_group(gs, name) < gs.len(),
        find_group(gs, name) >= 0 ==> gs[find_group(gs, name)].package == name,
        find_group(gs, name) < 0 ==> forall|i: int| 0 <= i < gs.len() ==> gs[i].package != name,
    decreases gs.len(),
{
    if gs.len() > 0 {
        lemma_find_group_range(gs.drop_last(), name);
        assert forall|i: int| 0 <= i < gs.len() - 1 implies gs.drop_last()[i] == gs[i] by {}
    }
}

impl PackageGroup {
    /// A copy of the group.
    pub fn copy(&self) -> (r: PackageGroup)
        ensures
            r@ == self@,
    {
        PackageGroup { package: self.package.clone(), events: copy_events(&self.events) }
    }
}

/// A copy of a sequence of events.
pub fn copy_events(evs: &Vec<PacmanEvent>) -> (r: Vec<PacmanEvent>)
    ensures
        views(r@) == views(evs@),
{
    let mut r: Vec<PacmanEvent> = Vec::new();
    let mut i: usize = 0;
    while i < evs.len()
        invariant
            i <= evs@.len(),
            views(r@) == views(evs@.subrange(0, i as int)),
        decreases evs.len() - i,
    {
        let ghost prev = r@;
        r.push(evs[i].copy());
        assert(views(r@) == views(prev).push(evs@[i as int]@));
        assert(evs@.subrange(0, i + 1) == evs@.subrange(0, i as int).push(evs@[i as int]));
        i = i + 1;
    }
    assert(evs@.subrange(0, evs@.len() as int) == evs@);
    r
}

fn find_group_index(groups: &Vec<PackageGroup>, name: &String) -> (r: Option<usize>)
    ensures
        match r {
            Some(k) => k as int == find_group(group_views(groups@), name@),
            None => find_group(group_views(groups@), name@) < 0,
        },
{
    let ghost gv = group_views(groups@);
    let mut j = groups.len();
    assert(gv.subrange(0, groups@.len() as int) =~= gv);
    while j > 0 && groups[j - 1].package != *name
        invariant
            j <= groups@.len(),
            gv == group_views(groups@),
            find_group(gv, name@) == find_group(gv.subrange(0, j as int), name@),
        decreases j,
    {
        assert(gv.subrange(0, j - 1) =~= gv.subrange(0, j as int).drop_last());
        j = j - 1;
    }
    assert(gv.subrange(0, groups@.len() as int) == gv);
    if j == 0 {
        None
    } else {
        Some(j - 1)
    }
}

/// Gathers the events of a log per package.
pub fn group(events: &Vec<PacmanEvent>) -> (r: Vec<PackageGroup>)
    ensures
        group_views(r@) == group_spec(views(events@)),
{
    let mut groups: Vec<PackageGroup> = Vec::new();
    let mut i: usize = 0;
    while i < events.len()
        invariant
            i <= events@.len(),
            group_views(groups@) == group_spec(views(events@.subrange(0, i as int))),
        decreases events.len() - i,
    {
        let ghost before = group_views(groups@);
        let e = &events[i];
        proof {
            let pre = views(events@.subrange(0, i + 1));
            assert(pre.drop_last() =~= views(events@.subrange(0, i as int)));
            assert(pre.last() == e@);
            lemma_find_group_range(before, e.package@);
        }
        match find_group_index(&groups, &e.package) {
            Some(k) => {
                let mut evs = copy_events(&groups[k].events);
                let ghost old_evs = evs@;
                evs.push(e.copy());
                assert(views(evs@) =~= views(old_evs).push(e@));
                let g = PackageGroup { package: e.package.clone(), events: evs };
                groups.set(k, g);
                assert(group_views(groups@) =~= before.update(
                    k as int,
                    GroupView { package: before[k as int].package, events: before[k as int].events.push(e@) },
                ));
            },
            None => {
                let g = PackageGroup { package: e.package.clone(), events: vec![e.copy()] };
                groups.push(g);
                assert(views(g.events@) =~= seq![e@]);
                assert(group_views(groups@) =~= before.push(
                    GroupView { package: e@.package, events: seq![e@] },
                ));
            },
        }
        i = i + 1;
    }
    assert(events@.subrange(0, events@.len() as int) == events@);
    groups
}

/// The place of the newest event of a non-empty sequence of events.
pub fn newest(events: &Vec<PacmanEvent>) -> (r: usize)
    requires
        events@.len() > 0,
    ensures
        r < events@.len(),
        events@[r as int]@ == newest_of(views(events@)),
{
    let mut best: usize = 0;
    let mut i: usize = 1;
    assert(views(events@.subrange(0, 1)).len() == 1);
    while i < events.len()
        invariant
            1 <= i <= events@.len(),
            best < i,
            events@[best as int]@ == newest_of(views(events@.subrange(0, i as int))),
        decreases events.len() - i,
    {
        proof {
            let pre = views(events@.subrange(0, i + 1));
            assert(pre.drop_last() == views(events@.subrange(0, i as int)));
            assert(pre.last() == events@[i as int]@);
        }
        if events[i].date.seconds >= events[best].date.seconds {
            best = i;
        }
        i = i + 1;
    }
    assert(events@.subrange(0, events@.len() as int) == events@);
    best
}

/// The newest event of each group, in the groups' order.
pub fn select_newest(groups: &Vec<PackageGroup>) -> (r: Vec<PacmanEvent>)
    requires
        forall|i: int| 0 <= i < groups@.len() ==> (#[trigger] groups@[i]).events@.len() > 0,
    ensures
        r@.len() == groups@.len(),
        forall|i: int| 0 <= i < r@.len() ==> (#[trigger] r@[i])@ == newest_of(views(groups@[i].events@)),
{
    let mut r: Vec<PacmanEvent> = Vec::new();
    let mut i: usize = 0;
    while i < groups.len()
        invariant
            i <= groups@.len(),
            forall|k: int| 0 <= k < groups@.len() ==> (#[trigger] groups@[k]).events@.len() > 0,
            r@.len() == i,
            forall|k: int| 0 <= k < i ==> (#[trigger] r@[k])@ == newest_of(views(groups@[k].events@)),
        decreases groups.len() - i,
    {
        let g = &groups[i];
        assert(groups@[i as int].events@.len() > 0);
        let k = newest(&g.events);
        r.push(g.events[k].copy());
        i = i + 1;
    }
    r
}

} // verus!
