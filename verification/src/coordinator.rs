//! One pass of the coordinator over a session: the watchers take their
//! turn, and every snapshot that they forward gets its round.

use vstd::prelude::*;
use crate::event::EventView;
use crate::gate::SyncState;
use crate::round::{after_round, failures_among, propagate, synced, Report};
use crate::session::{
    forwarded_by,
    has_signalled,
    ids,
    observed,
    snapshot_of,
    valid,
    DisplayView,
    Session,
    SessionView,
};

verus! {

/// The session after one round for each of `events`, in order.
pub open spec fn after_rounds(sv: SessionView, events: Seq<EventView>) -> SessionView
    decreases events.len(),
{
    if events.len() == 0 {
        sv
    } else {
        after_round(after_rounds(sv, events.drop_last()), events.last())
    }
}

/// The session after the watchers have had their turn.
pub open spec fn polled(sv: SessionView) -> SessionView {
    SessionView { displays: observed(sv.displays), state: sv.state }
}

/// One pass of the coordinator: every display that has signalled a change
/// has its snapshot taken, and each snapshot that is forwarded is
/// propagated in a round of its own, one round after the other in the order
/// of the displays. Returns the report of each round.
pub fn sync_clipboards(session: &mut Session) -> (reports: Vec<Report>)
    requires
        old(session).wf(),
    ensures
        final(session).wf(),
        final(session)@ == after_rounds(
            polled(old(session)@),
            forwarded_by(old(session)@.displays, old(session)@.state),
        ),
        reports@.len() == forwarded_by(old(session)@.displays, old(session)@.state).len(),
        forall|k: int|
            0 <= k < reports@.len() ==> {
                let events = forwarded_by(old(session)@.displays, old(session)@.state);
                let before = after_rounds(polled(old(session)@), events.take(k));
                &&& (#[trigger] reports@[k]).failures.deep_view() == failures_among(
                    before.displays,
                    ids(before.displays),
                    events[k],
                )
                &&& reports@[k].forwarded@.len() == 0
            },
{
    let events = session.poll();
    let ghost evs = events.deep_view();
    let ghost start = session@;
    let mut reports: Vec<Report> = Vec::new();
    let mut i: usize = 0;
    while i < events.len()
        invariant
            i <= events.len(),
            evs == events.deep_view(),
            session.wf(),
            session@ == after_rounds(start, evs.take(i as int)),
            reports@.len() == i,
            forall|k: int|
                0 <= k < i ==> {
                    let before = after_rounds(start, evs.take(k));
                    &&& (#[trigger] reports@[k]).failures.deep_view() == failures_among(
                        before.displays,
                        ids(before.displays),
                        evs[k],
                    )
                    &&& reports@[k].forwarded@.len() == 0
                },
        decreases events.len() - i,
    {
        proof {
            assert(evs.take(i + 1).drop_last() =~= evs.take(i as int));
            assert(evs.take(i + 1).last() == events[i as int]@);
        }
        let report = propagate(session, &events[i]);
        reports.push(report);
        i += 1;
    }
    proof {
        assert(evs.take(i as int) =~= evs);
    }
    reports
}

/// Where exactly one display has signalled a change, the watchers forward
/// exactly its snapshot.
pub proof fn lemma_single_change(ds: Seq<DisplayView>, origin: int)
    requires
        0 <= origin < ds.len(),
        forall|i: int| 0 <= i < ds.len() ==> ((#[trigger] ds[i]).changed <==> i == origin),
    ensures
        ds.filter(has_signalled()) == seq![ds[origin]],
        forwarded_by(ds, SyncState::Idle) == seq![snapshot_of()(ds[origin])],
    decreases ds.len(),
{
    let prev = ds.drop_last();
    let last = ds.last();
    assert(ds =~= prev.push(last));
    prev.lemma_filter_push(last, has_signalled());
    if origin == ds.len() - 1 {
        lemma_no_change(prev);
        assert(ds.filter(has_signalled()) =~= seq![last]);
    } else {
        assert forall|i: int| 0 <= i < prev.len() implies ((#[trigger] prev[i]).changed <==> i
            == origin) by {
            assert(prev[i] == ds[i]);
        }
        lemma_single_change(prev, origin);
        assert(!last.changed);
        assert(prev[origin] == ds[origin]);
    }
    assert(forwarded_by(ds, SyncState::Idle) =~= seq![snapshot_of()(ds[origin])]);
}

/// Where no display has signalled a change, none passes the test for it.
pub proof fn lemma_no_change(ds: Seq<DisplayView>)
    requires
        forall|i: int| 0 <= i < ds.len() ==> !(#[trigger] ds[i]).changed,
    ensures
        ds.filter(has_signalled()) == Seq::<DisplayView>::empty(),
        forwarded_by(ds, SyncState::Idle) == Seq::<EventView>::empty(),
{
    let f = ds.filter(has_signalled());
    if f.len() > 0 {
        ds.lemma_filter_pred(has_signalled(), 0);
        assert(f.contains(f[0]));
        ds.lemma_filter_contains_rev(has_signalled(), f[0]);
        let j = choose|j: int| 0 <= j < ds.len() && ds[j] == f[0];
        assert(ds[j].changed);
    }
    assert(f =~= Seq::<DisplayView>::empty());
    assert(forwarded_by(ds, SyncState::Idle) =~= Seq::<EventView>::empty());
}

/// Convergence: in an idle session whose displays can all be reached, after
/// a change on one display a pass of the coordinator leaves every display
/// with the two slots of that display, no signal pending and the window
/// closed.
pub proof fn lemma_convergence(sv: SessionView, origin: int)
    requires
        valid(sv.displays),
        sv.state == SyncState::Idle,
        0 <= origin < sv.displays.len(),
        forall|i: int| 0 <= i < sv.displays.len() ==> (#[trigger] sv.displays[i]).reachable,
        forall|i: int|
            0 <= i < sv.displays.len() ==> ((#[trigger] sv.displays[i]).changed <==> i == origin),
    ensures
        ({
            let end = after_rounds(polled(sv), forwarded_by(sv.displays, sv.state));
            &&& end.state == SyncState::Idle
            &&& end.displays.len() == sv.displays.len()
            &&& forall|i: int|
                0 <= i < sv.displays.len() ==> {
                    let d = #[trigger] end.displays[i];
                    &&& d.id == sv.displays[i].id
                    &&& d.primary == sv.displays[origin].primary
                    &&& d.clipboard == sv.displays[origin].clipboard
                    &&& d.reachable
                    &&& !d.changed
                }
        }),
{
    let ds = sv.displays;
    let ev = snapshot_of()(ds[origin]);
    lemma_single_change(ds, origin);
    let events = forwarded_by(ds, sv.state);
    assert(events.drop_last() =~= Seq::<EventView>::empty());
    assert(events.last() == ev);
    reveal_with_fuel(after_rounds, 2);
    let end = after_rounds(polled(sv), events);
    assert(end == after_round(polled(sv), ev));
    assert forall|i: int| 0 <= i < ds.len() implies {
        let d = #[trigger] end.displays[i];
        &&& d.id == ds[i].id
        &&& d.primary == ds[origin].primary
        &&& d.clipboard == ds[origin].clipboard
        &&& d.reachable
        &&& !d.changed
    } by {
        assert(end.displays[i] == synced(observed(ds)[i], ev));
        if i != origin {
            assert(ds[i].id != ds[origin].id);
        }
    }
}

/// Where no display has signalled a change, a pass of the coordinator
/// changes nothing.
pub proof fn lemma_quiet_pass(sv: SessionView)
    requires
        forall|i: int| 0 <= i < sv.displays.len() ==> !(#[trigger] sv.displays[i]).changed,
    ensures
        after_rounds(polled(sv), forwarded_by(sv.displays, sv.state)) == sv,
{
    lemma_no_change(sv.displays);
    assert(observed(sv.displays) =~= sv.displays);
}

} // verus!
