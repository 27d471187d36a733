//! Playing a script on a session, and what a propagation round comes to.

use vstd::prelude::*;
use crate::event::{Action, ActionView, ChangeEvent, ErrorView, EventView, Slot, SyncError};
use crate::gate::{after_set_idle, after_set_propagating, SyncState};
use crate::propagator::{
    lemma_round_writes_empty,
    lemma_round_writes_push,
    other_than,
    round_script,
    round_writes,
    sync,
    targets,
    write_of,
    writes_for,
    SETTLE_MILLIS,
};
use crate::session::{
    forwarded_by,
    ids,
    observed,
    reachable,
    valid,
    write_xclip_value,
    written,
    DisplayView,
    Session,
    SessionView,
};

verus! {

/// What playing a script has come to: the session, the writes that failed,
/// and the snapshots that the watchers forwarded while it was played.
pub struct Outcome {
    pub session: SessionView,
    pub failures: Seq<ErrorView>,
    pub forwarded: Seq<EventView>,
}

/// The outcome before anything was played.
pub open spec fn start(sv: SessionView) -> Outcome {
    Outcome { session: sv, failures: Seq::empty(), forwarded: Seq::empty() }
}

/// One step played after `o`.
///
/// A write that cannot reach its display is recorded and changes nothing.
/// While the script settles every watcher with a pending signal takes its
/// turn.
pub open spec fn step(o: Outcome, a: ActionView) -> Outcome {
    let ds = o.session.displays;
    let state = o.session.state;
    match a {
        ActionView::SetPropagating => Outcome {
            session: SessionView { displays: ds, state: after_set_propagating(state) },
            ..o
        },
        ActionView::SetIdle => Outcome {
            session: SessionView { displays: ds, state: after_set_idle(state) },
            ..o
        },
        ActionView::Write { display, slot, value } => Outcome {
            session: SessionView { displays: written(ds, display, slot, value), state },
            failures: if reachable(ds, display) {
                o.failures
            } else {
                o.failures.push(ErrorView::Write { display, slot })
            },
            ..o
        },
        ActionView::Settle { millis } => Outcome {
            session: SessionView { displays: observed(ds), state },
            forwarded: o.forwarded + forwarded_by(ds, state),
            ..o
        },
    }
}

/// The steps of `script` played in order after `o`.
pub open spec fn run_from(o: Outcome, script: Seq<ActionView>) -> Outcome
    decreases script.len(),
{
    if script.len() == 0 {
        o
    } else {
        step(run_from(o, script.drop_last()), script.last())
    }
}

/// The steps of `script` played in order on `sv`.
pub open spec fn played(sv: SessionView, script: Seq<ActionView>) -> Outcome {
    run_from(start(sv), script)
}

/// What a script came to when it was played on a session.
#[derive(Debug)]
pub struct Report {
    /// One error for each write that failed, in the order of the writes.
    pub failures: Vec<SyncError>,
    /// The snapshots that the watchers forwarded while the script settled.
    pub forwarded: Vec<ChangeEvent>,
}

/// Plays one step on `session` and adds what came of it to `report`.
fn perform(session: &mut Session, action: &Action, report: &mut Report)
    requires
        old(session).wf(),
    ensures
        final(session).wf(),
        (Outcome {
            session: final(session)@,
            failures: final(report).failures.deep_view(),
            forwarded: final(report).forwarded.deep_view(),
        }) == step(
            Outcome {
                session: old(session)@,
                failures: old(report).failures.deep_view(),
                forwarded: old(report).forwarded.deep_view(),
            },
            action@,
        ),
{
    let ghost failures = report.failures.deep_view();
    let ghost forwarded = report.forwarded.deep_view();
    match action {
        Action::SetPropagating => {
            session.set_propagating();
        },
        Action::SetIdle => {
            session.set_idle();
        },
        Action::Write { display, slot, value } => {
            match write_xclip_value(session, display, *slot, value) {
                Ok(()) => {},
                Err(e) => {
                    report.failures.push(e);
                    assert(report.failures.deep_view() =~= failures.push(e@));
                },
            }
        },
        Action::Settle { millis: _ } => {
            let mut events = session.poll();
            let ghost polled = events.deep_view();
            report.forwarded.append(&mut events);
            assert(report.forwarded.deep_view() =~= forwarded + polled);
        },
    }
}

/// Plays `script` on `session`, step by step. A write that fails is
/// reported and the script goes on.
pub fn run(session: &mut Session, script: &Vec<Action>) -> (report: Report)
    requires
        old(session).wf(),
    ensures
        final(session).wf(),
        final(session)@ == played(old(session)@, script.deep_view()).session,
        report.failures.deep_view() == played(old(session)@, script.deep_view()).failures,
        report.forwarded.deep_view() == played(old(session)@, script.deep_view()).forwarded,
{
    let ghost steps = script.deep_view();
    let mut report = Report { failures: Vec::new(), forwarded: Vec::new() };
    let mut i: usize = 0;
    proof {
        assert(report.failures.deep_view() =~= Seq::<ErrorView>::empty());
        assert(report.forwarded.deep_view() =~= Seq::<EventView>::empty());
    }
    while i < script.len()
        invariant
            i <= script.len(),
            steps == script.deep_view(),
            session.wf(),
            (Outcome {
                session: session@,
                failures: report.failures.deep_view(),
                forwarded: report.forwarded.deep_view(),
            }) == played(old(session)@, steps.take(i as int)),
        decreases script.len() - i,
    {
        proof {
            assert(steps.take(i + 1).drop_last() =~= steps.take(i as int));
            assert(steps.take(i + 1).last() == script[i as int]@);
        }
        perform(session, &script[i], &mut report);
        i += 1;
    }
    proof {
        assert(steps.take(i as int) =~= steps);
    }
    report
}

/// The test for a display that a write cannot reach.
pub open spec fn out_of_reach(ds: Seq<DisplayView>) -> spec_fn(Seq<char>) -> bool {
    |id: Seq<char>| !reachable(ds, id)
}

/// The displays after the writes of a round that propagates `ev` to the
/// displays listed in `names`: every listed display within reach, but the
/// origin, holds the snapshot and has signalled a change.
pub open spec fn reached(ds: Seq<DisplayView>, names: Seq<Seq<char>>, ev: EventView) -> Seq<
    DisplayView,
> {
    Seq::new(
        ds.len(),
        |i: int|
            if names.contains(ds[i].id) && ds[i].id != ev.origin && ds[i].reachable {
                DisplayView {
                    primary: ev.primary,
                    clipboard: ev.clipboard,
                    changed: true,
                    ..ds[i]
                }
            } else {
                ds[i]
            },
    )
}

/// The failures of a round that propagates `ev` to the displays listed in
/// `names`: for each listed target that cannot be reached, in order, one
/// for the clipboard slot and then one for the primary slot.
pub open spec fn failures_among(ds: Seq<DisplayView>, names: Seq<Seq<char>>, ev: EventView) -> Seq<
    ErrorView,
> {
    let lost = targets(names, ev.origin).filter(out_of_reach(ds));
    Seq::new(
        2 * lost.len(),
        |k: int|
            ErrorView::Write {
                display: lost[k / 2],
                slot: if k % 2 == 0 {
                    Slot::Clipboard
                } else {
                    Slot::Primary
                },
            },
    )
}

/// A display after a round that propagates `ev` to all displays: unless it
/// is the origin or out of reach it holds the snapshot, and no signal is
/// pending.
pub open spec fn synced(d: DisplayView, ev: EventView) -> DisplayView {
    if d.id != ev.origin && d.reachable {
        DisplayView { primary: ev.primary, clipboard: ev.clipboard, changed: false, ..d }
    } else {
        DisplayView { changed: false, ..d }
    }
}

/// The session after a round that propagates `ev` to all its displays.
pub open spec fn after_round(sv: SessionView, ev: EventView) -> SessionView {
    SessionView {
        displays: Seq::new(sv.displays.len(), |i: int| synced(sv.displays[i], ev)),
        state: SyncState::Idle,
    }
}

/// A round keeps a session valid.
pub proof fn lemma_after_round_valid(sv: SessionView, ev: EventView)
    requires
        valid(sv.displays),
    ensures
        valid(after_round(sv, ev).displays),
        ids(after_round(sv, ev).displays) == ids(sv.displays),
{
    assert(ids(after_round(sv, ev).displays) =~= ids(sv.displays));
}

/// Playing one script after another is playing them joined.
pub proof fn lemma_run_concat(o: Outcome, first: Seq<ActionView>, second: Seq<ActionView>)
    ensures
        run_from(o, first + second) == run_from(run_from(o, first), second),
    decreases second.len(),
{
    if second.len() == 0 {
        assert(first + second =~= first);
    } else {
        lemma_run_concat(o, first, second.drop_last());
        assert((first + second).drop_last() =~= first + second.drop_last());
    }
}

/// Playing one step.
pub proof fn lemma_run_one(o: Outcome, a: ActionView)
    ensures
        run_from(o, seq![a]) == step(o, a),
{
    assert(seq![a].drop_last() =~= Seq::<ActionView>::empty());
    reveal_with_fuel(run_from, 2);
}

/// Playing two steps.
pub proof fn lemma_run_two(o: Outcome, a: ActionView, b: ActionView)
    ensures
        run_from(o, seq![a, b]) == step(step(o, a), b),
{
    assert(seq![a, b].drop_last() =~= seq![a]);
    lemma_run_one(o, a);
}

/// Listing one more display adds its two failures at the end, if it is a
/// target out of reach.
proof fn lemma_failures_push(
    ds: Seq<DisplayView>,
    names: Seq<Seq<char>>,
    id: Seq<char>,
    ev: EventView,
)
    ensures
        failures_among(ds, names.push(id), ev) == if id != ev.origin && !reachable(ds, id) {
            failures_among(ds, names, ev).push(
                ErrorView::Write { display: id, slot: Slot::Clipboard },
            ).push(ErrorView::Write { display: id, slot: Slot::Primary })
        } else {
            failures_among(ds, names, ev)
        },
{
    let t = targets(names, ev.origin);
    names.lemma_filter_push(id, other_than(ev.origin));
    if id != ev.origin {
        assert(targets(names.push(id), ev.origin) == t.push(id));
        t.lemma_filter_push(id, out_of_reach(ds));
        if !reachable(ds, id) {
            let lost = t.filter(out_of_reach(ds));
            assert(t.push(id).filter(out_of_reach(ds)) == lost.push(id));
            assert(failures_among(ds, names.push(id), ev) =~= failures_among(ds, names, ev).push(
                ErrorView::Write { display: id, slot: Slot::Clipboard },
            ).push(ErrorView::Write { display: id, slot: Slot::Primary }));
        }
    }
}

/// The two writes to one display, played on displays that a round has
/// reached so far.
proof fn lemma_pair_played(
    ds: Seq<DisplayView>,
    names: Seq<Seq<char>>,
    id: Seq<char>,
    ev: EventView,
)
    requires
        id != ev.origin,
    ensures
        reachable(reached(ds, names, ev), id) == reachable(ds, id),
        reachable(written(reached(ds, names, ev), id, Slot::Clipboard, ev.clipboard), id)
            == reachable(ds, id),
        written(
            written(reached(ds, names, ev), id, Slot::Clipboard, ev.clipboard),
            id,
            Slot::Primary,
            ev.primary,
        ) == reached(ds, names.push(id), ev),
{
    let r = reached(ds, names, ev);
    let w = written(r, id, Slot::Clipboard, ev.clipboard);
    if reachable(ds, id) {
        let i = choose|i: int| 0 <= i < ds.len() && #[trigger] ds[i].id == id && ds[i].reachable;
        assert(r[i].id == id && r[i].reachable);
        assert(w[i].id == id && w[i].reachable);
    }
    if reachable(r, id) {
        let i = choose|i: int| 0 <= i < r.len() && #[trigger] r[i].id == id && r[i].reachable;
        assert(ds[i].id == id && ds[i].reachable);
    }
    if reachable(w, id) {
        let i = choose|i: int| 0 <= i < w.len() && #[trigger] w[i].id == id && w[i].reachable;
        assert(ds[i].id == id && ds[i].reachable);
    }
    assert forall|i: int| 0 <= i < ds.len() implies written(w, id, Slot::Primary, ev.primary)[i]
        == reached(ds, names.push(id), ev)[i] by {
        assert(names.push(id).contains(ds[i].id) <==> (names.contains(ds[i].id) || ds[i].id
            == id)) by {
            if names.contains(ds[i].id) {
                let k = choose|k: int| 0 <= k < names.len() && names[k] == ds[i].id;
                assert(names.push(id)[k] == ds[i].id);
            }
            if ds[i].id == id {
                assert(names.push(id)[names.len() as int] == id);
            }
        }
    }
    assert(written(w, id, Slot::Primary, ev.primary) =~= reached(ds, names.push(id), ev));
}

/// What the writes of a round come to, whatever was played before them.
pub proof fn lemma_writes_played(o: Outcome, ev: EventView, names: Seq<Seq<char>>)
    ensures
        run_from(o, round_writes(ev, names)) == (Outcome {
            session: SessionView {
                displays: reached(o.session.displays, names, ev),
                state: o.session.state,
            },
            failures: o.failures + failures_among(o.session.displays, names, ev),
            forwarded: o.forwarded,
        }),
    decreases names.len(),
{
    let ds = o.session.displays;
    if names.len() == 0 {
        assert(names =~= Seq::<Seq<char>>::empty());
        lemma_round_writes_empty(ev);
        reveal(Seq::filter);
        assert(reached(ds, names, ev) =~= ds);
        assert(o.failures + failures_among(ds, names, ev) =~= o.failures);
    } else {
        let prev = names.drop_last();
        let id = names.last();
        assert(names =~= prev.push(id));
        lemma_writes_played(o, ev, prev);
        lemma_round_writes_push(ev, prev, id);
        lemma_failures_push(ds, prev, id, ev);
        let mid = run_from(o, round_writes(ev, prev));
        if id != ev.origin {
            lemma_run_concat(o, round_writes(ev, prev), writes_for(id, ev));
            lemma_run_two(
                mid,
                write_of(id, Slot::Clipboard, ev),
                write_of(id, Slot::Primary, ev),
            );
            lemma_pair_played(ds, prev, id, ev);
            let end = run_from(o, round_writes(ev, names));
            assert(end.failures =~= o.failures + failures_among(ds, names, ev));
        } else {
            assert(reached(ds, names, ev) =~= reached(ds, prev, ev)) by {
                assert forall|i: int| 0 <= i < ds.len() implies reached(ds, names, ev)[i]
                    == reached(ds, prev, ev)[i] by {
                    if ds[i].id != ev.origin && names.contains(ds[i].id) {
                        let k = choose|k: int| 0 <= k < names.len() && names[k] == ds[i].id;
                        assert(prev[k] == ds[i].id);
                    }
                    if prev.contains(ds[i].id) {
                        let k = choose|k: int| 0 <= k < prev.len() && prev[k] == ds[i].id;
                        assert(names[k] == ds[i].id);
                    }
                }
            }
        }
    }
}

/// What a whole round comes to, played on `sv` for the displays listed in
/// `names`: the listed targets within reach hold the snapshot, no signal is
/// pending, the window is closed, each target out of reach has failed twice,
/// and no watcher has forwarded anything.
pub proof fn lemma_round_played(sv: SessionView, ev: EventView, names: Seq<Seq<char>>)
    ensures
        played(sv, round_script(ev, names)) == (Outcome {
            session: SessionView {
                displays: observed(reached(sv.displays, names, ev)),
                state: SyncState::Idle,
            },
            failures: failures_among(sv.displays, names, ev),
            forwarded: Seq::empty(),
        }),
{
    let head = seq![ActionView::SetPropagating];
    let writes = round_writes(ev, names);
    let tail = seq![ActionView::Settle { millis: SETTLE_MILLIS }, ActionView::SetIdle];
    let o0 = start(sv);
    lemma_run_concat(o0, head + writes, tail);
    lemma_run_concat(o0, head, writes);
    lemma_run_one(o0, ActionView::SetPropagating);
    let o1 = run_from(o0, head);
    lemma_writes_played(o1, ev, names);
    let o2 = run_from(o1, writes);
    lemma_run_two(o2, ActionView::Settle { millis: SETTLE_MILLIS }, ActionView::SetIdle);
    let end = played(sv, round_script(ev, names));
    assert(end.failures =~= failures_among(sv.displays, names, ev));
    assert(end.forwarded =~= Seq::<EventView>::empty());
}

/// Propagating to all displays of a session brings each of them to
/// `synced`.
pub proof fn lemma_all_reached(ds: Seq<DisplayView>, ev: EventView)
    ensures
        observed(reached(ds, ids(ds), ev)) == after_round(
            SessionView { displays: ds, state: SyncState::Idle },
            ev,
        ).displays,
{
    assert forall|i: int| 0 <= i < ds.len() implies ids(ds).contains(ds[i].id) by {
        assert(ids(ds)[i] == ds[i].id);
    }
    assert(observed(reached(ds, ids(ds), ev)) =~= after_round(
        SessionView { displays: ds, state: SyncState::Idle },
        ev,
    ).displays);
}

/// One propagation round on `session`: the script that `sync` lays out for
/// `event` and the displays attached at this moment, played step by step.
///
/// Afterwards every display within reach, but the event's origin, holds the
/// snapshot; the origin and the displays out of reach hold what they held;
/// the window is closed. The report lists two failures for each target out of
/// reach, and no forwarded snapshot: the signals that the round's own writes
/// raised were dropped as echoes.
pub fn propagate(session: &mut Session, event: &ChangeEvent) -> (report: Report)
    requires
        old(session).wf(),
    ensures
        final(session).wf(),
        final(session)@ == after_round(old(session)@, event@),
        report.failures.deep_view() == failures_among(
            old(session)@.displays,
            ids(old(session)@.displays),
            event@,
        ),
        report.forwarded.deep_view() == Seq::<EventView>::empty(),
        report.forwarded@.len() == 0,
{
    let names = session.displays();
    let script = sync(event, &names);
    proof {
        lemma_round_played(session@, event@, ids(session@.displays));
        lemma_all_reached(session@.displays, event@);
    }
    let report = run(session, &script);
    assert(report.forwarded@.len() == report.forwarded.deep_view().len());
    report
}

/// A step that neither opens nor closes the window.
pub open spec fn leaves_gate(a: ActionView) -> bool {
    a is Write || a is Settle
}

/// While the window is open nothing is forwarded: whatever is written to
/// whichever displays, and however often the watchers take their turn, what
/// they have forwarded stays what it was.
pub proof fn lemma_echo_suppression(o: Outcome, script: Seq<ActionView>)
    requires
        o.session.state == SyncState::Propagating,
        forall|k: int| 0 <= k < script.len() ==> leaves_gate(#[trigger] script[k]),
    ensures
        run_from(o, script).forwarded == o.forwarded,
        run_from(o, script).session.state == SyncState::Propagating,
    decreases script.len(),
{
    if script.len() > 0 {
        let prev = script.drop_last();
        assert forall|k: int| 0 <= k < prev.len() implies leaves_gate(#[trigger] prev[k]) by {
            assert(prev[k] == script[k]);
        }
        lemma_echo_suppression(o, prev);
        assert(leaves_gate(script[script.len() - 1]));
        let mid = run_from(o, prev);
        assert(mid.forwarded + Seq::<EventView>::empty() =~= mid.forwarded);
    }
}

/// The failures of a round name targets that are listed and out of reach,
/// and nothing else; a round over displays that can all be reached has none.
pub proof fn lemma_failures(ds: Seq<DisplayView>, names: Seq<Seq<char>>, ev: EventView)
    ensures
        forall|k: int|
            0 <= k < failures_among(ds, names, ev).len() ==> {
                let e = #[trigger] failures_among(ds, names, ev)[k];
                &&& e is Write
                &&& names.contains(e->Write_display)
                &&& e->Write_display != ev.origin
                &&& !reachable(ds, e->Write_display)
            },
        (forall|id: Seq<char>| names.contains(id) && id != ev.origin ==> reachable(ds, id))
            ==> failures_among(ds, names, ev) == Seq::<ErrorView>::empty(),
{
    let t = targets(names, ev.origin);
    let lost = t.filter(out_of_reach(ds));
    let f = failures_among(ds, names, ev);
    crate::propagator::lemma_targets(names, ev.origin);
    assert forall|j: int| 0 <= j < lost.len() implies names.contains(#[trigger] lost[j])
        && lost[j] != ev.origin && !reachable(ds, lost[j]) by {
        t.lemma_filter_pred(out_of_reach(ds), j);
        assert(lost.contains(lost[j]));
        t.lemma_filter_contains_rev(out_of_reach(ds), lost[j]);
        let k = choose|k: int| 0 <= k < t.len() && t[k] == lost[j];
        assert(names.contains(t[k]));
    }
    assert forall|k: int| 0 <= k < f.len() implies {
        let e = #[trigger] f[k];
        &&& e is Write
        &&& names.contains(e->Write_display)
        &&& e->Write_display != ev.origin
        &&& !reachable(ds, e->Write_display)
    } by {
        assert(0 <= k / 2 < lost.len());
        assert(names.contains(lost[k / 2]));
    }
    if forall|id: Seq<char>| names.contains(id) && id != ev.origin ==> reachable(ds, id) {
        if lost.len() > 0 {
            assert(names.contains(lost[0]));
        }
        assert(f =~= Seq::<ErrorView>::empty());
    }
}

/// A round over displays that can all be reached fails nowhere, gives both
/// slots of the snapshot to every display other than the origin, and leaves
/// the origin's slots as they were.
pub proof fn lemma_full_round(sv: SessionView, ev: EventView)
    requires
        forall|i: int| 0 <= i < sv.displays.len() ==> (#[trigger] sv.displays[i]).reachable,
    ensures
        failures_among(sv.displays, ids(sv.displays), ev) == Seq::<ErrorView>::empty(),
        after_round(sv, ev).displays.len() == sv.displays.len(),
        forall|i: int|
            0 <= i < sv.displays.len() && sv.displays[i].id != ev.origin ==> {
                let d = #[trigger] after_round(sv, ev).displays[i];
                d.id == sv.displays[i].id && d.primary == ev.primary && d.clipboard == ev.clipboard
            },
        forall|i: int|
            0 <= i < sv.displays.len() && sv.displays[i].id == ev.origin ==> {
                let d = #[trigger] after_round(sv, ev).displays[i];
                d.id == sv.displays[i].id && d.primary == sv.displays[i].primary && d.clipboard
                    == sv.displays[i].clipboard
            },
{
    let ds = sv.displays;
    lemma_failures(ds, ids(ds), ev);
    assert forall|id: Seq<char>| ids(ds).contains(id) && id != ev.origin implies reachable(
        ds,
        id,
    ) by {
        let j = choose|j: int| 0 <= j < ids(ds).len() && ids(ds)[j] == id;
        assert(ds[j].id == id && ds[j].reachable);
    }
}

/// A round leaves the slots of a display that already holds the snapshot as
/// they are, and reports no failure for it if it can be reached.
pub proof fn lemma_round_noop(sv: SessionView, ev: EventView, i: int)
    requires
        0 <= i < sv.displays.len(),
        sv.displays[i].primary == ev.primary,
        sv.displays[i].clipboard == ev.clipboard,
    ensures
        after_round(sv, ev).displays[i] == (DisplayView { changed: false, ..sv.displays[i] }),
        sv.displays[i].reachable ==> forall|k: int|
            0 <= k < failures_among(sv.displays, ids(sv.displays), ev).len() ==> (
            #[trigger] failures_among(sv.displays, ids(sv.displays), ev)[k])->Write_display
                != sv.displays[i].id,
{
    let ds = sv.displays;
    lemma_failures(ds, ids(ds), ev);
}

/// A round on an idle session whose displays all hold the snapshot, with no
/// signal pending, changes nothing at all.
pub proof fn lemma_round_noop_everywhere(sv: SessionView, ev: EventView)
    requires
        sv.state == SyncState::Idle,
        forall|i: int|
            0 <= i < sv.displays.len() ==> {
                let d = #[trigger] sv.displays[i];
                d.primary == ev.primary && d.clipboard == ev.clipboard && !d.changed
            },
    ensures
        after_round(sv, ev) == sv,
{
    assert(after_round(sv, ev).displays =~= sv.displays);
}

} // verus!
