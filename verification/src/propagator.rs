//! The script of one propagation round.
//!
//! A round applies one captured snapshot to every display but the one it was
//! taken on. The round is laid out here as a list of steps; whoever holds the
//! gate and the displays performs them in order.

use vstd::prelude::*;
use crate::event::{copy_of, Action, ActionView, ChangeEvent, EventView, Slot};

verus! {

/// How long a round waits between its last write and closing its window.
pub const SETTLE_MILLIS: u64 = 300;

/// The displays that a round with origin `origin` writes to: all of `ids`
/// but the origin, in the order of `ids`.
pub open spec fn targets(ids: Seq<Seq<char>>, origin: Seq<char>) -> Seq<Seq<char>> {
    ids.filter(other_than(origin))
}

/// The test that tells a round's targets from its origin.
pub open spec fn other_than(origin: Seq<char>) -> spec_fn(Seq<char>) -> bool {
    |id: Seq<char>| id != origin
}

/// The write that brings `slot` of `display` to what `ev` captured.
pub open spec fn write_of(display: Seq<char>, slot: Slot, ev: EventView) -> ActionView {
    ActionView::Write {
        display,
        slot,
        value: match slot {
            Slot::Primary => ev.primary,
            Slot::Clipboard => ev.clipboard,
        },
    }
}

/// The two writes that bring `display` to what `ev` captured: the clipboard
/// slot first, then the primary slot.
pub open spec fn writes_for(display: Seq<char>, ev: EventView) -> Seq<ActionView> {
    seq![write_of(display, Slot::Clipboard, ev), write_of(display, Slot::Primary, ev)]
}

/// All writes of a round, target by target: step `2k` is the clipboard write
/// to the `k`-th target, step `2k + 1` the primary write to it.
pub open spec fn round_writes(ev: EventView, ids: Seq<Seq<char>>) -> Seq<ActionView> {
    let t = targets(ids, ev.origin);
    Seq::new(
        2 * t.len(),
        |k: int|
            if k % 2 == 0 {
                write_of(t[k / 2], Slot::Clipboard, ev)
            } else {
                write_of(t[k / 2], Slot::Primary, ev)
            },
    )
}

/// A whole round: open the window, write, settle, close the window.
pub open spec fn round_script(ev: EventView, ids: Seq<Seq<char>>) -> Seq<ActionView> {
    seq![ActionView::SetPropagating] + round_writes(ev, ids) + seq![
        ActionView::Settle { millis: SETTLE_MILLIS },
        ActionView::SetIdle,
    ]
}

/// Listing one more display adds its two writes at the end, unless it is the
/// origin.
pub proof fn lemma_round_writes_push(ev: EventView, ids: Seq<Seq<char>>, id: Seq<char>)
    ensures
        round_writes(ev, ids.push(id)) == if id != ev.origin {
            round_writes(ev, ids) + writes_for(id, ev)
        } else {
            round_writes(ev, ids)
        },
{
    ids.lemma_filter_push(id, other_than(ev.origin));
    if id != ev.origin {
        let t = targets(ids, ev.origin);
        assert(targets(ids.push(id), ev.origin) == t.push(id));
        assert(round_writes(ev, ids.push(id)) =~= round_writes(ev, ids) + writes_for(id, ev));
    }
}

/// With no display listed there is nothing to write.
pub proof fn lemma_round_writes_empty(ev: EventView)
    ensures
        round_writes(ev, Seq::<Seq<char>>::empty()) == Seq::<ActionView>::empty(),
{
    reveal(Seq::filter);
    assert(round_writes(ev, Seq::<Seq<char>>::empty()) =~= Seq::<ActionView>::empty());
}

/// The writes that bring `display` to the snapshot of `event`, clipboard
/// slot first.
pub fn sync_values(display: String, event: &ChangeEvent) -> (writes: Vec<Action>)
    ensures
        writes.deep_view() == writes_for(display@, event@),
{
    let mut writes: Vec<Action> = Vec::new();
    writes.push(
        Action::Write {
            display: display.clone(),
            slot: Slot::Clipboard,
            value: copy_of(&event.clipboard),
        },
    );
    writes.push(Action::Write { display, slot: Slot::Primary, value: copy_of(&event.primary) });
    assert(writes.deep_view() =~= writes_for(display@, event@));
    writes
}

/// The script of the round that propagates `event` to `displays`, the
/// displays known at this moment: one pair of writes for each display other
/// than the event's origin, between opening the window and settling and
/// closing it.
pub fn sync(event: &ChangeEvent, displays: &Vec<String>) -> (script: Vec<Action>)
    ensures
        script.deep_view() == round_script(event@, displays.deep_view()),
{
    let ghost ids = displays.deep_view();
    let mut script: Vec<Action> = Vec::new();
    script.push(Action::SetPropagating);
    proof {
        lemma_round_writes_empty(event@);
        assert(ids.take(0) =~= Seq::<Seq<char>>::empty());
        assert(script.deep_view() =~= seq![ActionView::SetPropagating] + round_writes(
            event@,
            ids.take(0),
        ));
    }
    let mut i: usize = 0;
    while i < displays.len()
        invariant
            i <= displays.len(),
            ids == displays.deep_view(),
            script.deep_view() == seq![ActionView::SetPropagating] + round_writes(
                event@,
                ids.take(i as int),
            ),
        decreases displays.len() - i,
    {
        let ghost before = script.deep_view();
        proof {
            lemma_round_writes_push(event@, ids.take(i as int), ids[i as int]);
            assert(ids.take(i + 1) =~= ids.take(i as int).push(ids[i as int]));
        }
        if !(displays[i] == event.origin) {
            let mut writes = sync_values(displays[i].clone(), event);
            script.append(&mut writes);
            assert(script.deep_view() =~= before + writes_for(ids[i as int], event@));
        }
        i += 1;
    }
    script.push(Action::Settle { millis: SETTLE_MILLIS });
    script.push(Action::SetIdle);
    proof {
        assert(ids.take(i as int) =~= ids);
        assert(script.deep_view() =~= round_script(event@, ids));
    }
    script
}

/// The targets of a round are the listed displays other than the origin,
/// each as often as it is listed and in the same order.
pub proof fn lemma_targets(ids: Seq<Seq<char>>, origin: Seq<char>)
    ensures
        forall|k: int|
            0 <= k < targets(ids, origin).len() ==> ids.contains(#[trigger] targets(ids, origin)[k])
                && targets(ids, origin)[k] != origin,
        forall|id: Seq<char>|
            ids.contains(id) && id != origin ==> #[trigger] targets(ids, origin).contains(id),
        ids.no_duplicates() ==> targets(ids, origin).no_duplicates(),
        ids.no_duplicates() && ids.contains(origin) ==> targets(ids, origin).len() == ids.len() - 1,
        !ids.contains(origin) ==> targets(ids, origin) == ids,
    decreases ids.len(),
{
    if ids.len() == 0 {
        reveal(Seq::filter);
        assert(targets(ids, origin) =~= ids);
    } else {
        let prev = ids.drop_last();
        let last = ids.last();
        assert(ids =~= prev.push(last));
        lemma_targets(prev, origin);
        prev.lemma_filter_push(last, other_than(origin));
        let t = targets(ids, origin);
        let tp = targets(prev, origin);
        assert forall|k: int| 0 <= k < t.len() implies ids.contains(#[trigger] t[k]) && t[k]
            != origin by {
            if k < tp.len() {
                let j = choose|j: int| 0 <= j < prev.len() && prev[j] == tp[k];
                assert(ids[j] == t[k]);
            } else {
                assert(ids[ids.len() - 1] == t[k]);
            }
        }
        assert forall|id: Seq<char>| ids.contains(id) && id != origin implies #[trigger] t.contains(
            id,
        ) by {
            let j = choose|j: int| 0 <= j < ids.len() && ids[j] == id;
            if j < prev.len() {
                assert(prev[j] == id);
                assert(tp.contains(id));
                let k = choose|k: int| 0 <= k < tp.len() && tp[k] == id;
                assert(t[k] == id);
            } else {
                assert(t[t.len() - 1] == id);
            }
        }
        if ids.no_duplicates() {
            assert(prev.no_duplicates());
            assert(!prev.contains(last)) by {
                if prev.contains(last) {
                    let j = choose|j: int| 0 <= j < prev.len() && prev[j] == last;
                    assert(ids[j] == ids[ids.len() - 1]);
                }
            }
            assert(t.no_duplicates()) by {
                assert forall|a: int, b: int| 0 <= a < t.len() && 0 <= b < t.len() && a != b implies t[a]
                    != t[b] by {
                    if a < tp.len() && b < tp.len() {
                    } else if a < tp.len() {
                        assert(prev.contains(tp[a]));
                    } else if b < tp.len() {
                        assert(prev.contains(tp[b]));
                    }
                }
            }
            if ids.contains(origin) {
                if last == origin {
                    assert(!prev.contains(origin));
                } else {
                    let j = choose|j: int| 0 <= j < ids.len() && ids[j] == origin;
                    assert(prev[j] == origin);
                }
            }
        }
        if !ids.contains(origin) {
            assert(last != origin) by {
                assert(ids[ids.len() - 1] == last);
            }
            assert(!prev.contains(origin)) by {
                if prev.contains(origin) {
                    let j = choose|j: int| 0 <= j < prev.len() && prev[j] == origin;
                    assert(ids[j] == origin);
                }
            }
        }
    }
}

/// A round writes to every listed display other than the origin, to no
/// other display, and gives each of them both slots of the snapshot. Where
/// the `n` listed displays are distinct and the origin is one of them, these
/// are the writes to exactly `n - 1` displays.
pub proof fn lemma_fan_out_complete(ev: EventView, ids: Seq<Seq<char>>)
    ensures
        round_writes(ev, ids).len() == 2 * targets(ids, ev.origin).len(),
        ids.no_duplicates() && ids.contains(ev.origin) ==> round_writes(ev, ids).len() == 2 * (
        ids.len() - 1),
        forall|id: Seq<char>|
            ids.contains(id) && id != ev.origin ==> round_writes(ev, ids).contains(
                #[trigger] write_of(id, Slot::Clipboard, ev),
            ) && round_writes(ev, ids).contains(write_of(id, Slot::Primary, ev)),
        forall|k: int|
            0 <= k < round_writes(ev, ids).len() ==> {
                let w = #[trigger] round_writes(ev, ids)[k];
                &&& w is Write
                &&& ids.contains(w->display)
                &&& w->display != ev.origin
                &&& w == write_of(w->display, w->slot, ev)
            },
{
    let t = targets(ids, ev.origin);
    let rw = round_writes(ev, ids);
    lemma_targets(ids, ev.origin);
    assert forall|id: Seq<char>| ids.contains(id) && id != ev.origin implies rw.contains(
        #[trigger] write_of(id, Slot::Clipboard, ev),
    ) && rw.contains(write_of(id, Slot::Primary, ev)) by {
        assert(t.contains(id));
        let k = choose|k: int| 0 <= k < t.len() && t[k] == id;
        assert(rw[2 * k] == write_of(id, Slot::Clipboard, ev));
        assert(rw[2 * k + 1] == write_of(id, Slot::Primary, ev));
    }
    assert forall|k: int| 0 <= k < rw.len() implies {
        let w = #[trigger] rw[k];
        &&& w is Write
        &&& ids.contains(w->display)
        &&& w->display != ev.origin
        &&& w == write_of(w->display, w->slot, ev)
    } by {
        assert(0 <= k / 2 < t.len());
        assert(ids.contains(t[k / 2]));
    }
}

/// In a round every write to a primary slot comes directly after the write
/// to the clipboard slot of the same display. Where the listed displays are
/// distinct, a display's clipboard write therefore comes before its primary
/// write, wherever the two stand.
pub proof fn lemma_clipboard_before_primary(ev: EventView, ids: Seq<Seq<char>>)
    ensures
        forall|k: int|
            0 <= k < round_writes(ev, ids).len() && (#[trigger] round_writes(ev, ids)[k])->slot
                == Slot::Primary ==> k >= 1 && round_writes(ev, ids)[k - 1] == write_of(
                round_writes(ev, ids)[k]->display,
                Slot::Clipboard,
                ev,
            ),
        ids.no_duplicates() ==> forall|i: int, j: int|
            0 <= i < round_writes(ev, ids).len() && 0 <= j < round_writes(ev, ids).len() && (
            #[trigger] round_writes(ev, ids)[i])->slot == Slot::Clipboard && (
            #[trigger] round_writes(ev, ids)[j])->slot == Slot::Primary && round_writes(
                ev,
                ids,
            )[i]->display == round_writes(ev, ids)[j]->display ==> i < j,
{
    let t = targets(ids, ev.origin);
    let rw = round_writes(ev, ids);
    lemma_targets(ids, ev.origin);
    assert forall|k: int| 0 <= k < rw.len() && (#[trigger] rw[k])->slot == Slot::Primary implies k
        >= 1 && rw[k - 1] == write_of(rw[k]->display, Slot::Clipboard, ev) by {
        assert(k % 2 == 1);
        assert((k - 1) / 2 == k / 2);
    }
    if ids.no_duplicates() {
        assert forall|i: int, j: int|
            0 <= i < rw.len() && 0 <= j < rw.len() && (#[trigger] rw[i])->slot == Slot::Clipboard
                && (#[trigger] rw[j])->slot == Slot::Primary && rw[i]->display
                == rw[j]->display implies i < j by {
            assert(i % 2 == 0);
            assert(j % 2 == 1);
            assert(0 <= i / 2 < t.len() && 0 <= j / 2 < t.len());
            assert(t[i / 2] == t[j / 2]);
            assert(i / 2 == j / 2);
        }
    }
}

} // verus!
