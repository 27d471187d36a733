//! What a display's watcher does with a snapshot it has just captured.

use vstd::prelude::*;
use crate::event::{ChangeEvent, EventView};
use crate::gate::{SyncGate, SyncState};

verus! {

/// What a watcher hands on for a snapshot captured in gate state `state`:
/// the snapshot itself while watching, nothing during a propagation window.
pub open spec fn forwarded(
    state: SyncState,
    display: Seq<char>,
    primary: Seq<u8>,
    clipboard: Seq<u8>,
) -> Option<EventView> {
    match state {
        SyncState::Idle => Some(EventView { origin: display, primary, clipboard }),
        SyncState::Propagating => None,
    }
}

/// One turn of the watcher of `display`, after the display has signalled a
/// change and both slots have been read. While `gate` is idle the snapshot
/// is forwarded as an event of this display. During a propagation window it
/// is an echo of the synchroniser's own writes and is dropped, whatever it
/// holds.
pub fn watch_clip_notify(
    display: &String,
    primary: Vec<u8>,
    clipboard: Vec<u8>,
    gate: &SyncGate,
) -> (out: Option<ChangeEvent>)
    ensures
        out.is_some() == !crate::gate::propagating_in(gate@),
        out.deep_view() == forwarded(gate@, display@, primary@, clipboard@),
{
    if gate.is_propagating() {
        None
    } else {
        Some(ChangeEvent::new(display.clone(), primary, clipboard))
    }
}

} // verus!
