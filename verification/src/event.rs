//! The values that travel between the parts of the synchroniser: selection
//! slots, captured snapshots, the steps of a round, and the errors.

use vstd::prelude::*;

verus! {

/// One of the two selection buffers that every display has.
#[derive(Clone, Copy, Debug, PartialEq, Eq, Structural)]
pub enum Slot {
    Primary,
    Clipboard,
}

/// The name under which the selection tools know a slot.
pub open spec fn slot_name(slot: Slot) -> Seq<char> {
    match slot {
        Slot::Primary => "primary"@,
        Slot::Clipboard => "clipboard"@,
    }
}

impl Slot {
    /// The name under which the selection tools know this slot.
    pub fn name(&self) -> (name: &'static str)
        ensures
            name@ == slot_name(*self),
    {
        match self {
            Slot::Primary => "primary",
            Slot::Clipboard => "clipboard",
        }
    }
}

/// A copy of `bytes`.
pub(crate) fn copy_of(bytes: &Vec<u8>) -> (copy: Vec<u8>)
    ensures
        copy@ == bytes@,
{
    let copy = bytes.clone();
    assert(copy@ =~= bytes@);
    copy
}

/// A snapshot of both slots of one display, taken when that display
/// signalled a change. The contents are captured once and never read again.
#[derive(Clone, Debug, PartialEq, Eq)]
pub struct ChangeEvent {
    pub origin: String,
    pub primary: Vec<u8>,
    pub clipboard: Vec<u8>,
}

/// A snapshot as plain values.
pub struct EventView {
    pub origin: Seq<char>,
    pub primary: Seq<u8>,
    pub clipboard: Seq<u8>,
}

impl View for ChangeEvent {
    type V = EventView;

    open spec fn view(&self) -> EventView {
        EventView { origin: self.origin@, primary: self.primary@, clipboard: self.clipboard@ }
    }
}

impl DeepView for ChangeEvent {
    type V = EventView;

    open spec fn deep_view(&self) -> EventView {
        self@
    }
}

impl ChangeEvent {
    /// The snapshot `(primary, clipboard)` taken on display `origin`.
    pub fn new(origin: String, primary: Vec<u8>, clipboard: Vec<u8>) -> (event: ChangeEvent)
        ensures
            event@ == (EventView { origin: origin@, primary: primary@, clipboard: clipboard@ }),
    {
        ChangeEvent { origin, primary, clipboard }
    }
}

/// One step of a propagation round, in the order in which the round's script
/// lists them.
#[derive(Clone, Debug, PartialEq, Eq)]
pub enum Action {
    /// Open the propagation window.
    SetPropagating,
    /// Set one slot of one display.
    Write { display: String, slot: Slot, value: Vec<u8> },
    /// Wait, so that the displays just written can signal their change and
    /// have it discarded.
    Settle { millis: u64 },
    /// Close the propagation window.
    SetIdle,
}

/// A step as plain values.
pub enum ActionView {
    SetPropagating,
    Write { display: Seq<char>, slot: Slot, value: Seq<u8> },
    Settle { millis: u64 },
    SetIdle,
}

impl View for Action {
    type V = ActionView;

    open spec fn view(&self) -> ActionView {
        match *self {
            Action::SetPropagating => ActionView::SetPropagating,
            Action::Write { display, slot, value } => ActionView::Write {
                display: display@,
                slot,
                value: value@,
            },
            Action::Settle { millis } => ActionView::Settle { millis },
            Action::SetIdle => ActionView::SetIdle,
        }
    }
}

impl DeepView for Action {
    type V = ActionView;

    open spec fn deep_view(&self) -> ActionView {
        self@
    }
}

/// What can go wrong, by the part that it stops.
#[derive(Clone, Debug, PartialEq, Eq)]
pub enum SyncError {
    /// The displays could not be listed, or there is none. Stops the start.
    Discovery,
    /// Waiting for a change on a display failed. Stops that display's watcher.
    Notification { display: String },
    /// A slot could not be read after a change. Stops that display's watcher.
    Read { display: String, slot: Slot },
    /// A slot could not be written. The round goes on with the next step.
    Write { display: String, slot: Slot },
}

/// An error as plain values.
pub enum ErrorView {
    Discovery,
    Notification { display: Seq<char> },
    Read { display: Seq<char>, slot: Slot },
    Write { display: Seq<char>, slot: Slot },
}

impl View for SyncError {
    type V = ErrorView;

    open spec fn view(&self) -> ErrorView {
        match *self {
            SyncError::Discovery => ErrorView::Discovery,
            SyncError::Notification { display } => ErrorView::Notification { display: display@ },
            SyncError::Read { display, slot } => ErrorView::Read { display: display@, slot },
            SyncError::Write { display, slot } => ErrorView::Write { display: display@, slot },
        }
    }
}

impl DeepView for SyncError {
    type V = ErrorView;

    open spec fn deep_view(&self) -> ErrorView {
        self@
    }
}

/// How far an error reaches.
#[derive(Clone, Copy, Debug, PartialEq, Eq, Structural)]
pub enum Reach {
    /// The whole synchroniser: it does not start.
    Start,
    /// The watcher of one display: it ends, the others go on.
    Watcher,
    /// One write of a round: the round goes on with its next step.
    Write,
}

/// How far each kind of error reaches.
pub open spec fn reach_of(e: ErrorView) -> Reach {
    match e {
        ErrorView::Discovery => Reach::Start,
        ErrorView::Notification { .. } => Reach::Watcher,
        ErrorView::Read { .. } => Reach::Watcher,
        ErrorView::Write { .. } => Reach::Write,
    }
}

impl SyncError {
    /// How far this error reaches. Nothing is ever tried again.
    pub fn reach(&self) -> (reach: Reach)
        ensures
            reach == reach_of(self@),
    {
        match self {
            SyncError::Discovery => Reach::Start,
            SyncError::Notification { .. } => Reach::Watcher,
            SyncError::Read { .. } => Reach::Watcher,
            SyncError::Write { .. } => Reach::Write,
        }
    }
}

} // verus!
