//! An in-memory set of displays with their gate.
//!
//! Every display holds its two slots, whether it can be reached, and whether
//! it has signalled a change that its watcher has not looked at yet. A write
//! to a display sets the slot and raises that signal, whoever made the
//! write: this is why a round's own writes come back as echoes.

use vstd::prelude::*;
use crate::event::{copy_of, ChangeEvent, ErrorView, EventView, Slot, SyncError};
use crate::gate::{SyncGate, SyncState};

verus! {

/// One display as plain values.
pub struct DisplayView {
    pub id: Seq<char>,
    pub primary: Seq<u8>,
    pub clipboard: Seq<u8>,
    pub reachable: bool,
    pub changed: bool,
}

/// The displays, in the order in which they were attached, and their gate.
pub struct SessionView {
    pub displays: Seq<DisplayView>,
    pub state: SyncState,
}

/// What `slot` of `d` holds.
pub open spec fn content(d: DisplayView, slot: Slot) -> Seq<u8> {
    match slot {
        Slot::Primary => d.primary,
        Slot::Clipboard => d.clipboard,
    }
}

/// `d` after `value` was written to `slot`: the slot holds the value and the
/// display has signalled a change.
pub open spec fn with_content(d: DisplayView, slot: Slot, value: Seq<u8>) -> DisplayView {
    match slot {
        Slot::Primary => DisplayView { primary: value, changed: true, ..d },
        Slot::Clipboard => DisplayView { clipboard: value, changed: true, ..d },
    }
}

/// The names of the displays, in order.
pub open spec fn ids(ds: Seq<DisplayView>) -> Seq<Seq<char>> {
    Seq::new(ds.len(), |i: int| ds[i].id)
}

/// Whether a display named `id` is attached.
pub open spec fn known(ds: Seq<DisplayView>, id: Seq<char>) -> bool {
    exists|i: int| 0 <= i < ds.len() && #[trigger] ds[i].id == id
}

/// Whether a display named `id` is attached and can be reached.
pub open spec fn reachable(ds: Seq<DisplayView>, id: Seq<char>) -> bool {
    exists|i: int| 0 <= i < ds.len() && #[trigger] ds[i].id == id && ds[i].reachable
}

/// The displays after a write of `value` to `slot` of the display `id`.
/// Nothing changes where that display is missing or out of reach.
pub open spec fn written(
    ds: Seq<DisplayView>,
    id: Seq<char>,
    slot: Slot,
    value: Seq<u8>,
) -> Seq<DisplayView> {
    Seq::new(
        ds.len(),
        |i: int|
            if ds[i].id == id && ds[i].reachable {
                with_content(ds[i], slot, value)
            } else {
                ds[i]
            },
    )
}

/// The displays after `id` was marked as within or out of reach. A display
/// that goes out of reach takes its pending signal with it.
pub open spec fn marked(ds: Seq<DisplayView>, id: Seq<char>, reach: bool) -> Seq<DisplayView> {
    Seq::new(
        ds.len(),
        |i: int|
            if ds[i].id == id {
                DisplayView { reachable: reach, changed: ds[i].changed && reach, ..ds[i] }
            } else {
                ds[i]
            },
    )
}

/// No two displays share a name, and only a display within reach has a
/// pending signal.
pub open spec fn valid(ds: Seq<DisplayView>) -> bool {
    &&& forall|i: int, j: int| 0 <= i < j < ds.len() ==> ds[i].id != ds[j].id
    &&& forall|i: int| 0 <= i < ds.len() && ds[i].changed ==> ds[i].reachable
}

/// The test for a display with a pending signal.
pub open spec fn has_signalled() -> spec_fn(DisplayView) -> bool {
    |d: DisplayView| d.changed
}

/// The snapshot that the watcher of a display captures.
pub open spec fn snapshot_of() -> spec_fn(DisplayView) -> EventView {
    |d: DisplayView| EventView { origin: d.id, primary: d.primary, clipboard: d.clipboard }
}

/// What the watchers forward when each display with a pending signal gets
/// its turn in gate state `state`: while watching, one snapshot for each of
/// them, in order; during a propagation window, nothing.
pub open spec fn forwarded_by(ds: Seq<DisplayView>, state: SyncState) -> Seq<EventView> {
    match state {
        SyncState::Idle => ds.filter(has_signalled()).map_values(snapshot_of()),
        SyncState::Propagating => Seq::empty(),
    }
}

/// The displays after every watcher has had its turn: no signal is pending.
pub open spec fn observed(ds: Seq<DisplayView>) -> Seq<DisplayView> {
    Seq::new(ds.len(), |i: int| DisplayView { changed: false, ..ds[i] })
}

struct Display {
    id: String,
    primary: Vec<u8>,
    clipboard: Vec<u8>,
    reachable: bool,
    changed: bool,
}

impl View for Display {
    type V = DisplayView;

    closed spec fn view(&self) -> DisplayView {
        DisplayView {
            id: self.id@,
            primary: self.primary@,
            clipboard: self.clipboard@,
            reachable: self.reachable,
            changed: self.changed,
        }
    }
}

impl DeepView for Display {
    type V = DisplayView;

    closed spec fn deep_view(&self) -> DisplayView {
        self@
    }
}

/// The displays and their gate.
pub struct Session {
    displays: Vec<Display>,
    gate: SyncGate,
}

impl View for Session {
    type V = SessionView;

    closed spec fn view(&self) -> SessionView {
        SessionView { displays: self.displays.deep_view(), state: self.gate@ }
    }
}

impl Session {
    /// The invariant of a session.
    pub open spec fn wf(&self) -> bool {
        valid(self@.displays)
    }

    /// A session without displays, its gate idle.
    pub fn new() -> (session: Session)
        ensures
            session.wf(),
            session@.displays == Seq::<DisplayView>::empty(),
            session@.state == SyncState::Idle,
    {
        let session = Session { displays: Vec::new(), gate: SyncGate::new() };
        assert(session@.displays =~= Seq::<DisplayView>::empty());
        session
    }

    /// Where the display `id` stands.
    fn position(&self, id: &String) -> (at: Option<usize>)
        ensures
            match at {
                Some(i) => i < self@.displays.len() && self@.displays[i as int].id == id@,
                None => !known(self@.displays, id@),
            },
    {
        let mut i: usize = 0;
        while i < self.displays.len()
            invariant
                i <= self.displays.len(),
                forall|j: int| 0 <= j < i ==> self@.displays[j].id != id@,
            decreases self.displays.len() - i,
        {
            if self.displays[i].id == *id {
                return Some(i);
            }
            i += 1;
        }
        None
    }

    /// Attaches a display with the given contents, within reach and without
    /// a pending signal. A name that is taken is refused and nothing changes.
    pub fn attach(&mut self, id: String, primary: Vec<u8>, clipboard: Vec<u8>) -> (added: bool)
        requires
            old(self).wf(),
        ensures
            final(self).wf(),
            final(self)@.state == old(self)@.state,
            added == !known(old(self)@.displays, id@),
            added ==> final(self)@.displays == old(self)@.displays.push(
                DisplayView {
                    id: id@,
                    primary: primary@,
                    clipboard: clipboard@,
                    reachable: true,
                    changed: false,
                },
            ),
            !added ==> final(self)@.displays == old(self)@.displays,
    {
        match self.position(&id) {
            Some(_) => false,
            None => {
                let ghost d = DisplayView {
                    id: id@,
                    primary: primary@,
                    clipboard: clipboard@,
                    reachable: true,
                    changed: false,
                };
                self.displays.push(Display { id, primary, clipboard, reachable: true, changed: false });
                assert(self@.displays =~= old(self)@.displays.push(d));
                true
            },
        }
    }

    /// Puts the display `id` within or out of reach. Says whether there is
    /// such a display.
    pub fn set_reachable(&mut self, id: &String, reach: bool) -> (found: bool)
        requires
            old(self).wf(),
        ensures
            final(self).wf(),
            final(self)@.state == old(self)@.state,
            found == known(old(self)@.displays, id@),
            final(self)@.displays == marked(old(self)@.displays, id@, reach),
    {
        match self.position(id) {
            Some(i) => {
                let d = &self.displays[i];
                let next = Display {
                    id: d.id.clone(),
                    primary: copy_of(&d.primary),
                    clipboard: copy_of(&d.clipboard),
                    reachable: reach,
                    changed: d.changed && reach,
                };
                self.displays.set(i, next);
                assert(self@.displays =~= marked(old(self)@.displays, id@, reach));
                true
            },
            None => {
                assert(self@.displays =~= marked(old(self)@.displays, id@, reach));
                false
            },
        }
    }

    /// The names of the displays, in the order in which they were attached.
    pub fn displays(&self) -> (names: Vec<String>)
        ensures
            names.deep_view() == ids(self@.displays),
    {
        let mut names: Vec<String> = Vec::new();
        let mut i: usize = 0;
        while i < self.displays.len()
            invariant
                i <= self.displays.len(),
                names.deep_view() =~= ids(self@.displays).take(i as int),
            decreases self.displays.len() - i,
        {
            let ghost before = names.deep_view();
            let name = self.displays[i].id.clone();
            names.push(name);
            assert(names.deep_view() =~= before.push(name@));
            i += 1;
        }
        assert(ids(self@.displays).take(i as int) =~= ids(self@.displays));
        names
    }

    /// Whether a propagation window is open.
    pub fn is_propagating(&self) -> (open: bool)
        ensures
            open == crate::gate::propagating_in(self@.state),
    {
        self.gate.is_propagating()
    }

    /// Opens a propagation window.
    pub fn set_propagating(&mut self)
        ensures
            final(self)@.displays == old(self)@.displays,
            final(self)@.state == crate::gate::after_set_propagating(old(self)@.state),
    {
        self.gate.set_propagating();
    }

    /// Closes the propagation window.
    pub fn set_idle(&mut self)
        ensures
            final(self)@.displays == old(self)@.displays,
            final(self)@.state == crate::gate::after_set_idle(old(self)@.state),
    {
        self.gate.set_idle();
    }

    /// Gives every watcher whose display has signalled a change its turn:
    /// it captures both slots and forwards or drops the snapshot as the
    /// session's gate tells it. Returns what was forwarded, in the order of the displays.
    pub fn poll(&mut self) -> (events: Vec<ChangeEvent>)
        requires
            old(self).wf(),
        ensures
            final(self).wf(),
            final(self)@.state == old(self)@.state,
            final(self)@.displays == observed(old(self)@.displays),
            events.deep_view() == forwarded_by(old(self)@.displays, old(self)@.state),
    {
        let ghost before = self@.displays;
        let ghost state = self@.state;
        let mut events: Vec<ChangeEvent> = Vec::new();
        let mut i: usize = 0;
        proof {
            reveal(Seq::filter);
            assert(before.take(0) =~= Seq::<DisplayView>::empty());
            assert(events.deep_view() =~= forwarded_by(before.take(0), state));
        }
        while i < self.displays.len()
            invariant
                i <= self.displays.len(),
                self.displays.len() == before.len(),
                self@.state == state,
                forall|j: int| 0 <= j < i ==> self@.displays[j] == observed(before)[j],
                forall|j: int| i <= j < before.len() ==> self@.displays[j] == before[j],
                events.deep_view() == forwarded_by(before.take(i as int), state),
            decreases self.displays.len() - i,
        {
            let ghost seen = events.deep_view();
            proof {
                before.take(i as int).lemma_filter_push(before[i as int], has_signalled());
                assert(before.take(i + 1) =~= before.take(i as int).push(before[i as int]));
            }
            let d = &self.displays[i];
            if d.changed {
                let captured = crate::watcher::watch_clip_notify(
                    &d.id,
                    copy_of(&d.primary),
                    copy_of(&d.clipboard),
                    &self.gate,
                );
                let next = Display {
                    id: d.id.clone(),
                    primary: copy_of(&d.primary),
                    clipboard: copy_of(&d.clipboard),
                    reachable: d.reachable,
                    changed: false,
                };
                self.displays.set(i, next);
                match captured {
                    Some(event) => {
                        events.push(event);
                        assert(events.deep_view() =~= seen.push(snapshot_of()(before[i as int])));
                    },
                    None => {},
                }
            }
            proof {
                assert(events.deep_view() =~= forwarded_by(before.take(i + 1), state));
            }
            i += 1;
        }
        assert(before.take(i as int) =~= before);
        assert(self@.displays =~= observed(before));
        events
    }
}

/// What `slot` of the display `display` holds. Fails where the display is
/// missing or out of reach.
pub fn read_xclip_value(session: &Session, display: &String, slot: Slot) -> (out: Result<
    Vec<u8>,
    SyncError,
>)
    requires
        session.wf(),
    ensures
        out.is_ok() == reachable(session@.displays, display@),
        match out {
            Ok(value) => exists|i: int|
                0 <= i < session@.displays.len() && #[trigger] session@.displays[i].id
                    == display@ && value@ == content(session@.displays[i], slot),
            Err(e) => e@ == (ErrorView::Read { display: display@, slot }),
        },
{
    match session.position(display) {
        Some(i) => {
            let d = &session.displays[i];
            if d.reachable {
                let value = match slot {
                    Slot::Primary => copy_of(&d.primary),
                    Slot::Clipboard => copy_of(&d.clipboard),
                };
                Ok(value)
            } else {
                Err(SyncError::Read { display: display.clone(), slot })
            }
        },
        None => Err(SyncError::Read { display: display.clone(), slot }),
    }
}

/// Sets `slot` of the display `display` to `value` and raises the display's
/// signal. Fails, and changes nothing, where the display is missing or out
/// of reach.
pub fn write_xclip_value(session: &mut Session, display: &String, slot: Slot, value: &Vec<u8>) -> (out:
    Result<(), SyncError>)
    requires
        old(session).wf(),
    ensures
        final(session).wf(),
        final(session)@.state == old(session)@.state,
        final(session)@.displays == written(old(session)@.displays, display@, slot, value@),
        out.is_ok() == reachable(old(session)@.displays, display@),
        out is Err ==> out->Err_0@ == (ErrorView::Write { display: display@, slot }),
{
    match session.position(display) {
        Some(i) => {
            let d = &session.displays[i];
            if d.reachable {
                let next = match slot {
                    Slot::Primary => Display {
                        id: d.id.clone(),
                        primary: copy_of(value),
                        clipboard: copy_of(&d.clipboard),
                        reachable: true,
                        changed: true,
                    },
                    Slot::Clipboard => Display {
                        id: d.id.clone(),
                        primary: copy_of(&d.primary),
                        clipboard: copy_of(value),
                        reachable: true,
                        changed: true,
                    },
                };
                session.displays.set(i, next);
                assert(session@.displays =~= written(
                    old(session)@.displays,
                    display@,
                    slot,
                    value@,
                ));
                Ok(())
            } else {
                assert(session@.displays =~= written(
                    old(session)@.displays,
                    display@,
                    slot,
                    value@,
                ));
                Err(SyncError::Write { display: display.clone(), slot })
            }
        },
        None => {
            assert(session@.displays =~= written(old(session)@.displays, display@, slot, value@));
            Err(SyncError::Write { display: display.clone(), slot })
        },
    }
}

/// Sets the primary slot of `display`.
pub fn write_primary_value(session: &mut Session, display: &String, value: &Vec<u8>) -> (out: Result<
    (),
    SyncError,
>)
    requires
        old(session).wf(),
    ensures
        final(session).wf(),
        final(session)@.state == old(session)@.state,
        final(session)@.displays == written(
            old(session)@.displays,
            display@,
            Slot::Primary,
            value@,
        ),
        out.is_ok() == reachable(old(session)@.displays, display@),
        out is Err ==> out->Err_0@ == (ErrorView::Write { display: display@, slot: Slot::Primary }),
{
    write_xclip_value(session, display, Slot::Primary, value)
}

/// Sets the clipboard slot of `display`.
pub fn write_clipboard_value(session: &mut Session, display: &String, value: &Vec<u8>) -> (out:
    Result<(), SyncError>)
    requires
        old(session).wf(),
    ensures
        final(session).wf(),
        final(session)@.state == old(session)@.state,
        final(session)@.displays == written(
            old(session)@.displays,
            display@,
            Slot::Clipboard,
            value@,
        ),
        out.is_ok() == reachable(old(session)@.displays, display@),
        out is Err ==> out->Err_0@ == (ErrorView::Write {
            display: display@,
            slot: Slot::Clipboard,
        }),
{
    write_xclip_value(session, display, Slot::Clipboard, value)
}

/// What the primary slot of `display` holds.
pub fn read_primary_value(session: &Session, display: &String) -> (out: Result<Vec<u8>, SyncError>)
    requires
        session.wf(),
    ensures
        out.is_ok() == reachable(session@.displays, display@),
        match out {
            Ok(value) => exists|i: int|
                0 <= i < session@.displays.len() && #[trigger] session@.displays[i].id
                    == display@ && value@ == session@.displays[i].primary,
            Err(e) => e@ == (ErrorView::Read { display: display@, slot: Slot::Primary }),
        },
{
    read_xclip_value(session, display, Slot::Primary)
}

/// What the clipboard slot of `display` holds.
pub fn read_clipboard_value(session: &Session, display: &String) -> (out: Result<
    Vec<u8>,
    SyncError,
>)
    requires
        session.wf(),
    ensures
        out.is_ok() == reachable(session@.displays, display@),
        match out {
            Ok(value) => exists|i: int|
                0 <= i < session@.displays.len() && #[trigger] session@.displays[i].id
                    == display@ && value@ == session@.displays[i].clipboard,
            Err(e) => e@ == (ErrorView::Read { display: display@, slot: Slot::Clipboard }),
        },
{
    read_xclip_value(session, display, Slot::Clipboard)
}

} // verus!
