use clipboard_sync::coordinator::sync_clipboards;
use clipboard_sync::event::{Action, ChangeEvent, Slot, SyncError};
use clipboard_sync::propagator::sync;
use clipboard_sync::round::{propagate, run};
use clipboard_sync::session::{
    read_clipboard_value, read_primary_value, read_xclip_value, write_clipboard_value,
    write_primary_value, write_xclip_value, Session,
};

fn s(text: &str) -> String {
    text.to_string()
}

fn b(text: &str) -> Vec<u8> {
    text.as_bytes().to_vec()
}

fn session_of(displays: &[(&str, &str, &str)]) -> Session {
    let mut session = Session::new();
    for (id, primary, clipboard) in displays {
        assert!(session.attach(s(id), b(primary), b(clipboard)));
    }
    session
}

fn slots(session: &Session, id: &str) -> (Vec<u8>, Vec<u8>) {
    (
        read_primary_value(session, &s(id)).unwrap(),
        read_clipboard_value(session, &s(id)).unwrap(),
    )
}

#[test]
fn new_session_is_empty_and_idle() {
    let session = Session::new();
    assert!(session.displays().is_empty());
    assert!(!session.is_propagating());
}

#[test]
fn attach_keeps_order_and_refuses_a_taken_name() {
    let mut session = session_of(&[(":0", "a", "b"), (":1", "c", "d")]);
    assert!(!session.attach(s(":0"), b("x"), b("y")));
    assert_eq!(session.displays(), vec![s(":0"), s(":1")]);
    assert_eq!(slots(&session, ":0"), (b("a"), b("b")));
    assert_eq!(slots(&session, ":1"), (b("c"), b("d")));
}

#[test]
fn read_of_an_unknown_display_fails() {
    let session = session_of(&[(":0", "a", "b")]);
    assert_eq!(
        read_primary_value(&session, &s(":7")),
        Err(SyncError::Read { display: s(":7"), slot: Slot::Primary })
    );
    assert_eq!(
        read_clipboard_value(&session, &s(":7")),
        Err(SyncError::Read { display: s(":7"), slot: Slot::Clipboard })
    );
}

#[test]
fn read_of_a_display_out_of_reach_fails() {
    let mut session = session_of(&[(":0", "a", "b")]);
    assert!(session.set_reachable(&s(":0"), false));
    assert_eq!(
        read_xclip_value(&session, &s(":0"), Slot::Clipboard),
        Err(SyncError::Read { display: s(":0"), slot: Slot::Clipboard })
    );
    assert!(session.set_reachable(&s(":0"), true));
    assert_eq!(read_xclip_value(&session, &s(":0"), Slot::Clipboard), Ok(b("b")));
}

#[test]
fn set_reachable_of_an_unknown_display_says_so() {
    let mut session = session_of(&[(":0", "a", "b")]);
    assert!(!session.set_reachable(&s(":3"), false));
    assert_eq!(slots(&session, ":0"), (b("a"), b("b")));
}

#[test]
fn write_sets_one_slot_of_one_display() {
    let mut session = session_of(&[(":0", "a", "b"), (":1", "c", "d")]);
    assert_eq!(write_primary_value(&mut session, &s(":1"), &b("P")), Ok(()));
    assert_eq!(slots(&session, ":0"), (b("a"), b("b")));
    assert_eq!(slots(&session, ":1"), (b("P"), b("d")));
    assert_eq!(write_clipboard_value(&mut session, &s(":0"), &b("C")), Ok(()));
    assert_eq!(slots(&session, ":0"), (b("a"), b("C")));
    assert_eq!(slots(&session, ":1"), (b("P"), b("d")));
}

#[test]
fn write_to_an_unknown_display_fails_and_changes_nothing() {
    let mut session = session_of(&[(":0", "a", "b")]);
    assert_eq!(
        write_primary_value(&mut session, &s(":4"), &b("P")),
        Err(SyncError::Write { display: s(":4"), slot: Slot::Primary })
    );
    assert_eq!(
        write_clipboard_value(&mut session, &s(":4"), &b("C")),
        Err(SyncError::Write { display: s(":4"), slot: Slot::Clipboard })
    );
    assert_eq!(slots(&session, ":0"), (b("a"), b("b")));
    assert!(session.poll().is_empty());
}

#[test]
fn write_to_a_display_out_of_reach_fails_and_changes_nothing() {
    let mut session = session_of(&[(":0", "a", "b")]);
    session.set_reachable(&s(":0"), false);
    assert_eq!(
        write_xclip_value(&mut session, &s(":0"), Slot::Primary, &b("P")),
        Err(SyncError::Write { display: s(":0"), slot: Slot::Primary })
    );
    session.set_reachable(&s(":0"), true);
    assert_eq!(slots(&session, ":0"), (b("a"), b("b")));
    assert!(session.poll().is_empty());
}

#[test]
fn poll_forwards_a_change_once() {
    let mut session = session_of(&[(":0", "a", "b"), (":1", "a", "b")]);
    write_clipboard_value(&mut session, &s(":1"), &b("C")).unwrap();
    assert_eq!(session.poll(), vec![ChangeEvent::new(s(":1"), b("a"), b("C"))]);
    assert!(session.poll().is_empty());
}

#[test]
fn poll_forwards_in_the_order_of_the_displays() {
    let mut session = session_of(&[(":0", "a", "b"), (":1", "a", "b"), (":2", "a", "b")]);
    write_primary_value(&mut session, &s(":2"), &b("two")).unwrap();
    write_primary_value(&mut session, &s(":0"), &b("zero")).unwrap();
    assert_eq!(
        session.poll(),
        vec![
            ChangeEvent::new(s(":0"), b("zero"), b("b")),
            ChangeEvent::new(s(":2"), b("two"), b("b")),
        ]
    );
}

#[test]
fn poll_drops_changes_while_propagating() {
    let mut session = session_of(&[(":0", "a", "b"), (":1", "a", "b")]);
    session.set_propagating();
    assert!(session.is_propagating());
    write_primary_value(&mut session, &s(":1"), &b("P")).unwrap();
    assert!(session.poll().is_empty());
    session.set_idle();
    assert!(!session.is_propagating());
    assert!(session.poll().is_empty());
    assert_eq!(slots(&session, ":1"), (b("P"), b("b")));
}

#[test]
fn a_display_that_goes_out_of_reach_loses_its_signal() {
    let mut session = session_of(&[(":0", "a", "b")]);
    write_primary_value(&mut session, &s(":0"), &b("P")).unwrap();
    session.set_reachable(&s(":0"), false);
    session.set_reachable(&s(":0"), true);
    assert!(session.poll().is_empty());
    assert_eq!(slots(&session, ":0"), (b("P"), b("b")));
}

#[test]
fn two_displays_follow_a_change_of_the_primary_slot() {
    let mut session = session_of(&[(":0", "A", "A"), (":1", "A", "A")]);
    write_primary_value(&mut session, &s(":0"), &b("B")).unwrap();
    let events = session.poll();
    assert_eq!(events, vec![ChangeEvent { origin: s(":0"), primary: b("B"), clipboard: b("A") }]);
    let script = sync(&events[0], &session.displays());
    assert_eq!(script[0], Action::SetPropagating);
    assert_eq!(script[script.len() - 2], Action::Settle { millis: 300 });
    assert_eq!(script[script.len() - 1], Action::SetIdle);
    let report = propagate(&mut session, &events[0]);
    assert!(report.failures.is_empty());
    assert!(report.forwarded.is_empty());
    assert!(!session.is_propagating());
    assert_eq!(slots(&session, ":0"), (b("B"), b("A")));
    assert_eq!(slots(&session, ":1"), (b("B"), b("A")));
    assert!(session.poll().is_empty());
}

#[test]
fn a_display_out_of_reach_does_not_stop_the_round() {
    let mut session =
        session_of(&[(":0", "A", "A"), (":1", "A", "A"), (":2", "A", "A"), (":3", "A", "A")]);
    session.set_reachable(&s(":2"), false);
    let event = ChangeEvent::new(s(":0"), b("P"), b("C"));
    let report = propagate(&mut session, &event);
    assert_eq!(
        report.failures,
        vec![
            SyncError::Write { display: s(":2"), slot: Slot::Clipboard },
            SyncError::Write { display: s(":2"), slot: Slot::Primary },
        ]
    );
    assert!(report.forwarded.is_empty());
    assert_eq!(slots(&session, ":0"), (b("A"), b("A")));
    assert_eq!(slots(&session, ":1"), (b("P"), b("C")));
    assert_eq!(slots(&session, ":3"), (b("P"), b("C")));
    session.set_reachable(&s(":2"), true);
    assert_eq!(slots(&session, ":2"), (b("A"), b("A")));
    assert!(!session.is_propagating());
}

#[test]
fn a_full_round_reaches_every_display_but_the_origin() {
    let mut session = session_of(&[(":0", "a", "b"), (":1", "c", "d"), (":2", "e", "f")]);
    let event = ChangeEvent::new(s(":1"), b("P"), b("C"));
    let report = propagate(&mut session, &event);
    assert!(report.failures.is_empty());
    assert_eq!(slots(&session, ":0"), (b("P"), b("C")));
    assert_eq!(slots(&session, ":1"), (b("c"), b("d")));
    assert_eq!(slots(&session, ":2"), (b("P"), b("C")));
}

#[test]
fn a_round_with_nothing_new_changes_nothing() {
    let mut session = session_of(&[(":0", "P", "C"), (":1", "P", "C")]);
    let event = ChangeEvent::new(s(":0"), b("P"), b("C"));
    let report = propagate(&mut session, &event);
    assert!(report.failures.is_empty());
    assert!(report.forwarded.is_empty());
    assert_eq!(slots(&session, ":0"), (b("P"), b("C")));
    assert_eq!(slots(&session, ":1"), (b("P"), b("C")));
    assert!(!session.is_propagating());
    assert!(session.poll().is_empty());
}

#[test]
fn a_round_raises_no_echo() {
    let mut session = session_of(&[(":0", "a", "b"), (":1", "a", "b"), (":2", "a", "b")]);
    write_clipboard_value(&mut session, &s(":1"), &b("new")).unwrap();
    let events = session.poll();
    assert_eq!(events.len(), 1);
    let report = propagate(&mut session, &events[0]);
    assert!(report.forwarded.is_empty());
    assert!(session.poll().is_empty());
    assert_eq!(slots(&session, ":0"), (b("a"), b("new")));
    assert_eq!(slots(&session, ":2"), (b("a"), b("new")));
}

#[test]
fn writes_without_the_window_come_back_as_echoes() {
    let mut session = session_of(&[(":0", "a", "b"), (":1", "a", "b")]);
    let script = vec![
        Action::Write { display: s(":1"), slot: Slot::Clipboard, value: b("C") },
        Action::Write { display: s(":1"), slot: Slot::Primary, value: b("P") },
        Action::Settle { millis: 300 },
    ];
    let report = run(&mut session, &script);
    assert!(report.failures.is_empty());
    assert_eq!(report.forwarded, vec![ChangeEvent::new(s(":1"), b("P"), b("C"))]);
}

#[test]
fn run_plays_the_gate_steps() {
    let mut session = session_of(&[(":0", "a", "b")]);
    let report = run(&mut session, &vec![Action::SetPropagating]);
    assert!(report.failures.is_empty() && report.forwarded.is_empty());
    assert!(session.is_propagating());
    run(&mut session, &vec![Action::SetIdle]);
    assert!(!session.is_propagating());
    let report = run(&mut session, &Vec::new());
    assert!(report.failures.is_empty() && report.forwarded.is_empty());
    assert_eq!(slots(&session, ":0"), (b("a"), b("b")));
}

#[test]
fn run_reports_each_failed_write_and_goes_on() {
    let mut session = session_of(&[(":0", "a", "b")]);
    let script = vec![
        Action::Write { display: s(":5"), slot: Slot::Primary, value: b("x") },
        Action::Write { display: s(":0"), slot: Slot::Primary, value: b("y") },
    ];
    let report = run(&mut session, &script);
    assert_eq!(report.failures, vec![SyncError::Write { display: s(":5"), slot: Slot::Primary }]);
    assert_eq!(slots(&session, ":0"), (b("y"), b("b")));
}

#[test]
fn a_round_for_an_unlisted_origin_reaches_everyone() {
    let mut session = session_of(&[(":0", "a", "b"), (":1", "a", "b")]);
    let event = ChangeEvent::new(s(":9"), b("P"), b("C"));
    let report = propagate(&mut session, &event);
    assert!(report.failures.is_empty());
    assert_eq!(slots(&session, ":0"), (b("P"), b("C")));
    assert_eq!(slots(&session, ":1"), (b("P"), b("C")));
}

#[test]
fn a_pass_brings_every_display_to_the_changed_one() {
    let mut session = session_of(&[(":0", "A", "A"), (":1", "A", "A"), (":2", "x", "y")]);
    write_primary_value(&mut session, &s(":0"), &b("B")).unwrap();
    let reports = sync_clipboards(&mut session);
    assert_eq!(reports.len(), 1);
    assert!(reports[0].failures.is_empty());
    assert!(reports[0].forwarded.is_empty());
    for id in [":0", ":1", ":2"] {
        assert_eq!(slots(&session, id), (b("B"), b("A")));
    }
    assert!(!session.is_propagating());
    assert!(sync_clipboards(&mut session).is_empty());
}

#[test]
fn a_pass_without_a_change_does_nothing() {
    let mut session = session_of(&[(":0", "a", "b"), (":1", "c", "d")]);
    assert!(sync_clipboards(&mut session).is_empty());
    assert_eq!(slots(&session, ":0"), (b("a"), b("b")));
    assert_eq!(slots(&session, ":1"), (b("c"), b("d")));
}

#[test]
fn a_pass_during_a_window_drops_the_change() {
    let mut session = session_of(&[(":0", "a", "b"), (":1", "a", "b")]);
    session.set_propagating();
    write_primary_value(&mut session, &s(":0"), &b("P")).unwrap();
    assert!(sync_clipboards(&mut session).is_empty());
    assert_eq!(slots(&session, ":1"), (b("a"), b("b")));
    assert!(session.is_propagating());
}

#[test]
fn two_changes_in_one_pass_get_one_round_each() {
    let mut session = session_of(&[(":0", "a", "b"), (":1", "a", "b"), (":2", "a", "b")]);
    write_primary_value(&mut session, &s(":0"), &b("zero")).unwrap();
    write_primary_value(&mut session, &s(":1"), &b("one")).unwrap();
    let reports = sync_clipboards(&mut session);
    assert_eq!(reports.len(), 2);
    assert_eq!(slots(&session, ":0"), (b("one"), b("b")));
    assert_eq!(slots(&session, ":1"), (b("zero"), b("b")));
    assert_eq!(slots(&session, ":2"), (b("one"), b("b")));
}

#[test]
fn a_pass_reports_the_display_out_of_reach() {
    let mut session = session_of(&[(":0", "a", "b"), (":1", "a", "b"), (":2", "a", "b")]);
    session.set_reachable(&s(":1"), false);
    write_clipboard_value(&mut session, &s(":2"), &b("C")).unwrap();
    let reports = sync_clipboards(&mut session);
    assert_eq!(reports.len(), 1);
    assert_eq!(
        reports[0].failures,
        vec![
            SyncError::Write { display: s(":1"), slot: Slot::Clipboard },
            SyncError::Write { display: s(":1"), slot: Slot::Primary },
        ]
    );
    assert_eq!(slots(&session, ":0"), (b("a"), b("C")));
    assert_eq!(slots(&session, ":2"), (b("a"), b("C")));
}
