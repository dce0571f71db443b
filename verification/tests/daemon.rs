use cce_cloud::daemon::{Daemon, DaemonAction, DaemonEvent, Phase};

fn frame(exit: bool, next: Option<u64>, selected: Option<&str>) -> DaemonEvent {
    DaemonEvent::Frame { exit, next, selected: selected.map(|s| s.to_string()) }
}

/// A daemon that shows the popup of a client.
fn showing(client: u64) -> Daemon {
    let mut d = Daemon::new();
    let done = d.step(&DaemonEvent::Connected { client });
    assert!(matches!(done[..], [DaemonAction::Read { client: c }] if c == client));
    let done = d.step(&DaemonEvent::Requested);
    assert!(matches!(done[..], [DaemonAction::Open { client: c }] if c == client));
    d
}

#[test]
fn a_session_ends_with_its_answer() {
    let mut d = showing(1);
    assert!(matches!(d.step(&frame(false, None, None))[..], [DaemonAction::Draw { client: 1 }]));
    let done = d.step(&frame(true, None, Some("item")));
    assert!(matches!(
        &done[..],
        [
            DaemonAction::Send { client: 1, line },
            DaemonAction::Close { client: 1 },
            DaemonAction::Dismiss { client: 1 },
            DaemonAction::Await,
        ] if line == "item\n"
    ));
    assert_eq!(d.phase, Phase::Waiting);
}

#[test]
fn another_client_takes_over_after_the_answer() {
    let mut d = showing(1);
    let done = d.step(&frame(false, Some(2), None));
    assert!(matches!(
        &done[..],
        [
            DaemonAction::Send { client: 1, line },
            DaemonAction::Close { client: 1 },
            DaemonAction::Dismiss { client: 1 },
            DaemonAction::Read { client: 2 },
        ] if line == "\n"
    ));
    assert_eq!(d.phase, Phase::Reading { client: 2 });
}

#[test]
fn one_popup_is_open_at_a_time() {
    let mut d = Daemon::new();
    let mut open: Option<u64> = None;
    let mut answered: Vec<u64> = Vec::new();
    let events = [
        DaemonEvent::Connected { client: 1 },
        DaemonEvent::Requested,
        frame(false, None, None),
        frame(false, Some(2), None),
        DaemonEvent::NoRequest,
        DaemonEvent::Connected { client: 3 },
        DaemonEvent::Requested,
        frame(true, Some(4), Some("x")),
        DaemonEvent::Requested,
        frame(true, None, None),
    ];
    for e in &events {
        for action in d.step(e) {
            match action {
                DaemonAction::Open { client } => {
                    assert_eq!(open, None);
                    open = Some(client);
                }
                DaemonAction::Read { .. } => assert_eq!(open, None),
                DaemonAction::Send { client, .. } => {
                    assert_eq!(open, Some(client));
                    answered.push(client);
                }
                DaemonAction::Close { client } => {
                    assert_eq!(open, Some(client));
                    assert_eq!(answered.last(), Some(&client));
                    open = None;
                }
                _ => {}
            }
        }
    }
    assert_eq!(answered, vec![1, 3, 4]);
    assert_eq!(d.phase, Phase::Waiting);
}

#[test]
fn a_bad_request_holds_nobody_up() {
    let mut d = Daemon::new();
    d.step(&DaemonEvent::Connected { client: 1 });
    let done = d.step(&DaemonEvent::NoRequest);
    assert!(matches!(done[..], [DaemonAction::Dismiss { client: 1 }, DaemonAction::Await]));
    d.step(&DaemonEvent::Connected { client: 2 });
    let done = d.step(&DaemonEvent::Refused { reason: "why".to_string() });
    assert!(matches!(
        &done[..],
        [
            DaemonAction::Send { client: 2, line },
            DaemonAction::Dismiss { client: 2 },
            DaemonAction::Await,
        ] if line == "Failed to parse JSON layout: why\n"
    ));
    assert_eq!(d.phase, Phase::Waiting);
}

#[test]
fn what_cannot_happen_changes_nothing() {
    let mut d = Daemon::new();
    assert!(d.step(&frame(true, None, None)).is_empty());
    assert!(d.step(&DaemonEvent::Requested).is_empty());
    assert_eq!(d.phase, Phase::Waiting);
    let mut d = showing(7);
    assert!(d.step(&DaemonEvent::Connected { client: 8 }).is_empty());
    assert_eq!(d.phase, Phase::Showing { client: 7 });
}
