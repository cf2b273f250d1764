//! The connection table and command routing.

use ws::connection::{Output, Settings, State};
use ws::hub::{Action, Command, Hub, Signal, ALL};
use ws::Message;

#[test]
fn tokens_are_reused_with_fresh_generations() {
    let mut hub = Hub::new(Settings::default());
    let a = hub.add_connection().unwrap();
    let b = hub.add_connection().unwrap();
    assert_eq!(a, 0);
    assert_eq!(b, 1);

    let conn_a = hub.take(a).unwrap();
    let id_a = conn_a.connection_id();
    drop(conn_a);

    // The token is vacant again; the next connection reuses it with a new
    // generation stamp.
    let c = hub.add_connection().unwrap();
    assert_eq!(c, a);
    let conn_c = hub.take(c).unwrap();
    assert_ne!(conn_c.connection_id(), id_a);
    hub.put_back(conn_c);
}

#[test]
fn stale_generation_commands_are_dropped() {
    let mut hub = Hub::new(Settings::default());
    let tok = hub.add_connection().unwrap();
    let real_id = {
        let c = hub.take(tok).unwrap();
        let id = c.connection_id();
        hub.put_back(c);
        id
    };

    // A command carrying a stale generation stamp must fall to the floor:
    // no outputs, no actions.
    let stale = Command::new(tok, real_id.wrapping_add(1), Signal::Message(
        Message::Text("ghost".to_string()),
    ));
    let (outs, acts) = hub.handle_command(stale);
    assert!(outs.is_empty());
    assert!(acts.is_empty());
}

#[test]
fn connect_and_timeout_signals_become_actions() {
    let mut hub = Hub::new(Settings::default());
    let (outs, acts) = hub.handle_command(Command::new(
        ALL,
        0,
        Signal::Connect("ws://127.0.0.1:3012".to_string()),
    ));
    assert!(outs.is_empty());
    assert!(matches!(acts.as_slice(), [Action::Connect(url)] if url == "ws://127.0.0.1:3012"));

    let (_, acts) = hub.handle_command(Command::new(7, 3, Signal::Timeout {
        delay: 500,
        token: 42,
    }));
    assert!(
        matches!(acts.as_slice(), [Action::SetTimeout { connection: 7, event: 42, delay: 500 }])
    );

    let (_, acts) = hub.handle_command(Command::new(7, 3, Signal::Cancel(11)));
    assert!(matches!(acts.as_slice(), [Action::Cancel(11)]));
}

#[test]
fn shutdown_reaches_every_connection() {
    let mut hub = Hub::new(Settings::default());
    let a = hub.add_connection().unwrap();
    let b = hub.add_connection().unwrap();
    hub.set_active(true);

    let (outs, acts) = hub.handle_command(Command::new(ALL, 0, Signal::Shutdown));
    assert!(matches!(acts.as_slice(), [Action::Shutdown]));
    assert!(!hub.is_active());
    assert!(outs.iter().all(|(_, o)| !matches!(o, Output::Message(_))));

    // Every connection queued its goodbye close (they were still in the
    // connecting state, so the close frame is buffered for later).
    for tok in [a, b] {
        let c = hub.take(tok).unwrap();
        assert_eq!(c.state(), State::Connecting);
        hub.put_back(c);
    }
}

#[test]
fn capacity_limit_is_enforced() {
    let mut settings = Settings::default();
    settings.max_connections = 2;
    let mut hub = Hub::new(settings);
    hub.add_connection().unwrap();
    hub.add_connection().unwrap();
    let err = hub.add_connection().unwrap_err();
    assert_eq!(err.kind, ws::Kind::Capacity);
}
