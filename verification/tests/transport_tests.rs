use zling_core::transport::{Transport, TransportError, TransportState};

#[test]
fn connect_before_create_fails_not_created() {
    let mut t = Transport::new();
    assert_eq!(t.connect(), Err(TransportError::NotCreated));
    assert_eq!(t.state, TransportState::Uninitialized);
}

#[test]
fn create_then_connect_succeeds() {
    let mut t = Transport::new();
    assert_eq!(t.create(), Ok(()));
    assert_eq!(t.state, TransportState::Created);
    assert_eq!(t.connect(), Ok(()));
    assert_eq!(t.state, TransportState::Connected);
}

#[test]
fn second_create_fails_already_created() {
    let mut t = Transport::new();
    assert_eq!(t.create(), Ok(()));
    assert_eq!(t.create(), Err(TransportError::AlreadyCreated));
    assert_eq!(t.state, TransportState::Created);
}

#[test]
fn second_connect_fails_already_connected() {
    let mut t = Transport::new();
    t.create().unwrap();
    t.connect().unwrap();
    assert_eq!(t.connect(), Err(TransportError::AlreadyConnected));
    assert_eq!(t.state, TransportState::Connected);
}

#[test]
fn close_is_idempotent_from_any_state() {
    let mut t = Transport::new();
    t.close();
    assert_eq!(t.state, TransportState::Closed);
    t.close();
    assert_eq!(t.state, TransportState::Closed);

    let mut t2 = Transport::new();
    t2.create().unwrap();
    t2.connect().unwrap();
    t2.close();
    assert_eq!(t2.state, TransportState::Closed);
    t2.close();
    assert_eq!(t2.state, TransportState::Closed);
}

#[test]
fn closed_transport_never_reconnects() {
    let mut t = Transport::new();
    t.create().unwrap();
    t.close();
    assert_eq!(t.connect(), Err(TransportError::NotConnected));
    assert_eq!(t.create(), Err(TransportError::AlreadyCreated));
    assert_eq!(t.state, TransportState::Closed);
}
