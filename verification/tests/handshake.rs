use bluefin::context::BluefinHost;
use bluefin::error::BluefinError;
use bluefin::handshake::{HandshakeHandler, PendingAccept, State, Transmit};

#[test]
fn client_begins_with_a_hello() {
    let mut handler = HandshakeHandler::new(BluefinHost::Client);
    assert_eq!(
        handler.poll_tx_client_hello().err(),
        Some(BluefinError::InvalidState("Cannot poll tx client hello".to_string()))
    );
    handler.begin_with(7, 70).unwrap();
    let hello = handler.poll_tx_client_hello().unwrap().unwrap();
    assert_eq!((hello.src_conn_id, hello.packet_number), (7, 70));
    assert!(handler.poll_tx_client_hello().unwrap().is_none());
    assert!(handler.handle().is_ok());
    assert_eq!(
        handler.begin().err(),
        Some(BluefinError::InvalidState(
            "Cannot begin handshake at state: RequestingAccept".to_string()
        ))
    );
}

#[test]
fn server_begins_with_an_accept() {
    let mut handler = HandshakeHandler::new(BluefinHost::PackLeader);
    handler.begin().unwrap();
    assert_eq!(
        handler.begin().err(),
        Some(BluefinError::InvalidState(
            "Cannot begin handshake at state: PendingAccept".to_string()
        ))
    );
    assert!(handler.poll_tx_client_hello().is_err());
}

#[test]
fn draws_differ() {
    let (a, b) = (Transmit::new(), Transmit::new());
    assert_ne!((a.src_conn_id, a.packet_number), (b.src_conn_id, b.packet_number));
    let (a, b) = (PendingAccept::new(), PendingAccept::new());
    assert_ne!((a.src_conn_id, a.packet_number), (b.src_conn_id, b.packet_number));
    assert_eq!(State::ClientStart.name(), "ClientStart");
}
