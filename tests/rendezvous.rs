use p2p_messaging_server::client::{
    scan_step, Client, ClientError, ClientMessageType, Discovery, PortScan, FIRST_PORT, LAST_PORT,
};
use p2p_messaging_server::frame::encode_broadcast_id;
use p2p_messaging_server::server::{CentralServer, ServerError, ServerMessageType};
use p2p_messaging_server::Addr;

fn server() -> CentralServer {
    CentralServer::new(Addr(b"127.0.0.1".to_vec(), 8080))
}

fn register(s: &mut CentralServer, id: &[u8], host: &[u8], port: u16) {
    let reply = s.handle_client(&encode_broadcast_id(id, host, port)).unwrap();
    assert_eq!(reply, Some(vec![1]));
}

#[test]
fn message_type_bytes() {
    assert_eq!(ClientMessageType::BroadcastId.as_byte(), 1);
    assert_eq!(ClientMessageType::Message.as_byte(), 2);
    assert_eq!(ClientMessageType::GetClientAddr.as_byte(), 3);
    assert_eq!(ClientMessageType::Ack.as_byte(), 4);
    assert_eq!(ServerMessageType::Ack.as_byte(), 1);
}

#[test]
fn server_keeps_its_address() {
    let s = server();
    assert_eq!(s.addr().0, b"127.0.0.1".to_vec());
    assert_eq!(s.addr().1, 8080);
    assert!(s.resolve(b"anyone").is_none());
}

#[test]
fn scenario_register_then_lookup() {
    let mut s = server();
    register(&mut s, b"peer:8001", b"127.0.0.1", 8001);
    let mut b = Client::new(("127.0.0.1", 8080));
    let frame = match b.discover("peer:8001") {
        Discovery::Ask(f) => f,
        Discovery::Cached(_) => panic!("empty cache"),
    };
    let reply = s.handle_client(&frame).unwrap().unwrap();
    let addr = b.get_client_addr("peer:8001", &reply).unwrap();
    assert_eq!(addr.0, b"127.0.0.1".to_vec());
    assert_eq!(addr.1, 8001);
}

#[test]
fn registering_twice_keeps_second_address() {
    let mut s = server();
    register(&mut s, b"peer", b"10.0.0.1", 8001);
    register(&mut s, b"peer", b"10.0.0.2", 8002);
    let a = s.resolve(b"peer").unwrap();
    assert_eq!(a.0, b"10.0.0.2".to_vec());
    assert_eq!(a.1, 8002);
    let reply = s.handle_client(b"\x03peer").unwrap().unwrap();
    assert_eq!(reply, b"\x0110.0.0.2:\x1f\x42".to_vec());
}

#[test]
fn second_discover_uses_cache() {
    let mut s = server();
    register(&mut s, b"peer", b"10.0.0.1", 8001);
    let mut c = Client::new(("127.0.0.1", 8080));
    let mut server_connections = 0;
    for _ in 0..2 {
        let addr = match c.discover("peer") {
            Discovery::Cached(a) => a,
            Discovery::Ask(f) => {
                server_connections += 1;
                let reply = s.handle_client(&f).unwrap().unwrap();
                c.get_client_addr("peer", &reply).unwrap()
            }
        };
        assert_eq!(addr.0, b"10.0.0.1".to_vec());
        assert_eq!(addr.1, 8001);
    }
    assert_eq!(server_connections, 1);
}

#[test]
fn unknown_peer_is_not_found() {
    let mut s = server();
    let mut c = Client::new(("127.0.0.1", 8080));
    let frame = match c.discover("ghost") {
        Discovery::Ask(f) => f,
        Discovery::Cached(_) => panic!("empty cache"),
    };
    assert_eq!(s.handle_client(&frame), Ok(None));
    assert_eq!(c.get_client_addr("ghost", &[]).unwrap_err(), ClientError::PeerNotFound);
    assert!(matches!(c.discover("ghost"), Discovery::Ask(_)));
}

#[test]
fn scenario_message_is_acknowledged() {
    let frame = Client::message_frame("hello");
    assert_eq!(frame, b"\x02hello".to_vec());
    let (body, reply) = Client::handle_client_message(&frame).unwrap();
    assert_eq!(body, b"hello".to_vec());
    assert_eq!(reply, vec![4]);
    assert_eq!(Client::check_client_ack(&reply), Ok(()));
}

#[test]
fn listener_refuses_other_frames() {
    assert_eq!(Client::handle_client_message(&[3, b'x']), Err(ClientError::InvalidClientResponse));
    assert_eq!(Client::handle_client_message(&[]), Err(ClientError::InvalidClientResponse));
    assert_eq!(Client::handle_client_message(&[2; 128]), Err(ClientError::InvalidClientResponse));
    assert_eq!(Client::handle_client_message(&[2, 0xff]), Err(ClientError::InvalidClientResponse));
}

#[test]
fn malformed_request_ends_only_its_connection() {
    let mut s = server();
    register(&mut s, b"peer", b"10.0.0.1", 8001);
    assert_eq!(s.handle_client(&[99, 1, 2]), Err(ServerError::InvalidClientMessage));
    let reply = s.handle_client(b"\x03peer").unwrap();
    assert_eq!(reply, Some(b"\x0110.0.0.1:\x1f\x41".to_vec()));
}

#[test]
fn server_refuses_bad_lengths_and_fields() {
    let mut s = server();
    assert_eq!(s.handle_client(&[]), Err(ServerError::InvalidClientMessage));
    assert_eq!(s.handle_client(&[3; 128]), Err(ServerError::InvalidClientMessage));
    assert_eq!(s.handle_client(&[3, 0xff]), Err(ServerError::InvalidClientTarget));
    assert_eq!(s.handle_client(&[1, 0xff, 0, b'h', b':', 1, 2]), Err(ServerError::InvalidIdentifier));
    assert_eq!(s.handle_client(&[1, b'a', 0, 0xc3, b':', 1, 2]), Err(ServerError::InvalidClientAddress));
    assert!(s.resolve(b"a").is_none());
}

#[test]
fn registration_frame_needs_id_and_address() {
    let mut c = Client::new(("127.0.0.1", 8080));
    assert_eq!(c.broadcast_id().unwrap_err(), ClientError::IdNotSet);
    assert_eq!(c.set_default_id(), Err(ClientError::AddrNotSet));
    c.set_id(String::from("me"));
    assert_eq!(c.broadcast_id().unwrap_err(), ClientError::AddrNotSet);
    c.set_own_addr("127.0.0.1", 8001);
    assert_eq!(c.broadcast_id().unwrap(), b"\x01me\x00127.0.0.1:\x1f\x41".to_vec());
}

#[test]
fn default_id_is_client_and_port() {
    let mut c = Client::new(("127.0.0.1", 8080));
    assert_eq!(c.server_addr(), ("127.0.0.1", 8080));
    c.set_own_addr("127.0.0.1", 8001);
    assert_eq!(c.set_default_id(), Ok(()));
    assert_eq!(c.broadcast_id().unwrap(), b"\x01client:8001\x00127.0.0.1:\x1f\x41".to_vec());
    c.set_own_addr("127.0.0.1", 7);
    c.set_default_id().unwrap();
    assert_eq!(c.broadcast_id().unwrap(), b"\x01client:7\x00127.0.0.1:\x00\x07".to_vec());
}

#[test]
fn acknowledgements_are_checked() {
    assert_eq!(Client::check_ack(&[1]), Ok(()));
    assert_eq!(Client::check_ack(&[]), Err(ClientError::InvalidServerResponse));
    assert_eq!(Client::check_ack(&[4]), Err(ClientError::InvalidServerResponse));
    assert_eq!(Client::check_client_ack(&[4]), Ok(()));
    assert_eq!(Client::check_client_ack(&[1]), Err(ClientError::InvalidClientResponse));
}

#[test]
fn bad_server_answer_leaves_cache_alone() {
    let mut c = Client::new(("127.0.0.1", 8080));
    assert_eq!(c.get_client_addr("x", &[4, b'h']).unwrap_err(), ClientError::InvalidServerResponse);
    assert_eq!(c.get_client_addr("x", &[1; 200]).unwrap_err(), ClientError::InvalidServerResponse);
    assert!(matches!(c.discover("x"), Discovery::Ask(_)));
}

#[test]
fn port_scan_steps() {
    assert_eq!(scan_step(FIRST_PORT, true), PortScan::Bind(8000));
    assert_eq!(scan_step(FIRST_PORT, false), PortScan::Probe(8001));
    assert_eq!(scan_step(LAST_PORT, true), PortScan::Bind(8999));
    assert_eq!(scan_step(LAST_PORT, false), PortScan::Exhausted);
    assert_eq!(scan_step(9000, true), PortScan::Exhausted);
    assert_eq!(scan_step(7999, true), PortScan::Exhausted);
}

#[test]
fn register_then_resolve_directly() {
    let mut s = server();
    s.register(b"peer", Addr(b"10.0.0.1".to_vec(), 1));
    s.register(b"peer", Addr(b"10.0.0.3".to_vec(), 3));
    let a = s.resolve(b"peer").unwrap();
    assert_eq!(a.0, b"10.0.0.3".to_vec());
    assert_eq!(a.1, 3);
    assert!(s.resolve(b"other").is_none());
}
