use p2p_messaging_server::frame::{
    decode_addr_response, decode_broadcast_id, decode_message, encode_addr_response,
    encode_broadcast_id, encode_get_client_addr, encode_message,
};
use p2p_messaging_server::client::ClientError;
use p2p_messaging_server::server::ServerError;
use p2p_messaging_server::{bytes_eq, get_data, zero_filled, Addr, BUFFER_SIZE};

#[test]
fn get_data_stops_at_sentinel() {
    let buf = b"\x01abc\x00def".to_vec();
    assert_eq!(get_data(&buf, 1, 0), b"abc".to_vec());
    assert_eq!(get_data(&buf, 5, 0), b"def".to_vec());
    assert_eq!(get_data(&buf, 4, 0), Vec::<u8>::new());
    assert_eq!(get_data(&buf, 20, 0), Vec::<u8>::new());
    assert_eq!(get_data(b"host:xy", 0, b':'), b"host".to_vec());
}

#[test]
fn zero_filled_pads_to_capacity() {
    let buf = zero_filled(&[7, 8]);
    assert_eq!(buf.len(), BUFFER_SIZE);
    assert_eq!(&buf[..2], &[7, 8]);
    assert!(buf[2..].iter().all(|b| *b == 0));
}

#[test]
fn bytes_eq_compares_contents() {
    assert!(bytes_eq(b"abc", b"abc"));
    assert!(!bytes_eq(b"abc", b"abd"));
    assert!(!bytes_eq(b"abc", b"ab"));
    assert!(bytes_eq(b"", b""));
}

#[test]
fn broadcast_id_layout() {
    let f = encode_broadcast_id(b"peer:8001", b"127.0.0.1", 8001);
    let mut expected = vec![1u8];
    expected.extend_from_slice(b"peer:8001");
    expected.push(0);
    expected.extend_from_slice(b"127.0.0.1:");
    expected.extend_from_slice(&[0x1f, 0x41]);
    assert_eq!(f, expected);
}

#[test]
fn broadcast_id_round_trip() {
    for port in [0u16, 1, 256, 8001, 65535] {
        let f = encode_broadcast_id(b"peer:8001", b"127.0.0.1", port);
        let (id, addr) = decode_broadcast_id(&f).unwrap();
        assert_eq!(id, b"peer:8001".to_vec());
        assert_eq!(addr.0, b"127.0.0.1".to_vec());
        assert_eq!(addr.1, port);
        let (id, addr) = decode_broadcast_id(&zero_filled(&f)).unwrap();
        assert_eq!(id, b"peer:8001".to_vec());
        assert_eq!(addr.0, b"127.0.0.1".to_vec());
        assert_eq!(addr.1, port);
    }
}

#[test]
fn broadcast_id_empty_fields_round_trip() {
    let f = encode_broadcast_id(b"", b"", 9);
    let (id, addr) = decode_broadcast_id(&f).unwrap();
    assert!(id.is_empty());
    assert!(addr.0.is_empty());
    assert_eq!(addr.1, 9);
}

#[test]
fn broadcast_id_decode_errors() {
    assert_eq!(
        decode_broadcast_id(&[1, 0xff, 0, b'h', b':', 1, 2]).unwrap_err(),
        ServerError::InvalidIdentifier
    );
    assert_eq!(
        decode_broadcast_id(&[1, b'a', 0, 0xc3, b':', 1, 2]).unwrap_err(),
        ServerError::InvalidClientAddress
    );
    assert_eq!(
        decode_broadcast_id(&[1, b'a', 0, b'h', b':', 1]).unwrap_err(),
        ServerError::InvalidClientPort
    );
}

#[test]
fn other_frame_layouts() {
    assert_eq!(encode_get_client_addr(b"ghost"), b"\x03ghost".to_vec());
    assert_eq!(encode_message(b"hello"), b"\x02hello".to_vec());
    let a = Addr(b"10.0.0.2".to_vec(), 0x1234);
    assert_eq!(encode_addr_response(&a), b"\x0110.0.0.2:\x12\x34".to_vec());
}

#[test]
fn addr_response_round_trip() {
    let a = Addr(b"127.0.0.1".to_vec(), 8001);
    let back = decode_addr_response(&zero_filled(&encode_addr_response(&a))).unwrap();
    assert_eq!(back.0, a.0);
    assert_eq!(back.1, 8001);
    assert_eq!(
        decode_addr_response(&[1, 0xff, b':', 0, 1]).unwrap_err(),
        ClientError::InvalidServerResponse
    );
    assert_eq!(decode_addr_response(&[1, b'h', b':', 0]).unwrap_err(), ClientError::InvalidServerResponse);
}

#[test]
fn message_decoding() {
    assert_eq!(decode_message(&zero_filled(b"\x02hello")).unwrap(), b"hello".to_vec());
    assert_eq!(decode_message(&[2, 0xff, 0]).unwrap_err(), ClientError::InvalidClientResponse);
}
