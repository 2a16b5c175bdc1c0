//! Encoding and decoding of the wire frames.
//!
//! No frame carries a length: a field ends at a sentinel byte (`0` or `:`), at a
//! fixed width (the two port bytes), or at the zeros that fill a receive buffer
//! after the bytes read.
use vstd::prelude::*;
use vstd::utf8::valid_utf8;

use crate::client::ClientError;
use crate::server::ServerError;
use crate::{append_bytes, field, get_data, is_utf8, take_until, Addr, AddrView};

verus! {

/// Tag of a registration request, client to server.
pub const TAG_BROADCAST_ID: u8 = 1;

/// Tag of a direct message, peer to peer.
pub const TAG_MESSAGE: u8 = 2;

/// Tag of an address request, client to server.
pub const TAG_GET_CLIENT_ADDR: u8 = 3;

/// Tag of an acknowledgement, peer to peer.
pub const TAG_PEER_ACK: u8 = 4;

/// Tag of an acknowledgement, server to client.
pub const TAG_SERVER_ACK: u8 = 1;

/// The byte `:` that ends a host field.
pub const COLON: u8 = 58;

/// The big-endian bytes of a port.
pub open spec fn port_bytes(port: u16) -> Seq<u8> {
    seq![(port / 256) as u8, (port % 256) as u8]
}

/// The port whose big-endian bytes are `hi`, `lo`.
pub open spec fn port_from(hi: u8, lo: u8) -> u16 {
    (hi as int * 256 + lo as int) as u16
}

/// `[1] id [0] host [:] port`
pub open spec fn broadcast_id_frame(id: Seq<u8>, host: Seq<u8>, port: u16) -> Seq<u8> {
    seq![TAG_BROADCAST_ID] + id + seq![0u8] + host + seq![COLON] + port_bytes(port)
}

/// `[3] target`
pub open spec fn get_client_addr_frame(target: Seq<u8>) -> Seq<u8> {
    seq![TAG_GET_CLIENT_ADDR] + target
}

/// `[2] body`
pub open spec fn message_frame(body: Seq<u8>) -> Seq<u8> {
    seq![TAG_MESSAGE] + body
}

/// `[1] host [:] port`, the server's answer to an address request.
pub open spec fn addr_response_frame(a: AddrView) -> Seq<u8> {
    seq![TAG_SERVER_ACK] + a.0 + seq![COLON] + port_bytes(a.1)
}

/// What a registration request in `buf` (tag byte included) decodes to.
pub open spec fn decode_broadcast_id_spec(buf: Seq<u8>) -> Result<(Seq<u8>, AddrView), ServerError> {
    let id = field(buf, 1, 0);
    let host = field(buf, id.len() + 2int, COLON);
    let at: int = id.len() + host.len() + 3int;
    if !valid_utf8(id) {
        Err(ServerError::InvalidIdentifier)
    } else if !valid_utf8(host) {
        Err(ServerError::InvalidClientAddress)
    } else if at + 2 > buf.len() {
        Err(ServerError::InvalidClientPort)
    } else {
        Ok((id, (host, port_from(buf[at], buf[at + 1]))))
    }
}

/// What the server's answer to an address request in `buf` (tag byte included) decodes to.
pub open spec fn decode_addr_response_spec(buf: Seq<u8>) -> Result<AddrView, ClientError> {
    let host = field(buf, 1, COLON);
    let at: int = host.len() + 2int;
    if !valid_utf8(host) || at + 2 > buf.len() {
        Err(ClientError::InvalidServerResponse)
    } else {
        Ok((host, port_from(buf[at], buf[at + 1])))
    }
}

/// What the body of a direct message in `buf` (tag byte included) decodes to.
pub open spec fn decode_message_spec(buf: Seq<u8>) -> Result<Seq<u8>, ClientError> {
    let body = field(buf, 1, 0);
    if valid_utf8(body) {
        Ok(body)
    } else {
        Err(ClientError::InvalidClientResponse)
    }
}

fn push_port(v: &mut Vec<u8>, port: u16)
    ensures
        final(v)@ == old(v)@ + port_bytes(port),
{
    v.push((port / 256) as u8);
    v.push((port % 256) as u8);
    assert(final(v)@ =~= old(v)@ + port_bytes(port));
}

fn read_port(buf: &[u8], at: usize) -> (r: u16)
    requires
        at + 2 <= buf@.len(),
    ensures
        r == port_from(buf@[at as int], buf@[at + 1]),
{
    let hi = buf[at] as u16;
    let lo = buf[at + 1] as u16;
    assert(hi * 256 + lo <= 65535) by (nonlinear_arith)
        requires
            hi <= 255,
            lo <= 255,
    ;
    hi * 256 + lo
}

/// Builds a registration request.
pub fn encode_broadcast_id(id: &[u8], host: &[u8], port: u16) -> (r: Vec<u8>)
    ensures
        r@ == broadcast_id_frame(id@, host@, port),
{
    let mut r: Vec<u8> = vec![TAG_BROADCAST_ID];
    append_bytes(&mut r, id);
    r.push(0);
    append_bytes(&mut r, host);
    r.push(COLON);
    push_port(&mut r, port);
    r
}

/// Builds an address request.
pub fn encode_get_client_addr(target: &[u8]) -> (r: Vec<u8>)
    ensures
        r@ == get_client_addr_frame(target@),
{
    let mut r: Vec<u8> = vec![TAG_GET_CLIENT_ADDR];
    append_bytes(&mut r, target);
    r
}

/// Builds a direct message.
pub fn encode_message(body: &[u8]) -> (r: Vec<u8>)
    ensures
        r@ == message_frame(body@),
{
    let mut r: Vec<u8> = vec![TAG_MESSAGE];
    append_bytes(&mut r, body);
    r
}

/// Builds the server's answer that carries an address.
pub fn encode_addr_response(a: &Addr) -> (r: Vec<u8>)
    ensures
        r@ == addr_response_frame(a@),
{
    let mut r: Vec<u8> = vec![TAG_SERVER_ACK];
    append_bytes(&mut r, a.0.as_slice());
    r.push(COLON);
    push_port(&mut r, a.1);
    r
}

/// Decodes a registration request into the identifier and the address to register.
pub fn decode_broadcast_id(buf: &[u8]) -> (r: Result<(Vec<u8>, Addr), ServerError>)
    requires
        buf@.len() <= usize::MAX - 4,
    ensures
        r matches Ok(v) ==> decode_broadcast_id_spec(buf@) == Ok::<_, ServerError>((v.0@, v.1@)),
        r matches Err(e) ==> decode_broadcast_id_spec(buf@) == Err::<(Seq<u8>, AddrView), _>(e),
{
    let id = get_data(buf, 1, 0);
    proof {
        if 1 < buf@.len() {
            crate::lemma_take_until_shape(buf@.subrange(1, buf@.len() as int), 0);
        }
    }
    let host = get_data(buf, id.len() + 2, COLON);
    proof {
        if id.len() + 2 < buf@.len() {
            crate::lemma_take_until_shape(buf@.subrange(id.len() + 2, buf@.len() as int), COLON);
        }
    }
    if !is_utf8(id.as_slice()) {
        return Err(ServerError::InvalidIdentifier);
    }
    if !is_utf8(host.as_slice()) {
        return Err(ServerError::InvalidClientAddress);
    }
    let at: usize = id.len() + host.len() + 3;
    if at + 2 > buf.len() {
        return Err(ServerError::InvalidClientPort);
    }
    let port = read_port(buf, at);
    Ok((id, Addr(host, port)))
}

/// Decodes the server's answer to an address request.
pub fn decode_addr_response(buf: &[u8]) -> (r: Result<Addr, ClientError>)
    requires
        buf@.len() <= usize::MAX - 4,
    ensures
        r matches Ok(a) ==> decode_addr_response_spec(buf@) == Ok::<_, ClientError>(a@),
        r matches Err(e) ==> decode_addr_response_spec(buf@) == Err::<AddrView, _>(e),
{
    let host = get_data(buf, 1, COLON);
    proof {
        if 1 < buf@.len() {
            crate::lemma_take_until_shape(buf@.subrange(1, buf@.len() as int), COLON);
        }
    }
    if !is_utf8(host.as_slice()) {
        return Err(ClientError::InvalidServerResponse);
    }
    let at: usize = host.len() + 2;
    if at + 2 > buf.len() {
        return Err(ClientError::InvalidServerResponse);
    }
    let port = read_port(buf, at);
    Ok(Addr(host, port))
}

/// Decodes the body of a direct message.
pub fn decode_message(buf: &[u8]) -> (r: Result<Vec<u8>, ClientError>)
    ensures
        r matches Ok(b) ==> decode_message_spec(buf@) == Ok::<_, ClientError>(b@),
        r matches Err(e) ==> decode_message_spec(buf@) == Err::<Seq<u8>, _>(e),
{
    let body = get_data(buf, 1, 0);
    if is_utf8(body.as_slice()) {
        Ok(body)
    } else {
        Err(ClientError::InvalidClientResponse)
    }
}

proof fn lemma_port_bytes(port: u16)
    ensures
        port_from(port_bytes(port)[0], port_bytes(port)[1]) == port,
{
}

/// A registration request decodes to the identifier, host and port it was built
/// from, when neither field holds its sentinel byte and both are valid UTF-8,
/// whatever follows the frame in the buffer.
pub proof fn lemma_broadcast_id_round_trip(id: Seq<u8>, host: Seq<u8>, port: u16, tail: Seq<u8>)
    requires
        !id.contains(0u8),
        !host.contains(COLON),
        valid_utf8(id),
        valid_utf8(host),
    ensures
        decode_broadcast_id_spec(broadcast_id_frame(id, host, port) + tail) == Ok::<
            _,
            ServerError,
        >((id, (host, port))),
{
    let s = broadcast_id_frame(id, host, port) + tail;
    let after_id = host + seq![COLON] + port_bytes(port) + tail;
    assert(s.subrange(1, s.len() as int) =~= id + seq![0u8] + after_id);
    crate::lemma_take_until_sentinel(id, 0u8, after_id);
    let after_host = port_bytes(port) + tail;
    assert(s.subrange(id.len() + 2int, s.len() as int) =~= host + seq![COLON] + after_host);
    crate::lemma_take_until_sentinel(host, COLON, after_host);
    let at: int = id.len() + host.len() + 3int;
    assert(s[at] == port_bytes(port)[0]);
    assert(s[at + 1] == port_bytes(port)[1]);
    lemma_port_bytes(port);
}

/// The server's answer carrying an address decodes to that address, when the host
/// holds no `:` and is valid UTF-8, whatever follows the frame in the buffer.
pub proof fn lemma_addr_response_round_trip(a: AddrView, tail: Seq<u8>)
    requires
        !a.0.contains(COLON),
        valid_utf8(a.0),
    ensures
        decode_addr_response_spec(addr_response_frame(a) + tail) == Ok::<_, ClientError>(a),
{
    let s = addr_response_frame(a) + tail;
    let after_host = port_bytes(a.1) + tail;
    assert(s.subrange(1, s.len() as int) =~= a.0 + seq![COLON] + after_host);
    crate::lemma_take_until_sentinel(a.0, COLON, after_host);
    let at: int = a.0.len() + 2int;
    assert(s[at] == port_bytes(a.1)[0]);
    assert(s[at + 1] == port_bytes(a.1)[1]);
    lemma_port_bytes(a.1);
}

/// A direct message decodes to its body, when the body holds no zero byte and is
/// valid UTF-8, in a buffer whose bytes after the frame are zeros.
pub proof fn lemma_message_round_trip(body: Seq<u8>, zeros: nat)
    requires
        !body.contains(0u8),
        valid_utf8(body),
    ensures
        decode_message_spec(message_frame(body) + Seq::new(zeros, |i: int| 0u8)) == Ok::<
            _,
            ClientError,
        >(body),
{
    let z = Seq::new(zeros, |i: int| 0u8);
    let s = message_frame(body) + z;
    assert(s.len() == 1 + body.len() + zeros);
    if zeros == 0 && body.len() == 0 {
        assert(field(s, 1, 0u8) =~= body);
    } else if zeros == 0 {
        assert(s.subrange(1, s.len() as int) =~= body);
        crate::lemma_take_until_shape(body, 0u8);
        if take_until(body, 0u8).len() < body.len() {
            assert(body.contains(0u8));
        }
        assert(take_until(body, 0u8) =~= body);
    } else {
        let rest = z.drop_first();
        assert(s.subrange(1, s.len() as int) =~= body + seq![0u8] + rest);
        crate::lemma_take_until_sentinel(body, 0u8, rest);
        assert(field(s, 1, 0u8) == body);
    }
}

} // verus!
