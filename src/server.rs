//! The rendezvous server: one request per connection, answered from its registry.
use vstd::prelude::*;
use vstd::utf8::valid_utf8;

use crate::frame::{
    broadcast_id_frame, get_client_addr_frame, lemma_broadcast_id_round_trip, COLON,
    addr_response_frame, decode_broadcast_id, decode_broadcast_id_spec, encode_addr_response,
    TAG_BROADCAST_ID, TAG_GET_CLIENT_ADDR, TAG_SERVER_ACK,
};
use crate::table::AddrIndex;
use crate::{field, get_data, is_utf8, zero_filled, zero_filled_spec, Addr, AddrView, BUFFER_SIZE};

verus! {

/// Why the server turned a request down. Each one ends only the connection it came on.
#[derive(Debug, Clone, Copy, PartialEq, Eq, Structural)]
pub enum ServerError {
    /// The identifier of a registration is not valid UTF-8.
    InvalidIdentifier,
    /// The host of a registration is not valid UTF-8.
    InvalidClientAddress,
    /// The two port bytes of a registration do not fit in the buffer.
    InvalidClientPort,
    /// The identifier of an address request is not valid UTF-8.
    InvalidClientTarget,
    /// The request is empty, too long, or carries an unknown tag.
    InvalidClientMessage,
    /// The transport failed.
    IoError,
}

/// Frames that the server sends.
#[derive(Debug, Clone, Copy, PartialEq, Eq, Structural)]
pub enum ServerMessageType {
    Ack,
}

impl ServerMessageType {
    /// The tag byte of the frame.
    pub fn as_byte(self) -> (r: u8)
        ensures
            r == crate::frame::TAG_SERVER_ACK,
    {
        crate::frame::TAG_SERVER_ACK
    }
}

/// Host the rendezvous server listens on by default.
pub const SERVER_ADDRESS: &'static str = "127.0.0.1";

/// Port the rendezvous server listens on by default.
pub const SERVER_PORT: u16 = 8080;

/// The registry as a map from identifier to address.
pub type Registry = Map<Seq<u8>, AddrView>;

/// What the server answers to the request bytes `req` read on one connection, and
/// its registry afterwards. `Ok(None)` closes the connection without writing.
pub open spec fn handle_spec(reg: Registry, req: Seq<u8>) -> (
    Result<Option<Seq<u8>>, ServerError>,
    Registry,
) {
    if req.len() == 0 || req.len() >= BUFFER_SIZE {
        (Err(ServerError::InvalidClientMessage), reg)
    } else {
        let buf = zero_filled_spec(req);
        if buf[0] == TAG_BROADCAST_ID {
            match decode_broadcast_id_spec(buf) {
                Ok((id, a)) => (Ok(Some(seq![TAG_SERVER_ACK])), reg.insert(id, a)),
                Err(e) => (Err(e), reg),
            }
        } else if buf[0] == TAG_GET_CLIENT_ADDR {
            let id = field(buf, 1, 0);
            if !valid_utf8(id) {
                (Err(ServerError::InvalidClientTarget), reg)
            } else if reg.contains_key(id) {
                (Ok(Some(addr_response_frame(reg[id]))), reg)
            } else {
                (Ok(None), reg)
            }
        } else {
            (Err(ServerError::InvalidClientMessage), reg)
        }
    }
}

/// The value of an answer.
pub open spec fn reply_view(r: Result<Option<Vec<u8>>, ServerError>) -> Result<Option<Seq<u8>>, ServerError> {
    match r {
        Ok(Some(v)) => Ok(Some(v@)),
        Ok(None) => Ok(None),
        Err(e) => Err(e),
    }
}

/// The rendezvous server: its own address, its receive buffer and its registry.
pub struct CentralServer {
    addr: Addr,
    buffer: Vec<u8>,
    index: AddrIndex,
}

impl CentralServer {
    pub closed spec fn wf(&self) -> bool {
        self.index.wf()
    }

    /// The registry.
    pub closed spec fn registry(&self) -> Registry {
        self.index@
    }

    pub closed spec fn spec_addr(&self) -> AddrView {
        self.addr@
    }

    /// A server that listens at `addr`, with an empty registry.
    pub fn new(addr: Addr) -> (r: CentralServer)
        ensures
            r.wf(),
            r.registry() == Registry::empty(),
            r.spec_addr() == addr@,
    {
        CentralServer { addr, buffer: vec![0; BUFFER_SIZE], index: AddrIndex::new() }
    }

    /// The address the server listens at.
    pub fn addr(&self) -> (r: &Addr)
        ensures
            r@ == self.spec_addr(),
    {
        &self.addr
    }

    /// The address registered for `id`, if any.
    pub fn resolve(&self, id: &[u8]) -> (r: Option<Addr>)
        requires
            self.wf(),
        ensures
            r matches Some(a) ==> self.registry().contains_key(id@) && self.registry()[id@] == a@,
            r is None ==> !self.registry().contains_key(id@),
    {
        self.index.get(id)
    }

    /// Registers `a` for `id`, replacing any address registered before.
    pub fn register(&mut self, id: &[u8], a: Addr)
        requires
            old(self).wf(),
        ensures
            final(self).wf(),
            final(self).registry() == old(self).registry().insert(id@, a@),
            final(self).spec_addr() == old(self).spec_addr(),
    {
        self.index.insert(id, a);
    }

    /// Answers the request `request`, the bytes read on one connection. `Ok(Some(reply))`:
    /// write `reply`, then close; `Ok(None)`: close without writing; `Err`: the request
    /// is refused and only this connection ends.
    pub fn handle_client(&mut self, request: &[u8]) -> (r: Result<Option<Vec<u8>>, ServerError>)
        requires
            old(self).wf(),
        ensures
            final(self).wf(),
            (reply_view(r), final(self).registry()) == handle_spec(old(self).registry(), request@),
            final(self).spec_addr() == old(self).spec_addr(),
    {
        let n = request.len();
        if n == 0 || n >= BUFFER_SIZE {
            return Err(ServerError::InvalidClientMessage);
        }
        self.buffer = zero_filled(request);
        let tag = self.buffer[0];
        if tag == TAG_BROADCAST_ID {
            match self.handle_broadcast_id_request() {
                Ok(reply) => Ok(Some(reply)),
                Err(e) => Err(e),
            }
        } else if tag == TAG_GET_CLIENT_ADDR {
            self.handle_get_client_addr_request()
        } else {
            Err(ServerError::InvalidClientMessage)
        }
    }

    fn handle_broadcast_id_request(&mut self) -> (r: Result<Vec<u8>, ServerError>)
        requires
            old(self).wf(),
            old(self).buffer@.len() == BUFFER_SIZE,
        ensures
            final(self).wf(),
            final(self).spec_addr() == old(self).spec_addr(),
            match decode_broadcast_id_spec(old(self).buffer@) {
                Ok((id, a)) => r matches Ok(v) && v@ == seq![TAG_SERVER_ACK]
                    && final(self).registry() == old(self).registry().insert(id, a),
                Err(e) => r == Err::<Vec<u8>, _>(e) && final(self).registry() == old(self).registry(),
            },
    {
        match decode_broadcast_id(self.buffer.as_slice()) {
            Ok((id, a)) => {
                self.register(id.as_slice(), a);
                Ok(vec![ServerMessageType::Ack.as_byte()])
            },
            Err(e) => Err(e),
        }
    }

    fn handle_get_client_addr_request(&self) -> (r: Result<Option<Vec<u8>>, ServerError>)
        requires
            self.wf(),
            self.buffer@.len() == BUFFER_SIZE,
        ensures
            ({
                let id = field(self.buffer@, 1, 0);
                reply_view(r) == if !valid_utf8(id) {
                    Err(ServerError::InvalidClientTarget)
                } else if self.registry().contains_key(id) {
                    Ok(Some(addr_response_frame(self.registry()[id])))
                } else {
                    Ok::<Option<Seq<u8>>, ServerError>(None)
                }
            }),
    {
        let id = get_data(self.buffer.as_slice(), 1, 0);
        if !is_utf8(id.as_slice()) {
            return Err(ServerError::InvalidClientTarget);
        }
        match self.index.get(id.as_slice()) {
            Some(a) => Ok(Some(encode_addr_response(&a))),
            None => Ok(None),
        }
    }
}

/// A registration request that fits the buffer, whose identifier holds no zero byte
/// and whose host holds no `:`, both valid UTF-8, is acknowledged and registers the
/// address for the identifier, replacing any earlier one.
pub proof fn lemma_registration_accepted(reg: Registry, id: Seq<u8>, host: Seq<u8>, port: u16)
    requires
        broadcast_id_frame(id, host, port).len() < BUFFER_SIZE,
        !id.contains(0u8),
        !host.contains(COLON),
        valid_utf8(id),
        valid_utf8(host),
    ensures
        handle_spec(reg, broadcast_id_frame(id, host, port)) == (
            Ok::<_, ServerError>(Some(seq![TAG_SERVER_ACK])),
            reg.insert(id, (host, port)),
        ),
{
    let f = broadcast_id_frame(id, host, port);
    let zeros = Seq::new((BUFFER_SIZE - f.len()) as nat, |i: int| 0u8);
    lemma_broadcast_id_round_trip(id, host, port, zeros);
    assert(zero_filled_spec(f) == f + zeros);
    assert((f + zeros)[0] == TAG_BROADCAST_ID);
}

/// An address request for an identifier that fits the buffer, holds no zero byte and
/// is valid UTF-8 is answered with the registered address, or, when none is
/// registered, closed without any payload; the registry stays as it was.
pub proof fn lemma_lookup_request(reg: Registry, id: Seq<u8>)
    requires
        get_client_addr_frame(id).len() < BUFFER_SIZE,
        !id.contains(0u8),
        valid_utf8(id),
    ensures
        handle_spec(reg, get_client_addr_frame(id)).1 == reg,
        reg.contains_key(id) ==> handle_spec(reg, get_client_addr_frame(id)).0 == Ok::<
            _,
            ServerError,
        >(Some(addr_response_frame(reg[id]))),
        !reg.contains_key(id) ==> handle_spec(reg, get_client_addr_frame(id)).0 == Ok::<
            Option<Seq<u8>>,
            ServerError,
        >(None),
{
    let f = get_client_addr_frame(id);
    let n = (BUFFER_SIZE - f.len()) as nat;
    let rest = Seq::new((n - 1) as nat, |i: int| 0u8);
    let buf = zero_filled_spec(f);
    assert(buf[0] == TAG_GET_CLIENT_ADDR);
    assert(buf.subrange(1, buf.len() as int) =~= id + seq![0u8] + rest);
    crate::lemma_take_until_sentinel(id, 0u8, rest);
}

/// Registering the same identifier twice, with two addresses, leaves only the second
/// one resolvable: the registry holds it, and an address request is answered with it.
pub proof fn lemma_register_twice(
    reg: Registry,
    id: Seq<u8>,
    host1: Seq<u8>,
    port1: u16,
    host2: Seq<u8>,
    port2: u16,
)
    requires
        broadcast_id_frame(id, host1, port1).len() < BUFFER_SIZE,
        broadcast_id_frame(id, host2, port2).len() < BUFFER_SIZE,
        !id.contains(0u8),
        !host1.contains(COLON),
        !host2.contains(COLON),
        valid_utf8(id),
        valid_utf8(host1),
        valid_utf8(host2),
    ensures
        ({
            let after = handle_spec(
                handle_spec(reg, broadcast_id_frame(id, host1, port1)).1,
                broadcast_id_frame(id, host2, port2),
            ).1;
            &&& after.contains_key(id)
            &&& after[id] == (host2, port2)
            &&& handle_spec(after, get_client_addr_frame(id)).0 == Ok::<_, ServerError>(
                Some(addr_response_frame((host2, port2))),
            )
        }),
{
    lemma_registration_accepted(reg, id, host1, port1);
    let mid = reg.insert(id, (host1, port1));
    lemma_registration_accepted(mid, id, host2, port2);
    let after = mid.insert(id, (host2, port2));
    lemma_lookup_request(after, id);
}

} // verus!
