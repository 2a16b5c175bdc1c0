//! The peer agent: registers itself, finds peers through the server or its cache,
//! and answers direct messages. Connections and reads stay with the caller, which
//! hands the bytes it read to these functions and sends the bytes they return.
use vstd::prelude::*;
use vstd::string::StringSliceAdditionalSpecFns;
use vstd::utf8::encode_utf8;

use crate::frame::{
    broadcast_id_frame, decode_addr_response, decode_addr_response_spec, decode_message,
    decode_message_spec, encode_broadcast_id, encode_get_client_addr, encode_message,
    get_client_addr_frame, message_frame, TAG_MESSAGE, TAG_PEER_ACK, TAG_SERVER_ACK,
};
use crate::table::AddrIndex;
use crate::{append_bytes, zero_filled, zero_filled_spec, Addr, AddrView, Identifier, BUFFER_SIZE};

verus! {

/// Why a peer agent operation failed.
#[derive(Debug, Clone, Copy, PartialEq, Eq, Structural)]
pub enum ClientError {
    /// The agent has no own address yet.
    AddrNotSet,
    /// The agent has no identifier yet.
    IdNotSet,
    /// The server's answer is not an acknowledgement or cannot be decoded.
    InvalidServerResponse,
    /// A peer's frame is not what the exchange expects, or cannot be decoded.
    InvalidClientResponse,
    /// The server closed the connection without an answer: it knows no such peer.
    PeerNotFound,
    /// No port of the scanned range could be bound.
    NoPortAvailable,
    /// The transport failed.
    IoError,
}

/// Frames that peer agents send.
#[derive(Debug, Clone, Copy, PartialEq, Eq, Structural)]
pub enum ClientMessageType {
    BroadcastId,
    Message,
    GetClientAddr,
    Ack,
}

impl ClientMessageType {
    pub open spec fn spec_byte(self) -> u8 {
        match self {
            ClientMessageType::BroadcastId => crate::frame::TAG_BROADCAST_ID,
            ClientMessageType::Message => crate::frame::TAG_MESSAGE,
            ClientMessageType::GetClientAddr => crate::frame::TAG_GET_CLIENT_ADDR,
            ClientMessageType::Ack => crate::frame::TAG_PEER_ACK,
        }
    }

    /// The tag byte of the frame.
    pub fn as_byte(self) -> (r: u8)
        ensures
            r == self.spec_byte(),
    {
        match self {
            ClientMessageType::BroadcastId => crate::frame::TAG_BROADCAST_ID,
            ClientMessageType::Message => crate::frame::TAG_MESSAGE,
            ClientMessageType::GetClientAddr => crate::frame::TAG_GET_CLIENT_ADDR,
            ClientMessageType::Ack => crate::frame::TAG_PEER_ACK,
        }
    }
}

/// First port of the range scanned for a listener.
pub const FIRST_PORT: u16 = 8000;

/// Last port of the range scanned for a listener.
pub const LAST_PORT: u16 = 8999;

/// The decimal digits of `n`, in ASCII.
pub open spec fn decimal(n: nat) -> Seq<u8>
    decreases n,
{
    if n < 10 {
        seq![(48 + n) as u8]
    } else {
        decimal(n / 10) + seq![(48 + n % 10) as u8]
    }
}

/// The identifier an agent listening on `port` takes by default: `client:<port>`.
pub open spec fn default_id(port: u16) -> Seq<u8> {
    seq![99u8, 108u8, 105u8, 101u8, 110u8, 116u8, 58u8] + decimal(port as nat)
}

fn push_decimal(out: &mut Vec<u8>, n: u16)
    ensures
        final(out)@ == old(out)@ + decimal(n as nat),
    decreases n,
{
    if n >= 10 {
        push_decimal(out, n / 10);
    }
    out.push(48 + (n % 10) as u8);
    assert(final(out)@ =~= old(out)@ + decimal(n as nat));
}

/// What the server's answer `resp` to an address request for `target` gives, and the
/// cache afterwards. An empty answer means the server closed the connection without
/// writing: the peer is unknown.
pub open spec fn accept_spec(cache: Map<Seq<u8>, AddrView>, target: Seq<u8>, resp: Seq<u8>) -> (
    Result<AddrView, ClientError>,
    Map<Seq<u8>, AddrView>,
) {
    if resp.len() == 0 {
        (Err(ClientError::PeerNotFound), cache)
    } else if resp.len() >= BUFFER_SIZE || resp[0] != TAG_SERVER_ACK {
        (Err(ClientError::InvalidServerResponse), cache)
    } else {
        match decode_addr_response_spec(zero_filled_spec(resp)) {
            Ok(a) => (Ok(a), cache.insert(target, a)),
            Err(e) => (Err(e), cache),
        }
    }
}

/// What a peer's listener makes of the request bytes `req`: the message body and
/// the reply to write.
pub open spec fn listen_spec(req: Seq<u8>) -> Result<(Seq<u8>, Seq<u8>), ClientError> {
    if req.len() == 0 || req.len() >= BUFFER_SIZE || req[0] != TAG_MESSAGE {
        Err(ClientError::InvalidClientResponse)
    } else {
        match decode_message_spec(zero_filled_spec(req)) {
            Ok(body) => Ok((body, seq![TAG_PEER_ACK])),
            Err(e) => Err(e),
        }
    }
}

/// Whether an answer of `expected` tag was read: one to `BUFFER_SIZE - 1` bytes that
/// start with that tag.
pub open spec fn is_ack(resp: Seq<u8>, expected: u8) -> bool {
    0 < resp.len() < BUFFER_SIZE && resp[0] == expected
}

/// Where an agent finds a peer's address.
pub enum Discovery {
    /// In its own cache: no connection to the server is needed.
    Cached(Addr),
    /// Not cached: send this address request to the server.
    Ask(Vec<u8>),
}

/// One step of the scan for a free listening port.
#[derive(Debug, Clone, Copy, PartialEq, Eq, Structural)]
pub enum PortScan {
    /// Bind the listener to this port.
    Bind(u16),
    /// Find out whether this port is free.
    Probe(u16),
    /// Every port of the range is taken.
    Exhausted,
}

/// The next step of the scan, given that `port` was probed and found free or not.
/// The scan goes up from `FIRST_PORT` to `LAST_PORT`.
pub fn scan_step(port: u16, available: bool) -> (r: PortScan)
    ensures
        FIRST_PORT <= port <= LAST_PORT && available ==> r == PortScan::Bind(port),
        FIRST_PORT <= port < LAST_PORT && !available ==> r == PortScan::Probe((port + 1) as u16),
        !(FIRST_PORT <= port < LAST_PORT) && !(FIRST_PORT <= port <= LAST_PORT && available)
            ==> r == PortScan::Exhausted,
{
    if port < FIRST_PORT || port > LAST_PORT {
        PortScan::Exhausted
    } else if available {
        PortScan::Bind(port)
    } else if port < LAST_PORT {
        PortScan::Probe(port + 1)
    } else {
        PortScan::Exhausted
    }
}

/// A peer agent. It reaches the server at `server_addr`; once its listener is
/// bound it knows its own address; it keeps the addresses it has found.
pub struct Client<'a> {
    server_addr: (&'a str, u16),
    own_addr: Option<(&'a str, u16)>,
    id: Option<Vec<u8>>,
    index: AddrIndex,
    buffer: Vec<u8>,
}

impl<'a> Client<'a> {
    pub closed spec fn wf(&self) -> bool {
        self.index.wf()
    }

    /// The address cache.
    pub closed spec fn cache(&self) -> Map<Seq<u8>, AddrView> {
        self.index@
    }

    /// The agent's own address, once set.
    pub closed spec fn own(&self) -> Option<AddrView> {
        match self.own_addr {
            Some((h, p)) => Some((h.spec_bytes(), p)),
            None => None,
        }
    }

    /// The agent's identifier, once set.
    pub closed spec fn ident(&self) -> Option<Seq<u8>> {
        match self.id {
            Some(v) => Some(v@),
            None => None,
        }
    }

    pub closed spec fn server(&self) -> (&'a str, u16) {
        self.server_addr
    }

    /// An agent that reaches the server at `addr`, with no own address, no
    /// identifier and an empty cache.
    pub fn new(addr: (&'a str, u16)) -> (r: Client<'a>)
        ensures
            r.wf(),
            r.server() == addr,
            r.own() is None,
            r.ident() is None,
            r.cache() == Map::<Seq<u8>, AddrView>::empty(),
    {
        Client {
            server_addr: addr,
            own_addr: None,
            id: None,
            index: AddrIndex::new(),
            buffer: vec![0; BUFFER_SIZE],
        }
    }

    /// The server's address.
    pub fn server_addr(&self) -> (r: (&'a str, u16))
        ensures
            r == self.server(),
    {
        self.server_addr
    }

    /// Records the address the listener was bound to.
    pub fn set_own_addr(&mut self, host: &'a str, port: u16)
        requires
            old(self).wf(),
        ensures
            final(self).wf(),
            final(self).own() == Some((host.spec_bytes(), port)),
            final(self).ident() == old(self).ident(),
            final(self).cache() == old(self).cache(),
            final(self).server() == old(self).server(),
    {
        self.own_addr = Some((host, port));
    }

    /// Takes `client:<port>` as identifier, where `port` is the agent's own port.
    pub fn set_default_id(&mut self) -> (r: Result<(), ClientError>)
        requires
            old(self).wf(),
        ensures
            final(self).wf(),
            final(self).own() == old(self).own(),
            final(self).cache() == old(self).cache(),
            final(self).server() == old(self).server(),
            match old(self).own() {
                Some(a) => r is Ok && final(self).ident() == Some(default_id(a.1)),
                None => r == Err::<(), _>(ClientError::AddrNotSet) && final(self).ident()
                    == old(self).ident(),
            },
    {
        match self.own_addr {
            None => Err(ClientError::AddrNotSet),
            Some((_, port)) => {
                let mut id: Vec<u8> = vec![99u8, 108u8, 105u8, 101u8, 110u8, 116u8, 58u8];
                push_decimal(&mut id, port);
                self.id = Some(id);
                Ok(())
            },
        }
    }

    /// Takes `id` as identifier.
    pub fn set_id(&mut self, id: Identifier)
        requires
            old(self).wf(),
        ensures
            final(self).wf(),
            final(self).ident() == Some(encode_utf8(id@)),
            final(self).own() == old(self).own(),
            final(self).cache() == old(self).cache(),
            final(self).server() == old(self).server(),
    {
        let mut v: Vec<u8> = Vec::new();
        append_bytes(&mut v, id.as_str().as_bytes());
        assert(v@ =~= encode_utf8(id@));
        self.id = Some(v);
    }

    /// The registration request to send to the server: identifier, own host and port.
    pub fn broadcast_id(&self) -> (r: Result<Vec<u8>, ClientError>)
        ensures
            self.ident() is None ==> r == Err::<Vec<u8>, _>(ClientError::IdNotSet),
            self.ident() is Some && self.own() is None ==> r == Err::<Vec<u8>, _>(
                ClientError::AddrNotSet,
            ),
            self.ident() is Some && self.own() is Some ==> (r matches Ok(f) && f@
                == broadcast_id_frame(self.ident().unwrap(), self.own().unwrap().0, self.own().unwrap().1)),
    {
        match &self.id {
            None => Err(ClientError::IdNotSet),
            Some(id) => match self.own_addr {
                None => Err(ClientError::AddrNotSet),
                Some((host, port)) => Ok(encode_broadcast_id(id.as_slice(), host.as_bytes(), port)),
            },
        }
    }

    /// Checks the server's acknowledgement `resp` of a registration.
    pub fn check_ack(resp: &[u8]) -> (r: Result<(), ClientError>)
        ensures
            r is Ok <==> is_ack(resp@, TAG_SERVER_ACK),
            r is Err ==> r == Err::<(), _>(ClientError::InvalidServerResponse),
    {
        if resp.len() == 0 || resp.len() >= BUFFER_SIZE || resp[0] != TAG_SERVER_ACK {
            Err(ClientError::InvalidServerResponse)
        } else {
            Ok(())
        }
    }

    /// Checks a peer's acknowledgement `resp` of a direct message.
    pub fn check_client_ack(resp: &[u8]) -> (r: Result<(), ClientError>)
        ensures
            r is Ok <==> is_ack(resp@, TAG_PEER_ACK),
            r is Err ==> r == Err::<(), _>(ClientError::InvalidClientResponse),
    {
        if resp.len() == 0 || resp.len() >= BUFFER_SIZE || resp[0] != ClientMessageType::Ack.as_byte() {
            Err(ClientError::InvalidClientResponse)
        } else {
            Ok(())
        }
    }

    /// Where to find the address of `target`: the cache first, else the server.
    pub fn discover(&self, target: &str) -> (r: Discovery)
        requires
            self.wf(),
        ensures
            match r {
                Discovery::Cached(a) => self.cache().contains_key(target.spec_bytes())
                    && self.cache()[target.spec_bytes()] == a@,
                Discovery::Ask(f) => !self.cache().contains_key(target.spec_bytes())
                    && f@ == get_client_addr_frame(target.spec_bytes()),
            },
    {
        let key = target.as_bytes();
        match self.index.get(key) {
            Some(a) => Discovery::Cached(a),
            None => Discovery::Ask(encode_get_client_addr(key)),
        }
    }

    /// Takes the server's answer `resp` to an address request for `target`, the bytes
    /// read before the server closed the connection, and caches the address it carries.
    pub fn get_client_addr(&mut self, target: &str, resp: &[u8]) -> (r: Result<Addr, ClientError>)
        requires
            old(self).wf(),
        ensures
            final(self).wf(),
            ({
                let (res, cache) = accept_spec(old(self).cache(), target.spec_bytes(), resp@);
                &&& final(self).cache() == cache
                &&& match r {
                    Ok(a) => res == Ok::<_, ClientError>(a@),
                    Err(e) => res == Err::<AddrView, _>(e),
                }
            }),
            final(self).own() == old(self).own(),
            final(self).ident() == old(self).ident(),
            final(self).server() == old(self).server(),
    {
        if resp.len() == 0 {
            return Err(ClientError::PeerNotFound);
        }
        if let Err(e) = Client::check_ack(resp) {
            return Err(e);
        }
        self.buffer = zero_filled(resp);
        match decode_addr_response(self.buffer.as_slice()) {
            Ok(a) => {
                self.index.insert(target.as_bytes(), a.duplicate());
                Ok(a)
            },
            Err(e) => Err(e),
        }
    }

    /// The direct message carrying `message` to send to a peer.
    pub fn message_frame(message: &str) -> (r: Vec<u8>)
        ensures
            r@ == message_frame(message.spec_bytes()),
    {
        encode_message(message.as_bytes())
    }

    /// Answers the request `req` read by the listener: the body of the direct message
    /// and the acknowledgement to write back. Any other request ends only its connection.
    pub fn handle_client_message(req: &[u8]) -> (r: Result<(Vec<u8>, Vec<u8>), ClientError>)
        ensures
            match r {
                Ok((body, reply)) => listen_spec(req@) == Ok::<_, ClientError>((body@, reply@)),
                Err(e) => listen_spec(req@) == Err::<(Seq<u8>, Seq<u8>), _>(e),
            },
    {
        if req.len() == 0 || req.len() >= BUFFER_SIZE || req[0] != ClientMessageType::Message.as_byte() {
            return Err(ClientError::InvalidClientResponse);
        }
        let buffer = zero_filled(req);
        match decode_message(buffer.as_slice()) {
            Ok(body) => {
                let reply = vec![ClientMessageType::Ack.as_byte()];
                assert(reply@ =~= seq![TAG_PEER_ACK]);
                Ok((body, reply))
            },
            Err(e) => Err(e),
        }
    }
}

/// Once an address request for `target` was answered with an address, the cache
/// holds that address for `target`: discovering `target` again finds it there and
/// opens no connection to the server.
pub proof fn lemma_resolved_is_cached(cache: Map<Seq<u8>, AddrView>, target: Seq<u8>, resp: Seq<u8>)
    ensures
        accept_spec(cache, target, resp).0 matches Ok(a) ==> accept_spec(cache, target, resp).1.contains_key(target)
            && accept_spec(cache, target, resp).1[target] == a,
{
}

/// Taking an answer, whatever it is and whatever identifier it is for, never
/// removes an identifier from the cache.
pub proof fn lemma_cache_keeps_entries(
    cache: Map<Seq<u8>, AddrView>,
    target: Seq<u8>,
    resp: Seq<u8>,
    known: Seq<u8>,
)
    requires
        cache.contains_key(known),
    ensures
        accept_spec(cache, target, resp).1.contains_key(known),
{
}

/// An address request for an identifier the server has registered, with a host that
/// holds no `:` and is valid UTF-8, gives the agent exactly the registered address.
pub proof fn lemma_discovers_registered(
    reg: crate::server::Registry,
    cache: Map<Seq<u8>, AddrView>,
    id: Seq<u8>,
)
    requires
        get_client_addr_frame(id).len() < BUFFER_SIZE,
        !id.contains(0u8),
        vstd::utf8::valid_utf8(id),
        reg.contains_key(id),
        !reg[id].0.contains(crate::frame::COLON),
        vstd::utf8::valid_utf8(reg[id].0),
        reg[id].0.len() + 4 < BUFFER_SIZE,
    ensures
        crate::server::handle_spec(reg, get_client_addr_frame(id)).0 == Ok::<_, crate::server::ServerError>(
            Some(crate::frame::addr_response_frame(reg[id])),
        ),
        accept_spec(cache, id, crate::frame::addr_response_frame(reg[id])) == (
            Ok::<_, ClientError>(reg[id]),
            cache.insert(id, reg[id]),
        ),
{
    crate::server::lemma_lookup_request(reg, id);
    let f = crate::frame::addr_response_frame(reg[id]);
    let zeros = Seq::new((BUFFER_SIZE - f.len()) as nat, |i: int| 0u8);
    crate::frame::lemma_addr_response_round_trip(reg[id], zeros);
    assert(zero_filled_spec(f) == f + zeros);
    assert(f[0] == TAG_SERVER_ACK);
}

/// A direct message whose body holds no zero byte, is valid UTF-8 and fits the
/// buffer is delivered to the listener intact and answered with an acknowledgement
/// that the sender accepts.
pub proof fn lemma_message_acknowledged(body: Seq<u8>)
    requires
        message_frame(body).len() < BUFFER_SIZE,
        !body.contains(0u8),
        vstd::utf8::valid_utf8(body),
    ensures
        listen_spec(message_frame(body)) == Ok::<_, ClientError>((body, seq![TAG_PEER_ACK])),
        is_ack(seq![TAG_PEER_ACK], TAG_PEER_ACK),
{
    let f = message_frame(body);
    crate::frame::lemma_message_round_trip(body, (BUFFER_SIZE - f.len()) as nat);
    assert(f[0] == TAG_MESSAGE);
}

} // verus!
