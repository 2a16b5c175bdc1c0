use vstd::prelude::*;
use vstd::utf8::valid_utf8;

pub mod client;
pub mod frame;
pub mod server;
pub mod table;

verus! {

/// Peer identifiers as handed to the library by callers.
pub type Identifier = String;

/// Capacity of every receive buffer. A read fills at most `BUFFER_SIZE - 1` bytes.
pub const BUFFER_SIZE: usize = 128;

/// A peer address: host bytes (not parsed) and a port.
#[derive(Debug, Clone)]
pub struct Addr(pub Vec<u8>, pub u16);

/// Mathematical value of an address.
pub type AddrView = (Seq<u8>, u16);

impl View for Addr {
    type V = AddrView;

    open spec fn view(&self) -> AddrView {
        (self.0@, self.1)
    }
}

impl Addr {
    /// A copy of the address with the same host bytes and port.
    pub fn duplicate(&self) -> (r: Addr)
        ensures
            r@ == self@,
    {
        Addr(self.0.clone(), self.1)
    }
}

/// The bytes of `s` up to, not including, the first `stop` byte (all of `s` if none).
pub open spec fn take_until(s: Seq<u8>, stop: u8) -> Seq<u8>
    decreases s.len(),
{
    if s.len() == 0 {
        s
    } else if s[0] == stop {
        Seq::empty()
    } else {
        seq![s[0]] + take_until(s.drop_first(), stop)
    }
}

/// The field of `buf` that starts at `skip` and ends before the first `stop` byte.
pub open spec fn field(buf: Seq<u8>, skip: int, stop: u8) -> Seq<u8> {
    if skip >= buf.len() {
        Seq::empty()
    } else {
        take_until(buf.subrange(skip, buf.len() as int), stop)
    }
}

/// A field never holds the stop byte and is a piece of the buffer.
pub proof fn lemma_take_until_shape(s: Seq<u8>, stop: u8)
    ensures
        take_until(s, stop).len() <= s.len(),
        take_until(s, stop) == s.subrange(0, take_until(s, stop).len() as int),
        forall|i: int| 0 <= i < take_until(s, stop).len() ==> s[i] != stop,
        take_until(s, stop).len() == s.len() || s[take_until(s, stop).len() as int] == stop,
    decreases s.len(),
{
    if s.len() > 0 && s[0] != stop {
        lemma_take_until_shape(s.drop_first(), stop);
        let t = take_until(s.drop_first(), stop);
        assert(take_until(s, stop) =~= s.subrange(0, t.len() + 1 as int));
        assert forall|i: int| 0 <= i < take_until(s, stop).len() implies s[i] != stop by {
            if i > 0 {
                assert(s[i] == s.drop_first()[i - 1]);
            }
        }
    }
}

/// A field followed by its stop byte reads back as itself, whatever comes after.
pub proof fn lemma_take_until_sentinel(a: Seq<u8>, stop: u8, rest: Seq<u8>)
    requires
        !a.contains(stop),
    ensures
        take_until(a + seq![stop] + rest, stop) == a,
    decreases a.len(),
{
    let s = a + seq![stop] + rest;
    if a.len() == 0 {
        assert(s[0] == stop);
    } else {
        assert(s[0] == a[0]);
        assert(!a.drop_first().contains(stop)) by {
            if a.drop_first().contains(stop) {
                let j = choose|j: int| 0 <= j < a.drop_first().len() && a.drop_first()[j] == stop;
                assert(a[j + 1] == stop);
            }
        }
        lemma_take_until_sentinel(a.drop_first(), stop, rest);
        assert(s.drop_first() =~= a.drop_first() + seq![stop] + rest);
        assert(seq![a[0]] + a.drop_first() =~= a);
    }
}

/// The bytes of `buffer` from index `skip` up to the first `stop` byte or the end.
pub fn get_data(buffer: &[u8], skip: usize, stop: u8) -> (r: Vec<u8>)
    ensures
        r@ == field(buffer@, skip as int, stop),
{
    let mut r: Vec<u8> = Vec::new();
    if skip >= buffer.len() {
        return r;
    }
    let ghost s = buffer@.subrange(skip as int, buffer@.len() as int);
    proof {
        lemma_take_until_shape(s, stop);
    }
    let mut i: usize = skip;
    while i < buffer.len() && buffer[i] != stop
        invariant
            skip <= i <= buffer.len(),
            s == buffer@.subrange(skip as int, buffer@.len() as int),
            r@ == buffer@.subrange(skip as int, i as int),
            forall|j: int| skip <= j < i ==> buffer@[j] != stop,
            take_until(s, stop).len() <= s.len(),
            take_until(s, stop) == s.subrange(0, take_until(s, stop).len() as int),
            forall|j: int| 0 <= j < take_until(s, stop).len() ==> s[j] != stop,
            take_until(s, stop).len() == s.len() || s[take_until(s, stop).len() as int] == stop,
        decreases buffer.len() - i,
    {
        r.push(buffer[i]);
        i = i + 1;
        assert(r@ =~= buffer@.subrange(skip as int, i as int));
    }
    let ghost n = take_until(s, stop).len();
    assert(n == i - skip) by {
        if n < i - skip {
            assert(s[n as int] == buffer@[skip + n]);
        } else if n > i - skip {
            assert(s[i - skip] == buffer@[i as int]);
        }
    }
    assert(r@ =~= take_until(s, stop));
    r
}

/// Appends the bytes of `s` to `v`.
pub fn append_bytes(v: &mut Vec<u8>, s: &[u8])
    ensures
        final(v)@ == old(v)@ + s@,
{
    let ghost start = v@;
    let mut i: usize = 0;
    while i < s.len()
        invariant
            i <= s.len(),
            v@ == start + s@.subrange(0, i as int),
        decreases s.len() - i,
    {
        v.push(s[i]);
        i = i + 1;
        assert(v@ =~= start + s@.subrange(0, i as int));
    }
    assert(s@.subrange(0, s.len() as int) =~= s@);
}

/// Whether two byte strings are equal.
pub fn bytes_eq(a: &[u8], b: &[u8]) -> (r: bool)
    ensures
        r == (a@ == b@),
{
    if a.len() != b.len() {
        return false;
    }
    let mut i: usize = 0;
    while i < a.len()
        invariant
            a.len() == b.len(),
            i <= a.len(),
            forall|j: int| 0 <= j < i ==> a@[j] == b@[j],
        decreases a.len() - i,
    {
        if a[i] != b[i] {
            return false;
        }
        i = i + 1;
    }
    assert(a@ =~= b@);
    true
}

/// `s` followed by zero bytes up to the receive buffer's capacity.
pub open spec fn zero_filled_spec(s: Seq<u8>) -> Seq<u8> {
    s + Seq::new((BUFFER_SIZE - s.len()) as nat, |i: int| 0u8)
}

/// A receive buffer holding the bytes read, `data`, and zeros after them.
pub fn zero_filled(data: &[u8]) -> (r: Vec<u8>)
    requires
        data@.len() <= BUFFER_SIZE,
    ensures
        r@ == zero_filled_spec(data@),
        r@.len() == BUFFER_SIZE,
{
    let mut r: Vec<u8> = Vec::new();
    append_bytes(&mut r, data);
    let mut i: usize = data.len();
    while i < BUFFER_SIZE
        invariant
            data@.len() <= i <= BUFFER_SIZE,
            r@ == data@ + Seq::new((i - data@.len()) as nat, |k: int| 0u8),
        decreases BUFFER_SIZE - i,
    {
        r.push(0);
        i = i + 1;
        assert(r@ =~= data@ + Seq::new((i - data@.len()) as nat, |k: int| 0u8));
    }
    assert(r@ =~= zero_filled_spec(data@));
    r
}

/// Relies on std::str::from_utf8: it returns `Ok` exactly when the bytes are valid UTF-8.
#[verifier::external_body]
pub(crate) fn is_utf8(b: &[u8]) -> (r: bool)
    ensures
        r == valid_utf8(b@),
{
    std::str::from_utf8(b).is_ok()
}

} // verus!
