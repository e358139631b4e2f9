//! What a client connection needs beyond its socket: its id and unique name
//! on the multiplexer's bus, the framing of the messages it sends, and the bytes
//! that arrived together with the end of authentication.

use vstd::prelude::*;

use std::sync::atomic::{AtomicU64, Ordering};

use crate::serial_map::ClientId;
use crate::text::{concat, decimal, decimal_string, lemma_parse_decimal};

verus! {

broadcast use vstd::seq_lib::group_seq_properties;

/// Generator of client ids: 1, 2, 3, and so on. It may be shared between
/// threads.
pub struct ClientIdGenerator {
    counter: AtomicU64,
}

impl ClientIdGenerator {
    /// A generator whose first id is 1.
    pub fn new() -> Self {
        ClientIdGenerator { counter: AtomicU64::new(1) }
    }
}

/// Generate a new unique client ID.
///
/// The generator may be shared between threads, so which id comes back
/// depends on the other callers.
pub fn next_client_id(ids: &ClientIdGenerator) -> ClientId {
    ids.counter.fetch_add(1, Ordering::Relaxed)
}

/// The prefix of the unique names the multiplexer gives its clients.
pub const MUX_NAME_PREFIX: &'static str = ":mux.";

/// The unique name of the client with id `id`.
pub open spec fn spec_mux_unique_name(id: u64) -> Seq<char> {
    MUX_NAME_PREFIX@ + decimal(id as nat)
}

/// The unique name of the client with id `id`: `:mux.` and the id in decimal.
pub fn mux_unique_name(id: u64) -> (r: String)
    ensures
        r@ == spec_mux_unique_name(id),
{
    let n = decimal_string(id);
    concat(MUX_NAME_PREFIX, n.as_str())
}

/// The length of the fixed header that starts every D-Bus message.
pub const FIXED_HEADER_LEN: usize = 16;

/// The `u32` at `off` in `h`, little-endian when `little`, else big-endian.
pub open spec fn spec_read_u32(h: Seq<u8>, off: int, little: bool) -> nat {
    if little {
        (h[off] + h[off + 1] * 256 + h[off + 2] * 65536 + h[off + 3] * 16777216) as nat
    } else {
        (h[off + 3] + h[off + 2] * 256 + h[off + 1] * 65536 + h[off] * 16777216) as nat
    }
}

/// Whether a message's header says it is little-endian (`'l'`); any other
/// first byte is read as big-endian.
pub open spec fn is_little(h: Seq<u8>) -> bool {
    h[0] == 108
}

/// `n` rounded up to a multiple of eight.
pub open spec fn round_up8(n: nat) -> nat {
    ((n + 7) / 8 * 8) as nat
}

/// The total size of a message whose fixed header is `h`: the fixed header,
/// the array of header fields padded to eight bytes, and the body.
pub open spec fn spec_message_size(h: Seq<u8>) -> nat {
    let little = is_little(h);
    FIXED_HEADER_LEN as nat + round_up8(spec_read_u32(h, 12, little)) + spec_read_u32(h, 4, little)
}

/// Reads the `u32` at `off` in `h`.
fn read_u32(h: &[u8], off: usize, little: bool) -> (r: u64)
    requires
        off + 4 <= h@.len(),
    ensures
        r == spec_read_u32(h@, off as int, little),
        r <= u32::MAX,
{
    let b0 = h[off] as u64;
    let b1 = h[off + 1] as u64;
    let b2 = h[off + 2] as u64;
    let b3 = h[off + 3] as u64;
    if little {
        b0 + b1 * 256 + b2 * 65536 + b3 * 16777216
    } else {
        b3 + b2 * 256 + b1 * 65536 + b0 * 16777216
    }
}

/// The total size of a message from its 16-byte fixed header: byte 0 gives
/// the byte order, bytes 4..8 the body length and bytes 12..16 the length of
/// the header fields array, which is padded to eight bytes.
pub fn message_size(header: &[u8]) -> (r: u64)
    requires
        header@.len() >= FIXED_HEADER_LEN,
    ensures
        r == spec_message_size(header@),
{
    let little = header[0] == 108u8;
    let body_len = read_u32(header, 4, little);
    let fields_len = read_u32(header, 12, little);
    let padded = (fields_len + 7) / 8 * 8;
    16 + padded + body_len
}

/// Bytes that arrived before the message stream was read, served first.
pub struct PendingData {
    data: Vec<u8>,
    pos: usize,
}

impl View for PendingData {
    type V = Seq<u8>;

    /// The bytes not yet served.
    closed spec fn view(&self) -> Seq<u8> {
        self.data@.skip(self.pos as int)
    }
}

impl PendingData {
    /// The read position lies within the data.
    pub closed spec fn wf(&self) -> bool {
        self.pos <= self.data@.len()
    }

    /// Pending bytes `data`, none served yet.
    pub fn new(data: Vec<u8>) -> (r: Self)
        ensures
            r.wf(),
            r@ == data@,
    {
        let r = PendingData { data, pos: 0 };
        assert(r@ =~= r.data@);
        r
    }

    /// Number of bytes not yet served.
    pub fn remaining(&self) -> (n: usize)
        requires
            self.wf(),
        ensures
            n == self@.len(),
    {
        self.data.len() - self.pos
    }

    /// Serve up to `n` bytes: the first `min(n, remaining)` pending bytes.
    /// Once all are served the buffer is released.
    pub fn take(&mut self, n: usize) -> (out: Vec<u8>)
        requires
            old(self).wf(),
        ensures
            final(self).wf(),
            out@ == old(self)@.take(if n < old(self)@.len() { n as int } else { old(self)@.len() as int }),
            final(self)@ == old(self)@.skip(out@.len() as int),
    {
        let avail = self.data.len() - self.pos;
        let k = if n < avail { n } else { avail };
        let mut out: Vec<u8> = Vec::new();
        let ghost start = self@;
        let p = self.pos;
        let len = self.data.len();
        let mut i: usize = 0;
        while i < k
            invariant
                len == self.data@.len(),
                p == self.pos,
                i <= k,
                p + k <= self.data@.len(),
                start == self.data@.skip(p as int),
                k <= start.len(),
                out@ == start.take(i as int),
            decreases k - i,
        {
            out.push(self.data[p + i]);
            assert(start.take(i + 1) =~= start.take(i as int).push(start[i as int]));
            i = i + 1;
        }
        self.pos = self.pos + k;
        assert(self@ =~= start.skip(k as int));
        if self.pos >= self.data.len() {
            self.data = Vec::new();
            self.pos = 0;
            assert(self@ =~= start.skip(k as int));
        }
        out
    }
}

/// Serving `a` bytes and then `b` bytes serves the same bytes, in the same
/// order, as serving `a + b` bytes at once.
pub proof fn lemma_take_twice(p: Seq<u8>, a: nat, b: nat)
    ensures
        ({
            let ka = if a < p.len() { a } else { p.len() };
            let rest = p.skip(ka as int);
            let kb = if b < rest.len() { b } else { rest.len() };
            let kab = if a + b < p.len() { a + b } else { p.len() };
            &&& p.take(ka as int) + rest.take(kb as int) == p.take(kab as int)
            &&& rest.skip(kb as int) == p.skip(kab as int)
        }),
{
    let ka = if a < p.len() { a } else { p.len() };
    let rest = p.skip(ka as int);
    let kb = if b < rest.len() { b } else { rest.len() };
    let kab = if a + b < p.len() { a + b } else { p.len() };
    assert(p.take(ka as int) + rest.take(kb as int) =~= p.take(kab as int));
    assert(rest.skip(kb as int) =~= p.skip(kab as int));
}


/// Different client ids give different unique names.
pub proof fn lemma_mux_names_distinct(a: u64, b: u64)
    requires
        spec_mux_unique_name(a) == spec_mux_unique_name(b),
    ensures
        a == b,
{
    let p = MUX_NAME_PREFIX@;
    assert(spec_mux_unique_name(a).skip(p.len() as int) =~= decimal(a as nat));
    assert(spec_mux_unique_name(b).skip(p.len() as int) =~= decimal(b as nat));
    lemma_parse_decimal(a as nat, u64::MAX as nat);
    lemma_parse_decimal(b as nat, u64::MAX as nat);
}

} // verus!
