//! Frame header layout and the split of a serialized packet into chunks.
use vstd::prelude::*;

verus! {

/// Largest number of payload bytes carried by one chunk.
pub const PACKET_CHUNK_SIZE: usize = 8192;

/// Number of bytes in one header word (a 64-bit word, big-endian).
pub const WORD_SIZE: usize = 8;

/// Number of bytes in a frame header: three words.
pub const HEADER_SIZE: usize = 24;

/// Magic value that closes every frame header.
pub const HEADER_SENTINEL: u64 = 0xffff_ffff_ffff_ffff;

/// 256 to the power `n`.
pub open spec fn pow256(n: nat) -> nat
    decreases n,
{
    if n == 0 {
        1
    } else {
        256 * pow256((n - 1) as nat)
    }
}

/// The number whose big-endian base-256 digits are `s`.
pub open spec fn be_value(s: Seq<u8>) -> nat
    decreases s.len(),
{
    if s.len() == 0 {
        0
    } else {
        be_value(s.drop_last()) * 256 + s.last() as nat
    }
}

/// The header word that starts at word index `k` of `b`.
pub open spec fn word_at(b: Seq<u8>, k: int) -> nat {
    be_value(b.subrange(k * WORD_SIZE as int, (k + 1) * WORD_SIZE as int))
}

/// Number of chunks announced for a payload of `len` bytes.
pub open spec fn spec_chunk_count(len: nat) -> nat {
    len / PACKET_CHUNK_SIZE as nat + 1
}

/// Offset in a payload of `len` bytes at which chunk `i` starts.
pub open spec fn chunk_start(len: nat, i: nat) -> nat {
    if i * PACKET_CHUNK_SIZE as nat <= len {
        i * PACKET_CHUNK_SIZE as nat
    } else {
        len
    }
}

/// Size of chunk `i` of a payload of `len` bytes: what is left of the
/// payload after the earlier chunks, but at most one chunk size.
pub open spec fn chunk_len(len: nat, i: nat) -> nat {
    (chunk_start(len, i + 1) - chunk_start(len, i)) as nat
}

/// The chunks a payload is sent as, in order; the last may be empty.
pub open spec fn frame_chunks(p: Seq<u8>) -> Seq<Seq<u8>> {
    Seq::new(
        spec_chunk_count(p.len()),
        |i: int| p.subrange(chunk_start(p.len(), i as nat) as int, chunk_start(p.len(), (i + 1) as nat) as int),
    )
}

/// The three words that precede a packet on the wire.
#[derive(Clone, Copy, Debug, PartialEq, Eq, Structural)]
pub struct FrameHeader {
    pub payload_size: u64,
    pub chunk_count: u64,
    pub sentinel: u64,
}

/// Why a header could not be accepted.
#[derive(Clone, Copy, Debug, PartialEq, Eq, Structural)]
pub enum HeaderError {
    /// Fewer bytes than a header holds.
    Incomplete,
    /// The closing word is not the sentinel; carries the word read.
    InvalidSentinel(u64),
}

proof fn lemma_div_bound(x: nat, n: nat)
    requires
        n >= 1,
        x < pow256(n),
    ensures
        x / 256 < pow256((n - 1) as nat),
        x == (x / 256) * 256 + x % 256,
{
    let p = pow256((n - 1) as nat);
    assert(pow256(n) == 256 * p);
    assert(x / 256 < p) by (nonlinear_arith)
        requires
            x < 256 * p,
    ;
}

/// The `n` big-endian bytes of `x`.
fn be_encode(x: u64, n: usize) -> (r: Vec<u8>)
    requires
        n <= 8,
        x < pow256(n as nat),
    ensures
        r@.len() == n,
        be_value(r@) == x,
    decreases n,
{
    if n == 0 {
        Vec::new()
    } else {
        proof {
            lemma_div_bound(x as nat, n as nat);
        }
        let mut r = be_encode(x / 256, n - 1);
        let ghost prev = r@;
        r.push((x % 256) as u8);
        assert(r@.drop_last() =~= prev);
        r
    }
}

/// The value of the big-endian bytes `b[start..start + 8]`.
fn be_decode(b: &[u8], start: usize) -> (r: u64)
    requires
        start + WORD_SIZE <= b@.len(),
    ensures
        r == be_value(b@.subrange(start as int, start + WORD_SIZE)),
{
    let n = b.len();
    let mut acc: u64 = 0;
    let mut i: usize = 0;
    while i < WORD_SIZE
        invariant
            n == b@.len(),
            start + WORD_SIZE <= b@.len(),
            i <= WORD_SIZE,
            acc == be_value(b@.subrange(start as int, start + i)),
            acc < pow256(i as nat),
        decreases WORD_SIZE - i,
    {
        let ghost s = b@.subrange(start as int, start + i + 1);
        assert(s.drop_last() =~= b@.subrange(start as int, start + i));
        let byte = b[start + i];
        assert(s.last() == byte);
        proof {
            let p = pow256(i as nat);
            assert(pow256((i + 1) as nat) == 256 * p);
            assert(acc * 256 + byte < 256 * p) by (nonlinear_arith)
                requires
                    acc < p,
                    byte < 256,
            ;
            lemma_pow256_word();
            if i + 1 < 8 {
                lemma_pow256_mono((i + 1) as nat, 8);
            }
        }
        acc = acc * 256 + byte as u64;
        i = i + 1;
    }
    acc
}

proof fn lemma_pow256_word()
    ensures
        pow256(8) == 0x1_0000_0000_0000_0000,
{
    reveal_with_fuel(pow256, 9);
}

proof fn lemma_pow256_mono(a: nat, b: nat)
    requires
        a <= b,
    ensures
        pow256(a) <= pow256(b),
    decreases b - a,
{
    if a < b {
        lemma_pow256_mono(a, (b - 1) as nat);
        assert(pow256(b) == 256 * pow256((b - 1) as nat));
    }
}

/// Number of chunks announced for a payload of `payload_size` bytes.
pub fn chunk_count(payload_size: u64) -> (r: u64)
    ensures
        r == spec_chunk_count(payload_size as nat),
{
    payload_size / (PACKET_CHUNK_SIZE as u64) + 1
}

impl FrameHeader {
    /// The header announcing a payload of `len` bytes.
    pub open spec fn spec_for_payload(len: nat) -> FrameHeader {
        FrameHeader {
            payload_size: len as u64,
            chunk_count: spec_chunk_count(len) as u64,
            sentinel: HEADER_SENTINEL,
        }
    }

    /// The header announcing a payload of `payload_size` bytes.
    pub fn for_payload(payload_size: u64) -> (r: FrameHeader)
        ensures
            r == FrameHeader::spec_for_payload(payload_size as nat),
            r.payload_size == payload_size,
            r.chunk_count == spec_chunk_count(payload_size as nat),
            r.sentinel == HEADER_SENTINEL,
    {
        FrameHeader { payload_size, chunk_count: chunk_count(payload_size), sentinel: HEADER_SENTINEL }
    }

    /// The header as sent: its three words, big-endian, in order.
    pub fn to_bytes(&self) -> (r: Vec<u8>)
        ensures
            r@.len() == HEADER_SIZE,
            word_at(r@, 0) == self.payload_size,
            word_at(r@, 1) == self.chunk_count,
            word_at(r@, 2) == self.sentinel,
    {
        proof {
            lemma_pow256_word();
        }
        let mut r = be_encode(self.payload_size, WORD_SIZE);
        let mut w1 = be_encode(self.chunk_count, WORD_SIZE);
        let mut w2 = be_encode(self.sentinel, WORD_SIZE);
        let ghost (a, b, c) = (r@, w1@, w2@);
        r.append(&mut w1);
        r.append(&mut w2);
        assert(r@.subrange(0, 8) =~= a);
        assert(r@.subrange(8, 16) =~= b);
        assert(r@.subrange(16, 24) =~= c);
        r
    }
}

/// The header read from the first `HEADER_SIZE` bytes of `b`, or why none can be.
pub open spec fn spec_parse_header(b: Seq<u8>) -> Result<FrameHeader, HeaderError> {
    if b.len() < HEADER_SIZE {
        Err(HeaderError::Incomplete)
    } else if word_at(b, 2) != HEADER_SENTINEL {
        Err(HeaderError::InvalidSentinel(word_at(b, 2) as u64))
    } else {
        Ok(
            FrameHeader {
                payload_size: word_at(b, 0) as u64,
                chunk_count: word_at(b, 1) as u64,
                sentinel: HEADER_SENTINEL,
            },
        )
    }
}

/// Reads a header from the first `HEADER_SIZE` bytes of `b`.
pub fn parse_header(b: &[u8]) -> (r: Result<FrameHeader, HeaderError>)
    ensures
        r == spec_parse_header(b@),
        b@.len() < HEADER_SIZE ==> r == Err::<FrameHeader, HeaderError>(HeaderError::Incomplete),
        b@.len() >= HEADER_SIZE && word_at(b@, 2) != HEADER_SENTINEL ==> r == Err::<
            FrameHeader,
            HeaderError,
        >(HeaderError::InvalidSentinel(word_at(b@, 2) as u64)),
        b@.len() >= HEADER_SIZE && word_at(b@, 2) == HEADER_SENTINEL ==> r == Ok::<
            FrameHeader,
            HeaderError,
        >(
            (FrameHeader {
                payload_size: word_at(b@, 0) as u64,
                chunk_count: word_at(b@, 1) as u64,
                sentinel: HEADER_SENTINEL,
            }),
        ),
{
    if b.len() < HEADER_SIZE {
        return Err(HeaderError::Incomplete);
    }
    let payload_size = be_decode(b, 0);
    let chunk_count = be_decode(b, WORD_SIZE);
    let sentinel = be_decode(b, 2 * WORD_SIZE);
    if sentinel != HEADER_SENTINEL {
        return Err(HeaderError::InvalidSentinel(sentinel));
    }
    Ok(FrameHeader { payload_size, chunk_count, sentinel })
}

} // verus!

verus! {

/// A copy of `p[from..to]`.
fn copy_range(p: &[u8], from: usize, to: usize) -> (r: Vec<u8>)
    requires
        from <= to <= p@.len(),
    ensures
        r@ == p@.subrange(from as int, to as int),
{
    let mut r: Vec<u8> = Vec::new();
    let mut i: usize = from;
    while i < to
        invariant
            from <= i <= to <= p@.len(),
            r@ == p@.subrange(from as int, i as int),
        decreases to - i,
    {
        r.push(p[i]);
        assert(r@ =~= p@.subrange(from as int, i + 1));
        i = i + 1;
    }
    r
}

/// Splits a serialized packet into the chunks that follow its header:
/// `chunk_count` slices in order, each at most `PACKET_CHUNK_SIZE` bytes.
pub fn frame_payload(payload: &Vec<u8>) -> (r: Vec<Vec<u8>>)
    ensures
        r@.len() == frame_chunks(payload@).len(),
        forall|i: int| 0 <= i < r@.len() ==> #[trigger] r@[i]@ == frame_chunks(payload@)[i],
{
    let len = payload.len();
    let count = len / PACKET_CHUNK_SIZE + 1;
    let mut r: Vec<Vec<u8>> = Vec::new();
    let mut start: usize = 0;
    let mut i: usize = 0;
    while i < count
        invariant
            len == payload@.len(),
            count == spec_chunk_count(len as nat),
            i <= count,
            start == chunk_start(len as nat, i as nat),
            r@.len() == i,
            forall|j: int| 0 <= j < i ==> #[trigger] r@[j]@ == frame_chunks(payload@)[j],
        decreases count - i,
    {
        let end = if len - start < PACKET_CHUNK_SIZE {
            len
        } else {
            start + PACKET_CHUNK_SIZE
        };
        proof {
            assert(i * PACKET_CHUNK_SIZE <= len || start == len);
            if (i + 1) * PACKET_CHUNK_SIZE <= len {
                assert(i * PACKET_CHUNK_SIZE <= len);
                assert(end == (i + 1) * PACKET_CHUNK_SIZE);
            } else {
                assert(end == len) by (nonlinear_arith)
                    requires
                        start == chunk_start(len as nat, i as nat),
                        (i + 1) * PACKET_CHUNK_SIZE > len,
                        end == if len - start < PACKET_CHUNK_SIZE {
                            len as int
                        } else {
                            start + PACKET_CHUNK_SIZE
                        },
                        start <= len,
                ;
            }
        }
        let chunk = copy_range(payload.as_slice(), start, end);
        r.push(chunk);
        start = end;
        i = i + 1;
    }
    r
}

} // verus!
