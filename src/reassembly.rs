//! Rebuilding a serialized packet from the chunks announced by its header.
use vstd::prelude::*;
use crate::framing::{
    chunk_len, chunk_start, frame_chunks, spec_chunk_count, FrameHeader, PACKET_CHUNK_SIZE,
};

verus! {

/// What a `Reassembler` has seen so far.
pub ghost struct ReassemblyState {
    pub payload_size: nat,
    pub chunk_count: nat,
    pub received: nat,
    pub data: Seq<u8>,
}

/// Why a chunk was not taken.
#[derive(Clone, Copy, Debug, PartialEq, Eq, Structural)]
pub enum ReassemblyError {
    /// Every chunk announced by the header has already been taken.
    AllChunksReceived,
    /// The chunk does not have the size that its position calls for.
    ChunkSizeMismatch { expected: u64, actual: usize },
    /// The input ended before every announced chunk was taken.
    MissingChunks,
}

/// Collects the chunks of one packet, in order, into one buffer.
pub struct Reassembler {
    header: FrameHeader,
    received: u64,
    remaining: u64,
    data: Vec<u8>,
}

impl View for Reassembler {
    type V = ReassemblyState;

    closed spec fn view(&self) -> ReassemblyState {
        ReassemblyState {
            payload_size: self.header.payload_size as nat,
            chunk_count: self.header.chunk_count as nat,
            received: self.received as nat,
            data: self.data@,
        }
    }
}

/// Whether `chunks` are exactly `chunk_count` in number and each has the
/// size that its position calls for in a payload of `payload_size` bytes.
pub open spec fn chunks_fit(payload_size: nat, chunk_count: nat, chunks: Seq<Seq<u8>>) -> bool {
    &&& chunks.len() == chunk_count
    &&& forall|i: int| 0 <= i < chunks.len() ==> (#[trigger] chunks[i]).len() == chunk_len(payload_size, i as nat)
}

impl Reassembler {
    /// Internal consistency: the buffer holds exactly the earlier chunks.
    pub closed spec fn wf(&self) -> bool {
        &&& self.received <= self.header.chunk_count
        &&& self.data@.len() == chunk_start(self.header.payload_size as nat, self.received as nat)
        &&& self.remaining == self.header.payload_size - self.data@.len()
    }

    /// A reassembler for the packet that `header` announces, with nothing received.
    pub fn new(header: FrameHeader) -> (r: Reassembler)
        ensures
            r.wf(),
            r@.payload_size == header.payload_size,
            r@.chunk_count == header.chunk_count,
            r@.received == 0,
            r@.data == Seq::<u8>::empty(),
    {
        Reassembler { header, received: 0, remaining: header.payload_size, data: Vec::new() }
    }

    /// Whether every announced chunk has been taken.
    pub fn is_complete(&self) -> (r: bool)
        requires
            self.wf(),
        ensures
            r == (self@.received == self@.chunk_count),
    {
        self.received == self.header.chunk_count
    }

    /// Size of the next chunk to read, or `None` when every chunk is in.
    pub fn expected_chunk_len(&self) -> (r: Option<u64>)
        requires
            self.wf(),
        ensures
            self@.received == self@.chunk_count ==> r is None,
            self@.received < self@.chunk_count ==> r == Some(
                chunk_len(self@.payload_size, self@.received) as u64,
            ),
    {
        if self.received == self.header.chunk_count {
            None
        } else {
            Some(self.next_len())
        }
    }

    fn next_len(&self) -> (r: u64)
        requires
            self.wf(),
        ensures
            r == chunk_len(self@.payload_size, self@.received),
    {
        let ghost len = self.header.payload_size as nat;
        let ghost i = self.received as nat;
        proof {
            if (i + 1) * PACKET_CHUNK_SIZE <= len {
                assert(i * PACKET_CHUNK_SIZE <= len) by (nonlinear_arith)
                    requires
                        (i + 1) * PACKET_CHUNK_SIZE <= len,
                ;
            }
        }
        if self.remaining < PACKET_CHUNK_SIZE as u64 {
            self.remaining
        } else {
            PACKET_CHUNK_SIZE as u64
        }
    }

    /// Takes the next chunk. It must have exactly the expected size; the
    /// reassembler is left unchanged when it is refused.
    pub fn push_chunk(&mut self, chunk: &[u8]) -> (r: Result<(), ReassemblyError>)
        requires
            old(self).wf(),
        ensures
            final(self).wf(),
            old(self)@.received == old(self)@.chunk_count ==> r == Err::<(), ReassemblyError>(
                ReassemblyError::AllChunksReceived,
            ),
            old(self)@.received < old(self)@.chunk_count && chunk@.len() != chunk_len(
                old(self)@.payload_size,
                old(self)@.received,
            ) ==> r == Err::<(), ReassemblyError>(
                ReassemblyError::ChunkSizeMismatch {
                    expected: chunk_len(old(self)@.payload_size, old(self)@.received) as u64,
                    actual: chunk@.len() as usize,
                },
            ),
            r is Ok <==> (old(self)@.received < old(self)@.chunk_count && chunk@.len() == chunk_len(
                old(self)@.payload_size,
                old(self)@.received,
            )),
            r is Ok ==> final(self)@ == (ReassemblyState {
                received: old(self)@.received + 1,
                data: old(self)@.data + chunk@,
                ..old(self)@
            }),
            r is Err ==> final(self)@ == old(self)@,
    {
        if self.received == self.header.chunk_count {
            return Err(ReassemblyError::AllChunksReceived);
        }
        let expected = self.next_len();
        if chunk.len() as u64 != expected {
            return Err(ReassemblyError::ChunkSizeMismatch { expected, actual: chunk.len() });
        }
        let ghost len = self.header.payload_size as nat;
        let ghost i = self.received as nat;
        let ghost old_data = self.data@;
        let mut k: usize = 0;
        while k < chunk.len()
            invariant
                k <= chunk@.len(),
                self.data@ == old_data + chunk@.subrange(0, k as int),
                self.header == old(self).header,
                self.received == old(self).received,
                self.remaining == old(self).remaining,
            decreases chunk@.len() - k,
        {
            self.data.push(chunk[k]);
            assert(old_data + chunk@.subrange(0, k + 1) =~= (old_data + chunk@.subrange(0, k as int)).push(chunk@[k as int]));
            k = k + 1;
        }
        assert(chunk@.subrange(0, chunk@.len() as int) =~= chunk@);
        self.received = self.received + 1;
        self.remaining = self.remaining - expected;
        Ok(())
    }

    /// The bytes received so far, in order.
    pub fn into_payload(self) -> (r: Vec<u8>)
        ensures
            r@ == self@.data,
    {
        self.data
    }
}

} // verus!

verus! {

/// The contents of each chunk in `chunks`.
pub open spec fn chunk_views(chunks: Seq<Vec<u8>>) -> Seq<Seq<u8>> {
    chunks.map_values(|c: Vec<u8>| c@)
}

proof fn lemma_flatten_push(s: Seq<Seq<u8>>, c: Seq<u8>)
    ensures
        s.push(c).flatten() == s.flatten() + c,
{
    vstd::seq_lib::lemma_flatten_concat(s, seq![c]);
    assert(s.push(c) =~= s + seq![c]);
    seq![c].lemma_flatten_one_element();
}

/// Feeds `chunks` in order to a reassembler for `header` and returns the
/// payload once every announced chunk is in.
pub fn reassemble(header: FrameHeader, chunks: &Vec<Vec<u8>>) -> (r: Result<Vec<u8>, ReassemblyError>)
    ensures
        r is Ok <==> chunks_fit(header.payload_size as nat, header.chunk_count as nat, chunk_views(chunks@)),
        r is Ok ==> r->Ok_0@ == chunk_views(chunks@).flatten(),
        r == Err::<Vec<u8>, ReassemblyError>(ReassemblyError::MissingChunks) <==> (chunks@.len()
            < header.chunk_count && chunks_fit(
            header.payload_size as nat,
            chunks@.len(),
            chunk_views(chunks@),
        )),
        r == Err::<Vec<u8>, ReassemblyError>(ReassemblyError::AllChunksReceived) <==> (chunks@.len()
            > header.chunk_count && chunks_fit(
            header.payload_size as nat,
            header.chunk_count as nat,
            chunk_views(chunks@).take(header.chunk_count as int),
        )),
        r matches Err(ReassemblyError::ChunkSizeMismatch { .. }) <==> exists|i: int|
            0 <= i < chunks@.len() && i < header.chunk_count && (#[trigger] chunks@[i])@.len()
                != chunk_len(header.payload_size as nat, i as nat),
{
    let mut builder = Reassembler::new(header);
    let mut k: usize = 0;
    while k < chunks.len()
        invariant
            builder.wf(),
            k <= chunks@.len(),
            builder@.payload_size == header.payload_size,
            builder@.chunk_count == header.chunk_count,
            builder@.received == k,
            builder@.data == chunk_views(chunks@).take(k as int).flatten(),
            chunks_fit(header.payload_size as nat, k as nat, chunk_views(chunks@).take(k as int)),
        decreases chunks@.len() - k,
    {
        let ghost before = builder@;
        match builder.push_chunk(chunks[k].as_slice()) {
            Ok(()) => {},
            Err(e) => {
                proof {
                    let v = chunk_views(chunks@);
                    assert(v[k as int] == chunks@[k as int]@);
                    if k < header.chunk_count {
                        if header.chunk_count <= chunks@.len() {
                            assert(v.take(header.chunk_count as int)[k as int] == v[k as int]);
                        }
                        assert(chunks@[k as int]@.len() != chunk_len(header.payload_size as nat, k as nat));
                    } else {
                        assert(v.take(header.chunk_count as int) =~= v.take(k as int));
                        assert forall|i: int| 0 <= i < chunks@.len() && i < header.chunk_count implies (
                        #[trigger] chunks@[i])@.len() == chunk_len(header.payload_size as nat, i as nat) by {
                            assert(v.take(k as int)[i] == v[i]);
                        }
                    }
                }
                return Err(e);
            },
        }
        proof {
            let v = chunk_views(chunks@);
            assert(v.take(k + 1) =~= v.take(k as int).push(v[k as int]));
            lemma_flatten_push(v.take(k as int), v[k as int]);
        }
        k = k + 1;
    }
    proof {
        let v = chunk_views(chunks@);
        assert(v.take(k as int) =~= v);
        assert forall|i: int| 0 <= i < chunks@.len() && i < header.chunk_count implies (
        #[trigger] chunks@[i])@.len() == chunk_len(header.payload_size as nat, i as nat) by {
            assert(v[i] == chunks@[i]@);
        }
    }
    if !builder.is_complete() {
        return Err(ReassemblyError::MissingChunks);
    }
    proof {
        assert(chunk_views(chunks@).take(k as int) =~= chunk_views(chunks@));
    }
    Ok(builder.into_payload())
}

/// Splitting a payload into its announced chunks and reassembling them in
/// order gives the payload back: the chunks have exactly the sizes the
/// receiver expects, there are `len / PACKET_CHUNK_SIZE + 1` of them, and
/// their concatenation is the payload.
pub proof fn lemma_frame_then_reassemble(p: Seq<u8>)
    ensures
        chunks_fit(p.len(), spec_chunk_count(p.len()), frame_chunks(p)),
        frame_chunks(p).flatten() == p,
{
    let len = p.len();
    let c = frame_chunks(p);
    let n = spec_chunk_count(len);
    lemma_frame_prefix(p, n);
    assert(n * PACKET_CHUNK_SIZE > len) by (nonlinear_arith)
        requires
            n == len / PACKET_CHUNK_SIZE as nat + 1,
    ;
    assert(c.take(n as int) =~= c);
    assert(p.subrange(0, len as int) =~= p);
    assert forall|i: int| 0 <= i < c.len() implies (#[trigger] c[i]).len() == chunk_len(len, i as nat) by {
        lemma_chunk_start_mono(len, i as nat);
    }
}

proof fn lemma_frame_prefix(p: Seq<u8>, k: nat)
    requires
        k <= spec_chunk_count(p.len()),
    ensures
        frame_chunks(p).take(k as int).flatten() == p.subrange(0, chunk_start(p.len(), k) as int),
    decreases k,
{
    let len = p.len();
    let c = frame_chunks(p);
    if k == 0 {
        assert(c.take(0).flatten() =~= p.subrange(0, 0));
    } else {
        let j = (k - 1) as nat;
        lemma_frame_prefix(p, j);
        assert(c.take(k as int) =~= c.take(j as int).push(c[j as int]));
        lemma_flatten_push(c.take(j as int), c[j as int]);
        lemma_chunk_start_mono(len, j);
        assert(p.subrange(0, chunk_start(len, k) as int) =~= p.subrange(0, chunk_start(len, j) as int)
            + c[j as int]);
    }
}

pub(crate) proof fn lemma_chunk_start_mono(len: nat, i: nat)
    ensures
        chunk_start(len, i) <= chunk_start(len, i + 1) <= len,
{
    assert(i * PACKET_CHUNK_SIZE <= (i + 1) * PACKET_CHUNK_SIZE) by (nonlinear_arith);
}

} // verus!
