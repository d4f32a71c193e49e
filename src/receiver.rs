//! The receiving side of one connection: which bytes to read next, and what
//! to do with them once read.
use vstd::prelude::*;
use crate::framing::{
    chunk_len, chunk_start, frame_chunks, parse_header, spec_chunk_count, spec_parse_header,
    FrameHeader, HeaderError, HEADER_SIZE, PACKET_CHUNK_SIZE,
};
use crate::reassembly::{
    lemma_chunk_start_mono, lemma_frame_then_reassemble, Reassembler, ReassemblyError,
    ReassemblyState,
};

verus! {

/// The acknowledgement a receiver sends once a packet has been read in full.
pub open spec fn ack_bytes() -> Seq<u8> {
    seq![65u8, 67u8, 75u8]
}

/// The acknowledgement frame, `ACK`.
pub fn ack_frame() -> (r: Vec<u8>)
    ensures
        r@ == ack_bytes(),
{
    let mut r: Vec<u8> = Vec::new();
    r.push(65u8);
    r.push(67u8);
    r.push(75u8);
    assert(r@ =~= ack_bytes());
    r
}

/// Whether `b` is exactly the acknowledgement frame.
pub fn is_ack(b: &[u8]) -> (r: bool)
    ensures
        r == (b@ == ack_bytes()),
{
    let r = b.len() == 3 && b[0] == 65u8 && b[1] == 67u8 && b[2] == 75u8;
    proof {
        if r {
            assert(b@ =~= ack_bytes());
        }
    }
    r
}

/// Where a receiver stands in the current packet.
pub ghost enum ReceiverView {
    AwaitingHeader,
    Receiving(ReassemblyState),
}

/// A connection-fatal failure: the stream can no longer be read as frames.
#[derive(Clone, Copy, Debug, PartialEq, Eq, Structural)]
pub enum ReceiveError {
    /// The header was refused; the stream is out of step.
    Header(HeaderError),
    /// A chunk was refused.
    Chunk(ReassemblyError),
}

/// What became of the bytes handed to `Receiver::feed`.
pub enum ReceiveEvent {
    /// More bytes are needed; `Receiver::next_read_len` says how many.
    NeedMore,
    /// The announced payload has been read in full. The acknowledgement is
    /// now owed to the sender, and not before.
    PacketComplete(Vec<u8>),
}

/// `r` reports a complete payload holding `data`.
pub open spec fn completes_with(r: Result<ReceiveEvent, ReceiveError>, data: Seq<u8>) -> bool {
    match r {
        Ok(ReceiveEvent::PacketComplete(p)) => p@ == data,
        _ => false,
    }
}

/// `r` asks for more bytes.
pub open spec fn needs_more(r: Result<ReceiveEvent, ReceiveError>) -> bool {
    r matches Ok(ReceiveEvent::NeedMore)
}

/// The receiver's state and completed payload (if any) after the bytes `b`
/// are handed to it in state `v`, or the connection-fatal error they cause.
pub open spec fn receiver_step(v: ReceiverView, b: Seq<u8>) -> Result<(ReceiverView, Option<Seq<u8>>), ReceiveError> {
    match v {
        ReceiverView::AwaitingHeader => match spec_parse_header(b) {
            Err(e) => Err(ReceiveError::Header(e)),
            Ok(h) => if h.chunk_count == 0 {
                Ok((ReceiverView::AwaitingHeader, Some(Seq::empty())))
            } else {
                Ok(
                    (
                        ReceiverView::Receiving(
                            ReassemblyState {
                                payload_size: h.payload_size as nat,
                                chunk_count: h.chunk_count as nat,
                                received: 0,
                                data: Seq::empty(),
                            },
                        ),
                        None,
                    ),
                )
            },
        },
        ReceiverView::Receiving(s) => if b.len() != chunk_len(s.payload_size, s.received) {
            Err(
                ReceiveError::Chunk(
                    ReassemblyError::ChunkSizeMismatch {
                        expected: chunk_len(s.payload_size, s.received) as u64,
                        actual: b.len() as usize,
                    },
                ),
            )
        } else if s.received + 1 == s.chunk_count {
            Ok((ReceiverView::AwaitingHeader, Some(s.data + b)))
        } else {
            Ok(
                (
                    ReceiverView::Receiving(
                        ReassemblyState { received: s.received + 1, data: s.data + b, ..s },
                    ),
                    None,
                ),
            )
        },
    }
}

/// The state reached and the completed payloads (one entry per input, `None`
/// where none completed) when `inputs` are handed in order to a receiver in
/// state `v`, or the first error.
pub open spec fn receiver_run(v: ReceiverView, inputs: Seq<Seq<u8>>) -> Result<
    (ReceiverView, Seq<Option<Seq<u8>>>),
    ReceiveError,
>
    decreases inputs.len(),
{
    if inputs.len() == 0 {
        Ok((v, Seq::empty()))
    } else {
        match receiver_step(v, inputs[0]) {
            Err(e) => Err(e),
            Ok((next, out)) => match receiver_run(next, inputs.drop_first()) {
                Err(e) => Err(e),
                Ok((last, outs)) => Ok((last, seq![out] + outs)),
            },
        }
    }
}

/// Tracks the frame being read on one connection.
pub struct Receiver {
    pending: Option<Reassembler>,
}

impl View for Receiver {
    type V = ReceiverView;

    closed spec fn view(&self) -> ReceiverView {
        match self.pending {
            None => ReceiverView::AwaitingHeader,
            Some(r) => ReceiverView::Receiving(r@),
        }
    }
}

impl Receiver {
    /// Internal consistency: a pending reassembler still expects a chunk.
    pub closed spec fn wf(&self) -> bool {
        match self.pending {
            None => true,
            Some(r) => r.wf() && r@.received < r@.chunk_count,
        }
    }

    /// A receiver waiting for the first header.
    pub fn new() -> (r: Receiver)
        ensures
            r.wf(),
            r@ == ReceiverView::AwaitingHeader,
    {
        Receiver { pending: None }
    }

    /// Number of bytes to read before the next call of `feed`: a header, or
    /// the size of the next chunk (possibly zero).
    pub fn next_read_len(&self) -> (r: u64)
        requires
            self.wf(),
        ensures
            r == match self@ {
                ReceiverView::AwaitingHeader => HEADER_SIZE as nat,
                ReceiverView::Receiving(s) => chunk_len(s.payload_size, s.received),
            },
    {
        match &self.pending {
            None => HEADER_SIZE as u64,
            Some(r) => {
                match r.expected_chunk_len() {
                    Some(n) => n,
                    None => 0,
                }
            },
        }
    }

    /// Takes the bytes read as `next_read_len` asked. A header whose
    /// sentinel is wrong ends the connection before any chunk is read.
    pub fn feed(&mut self, bytes: &[u8]) -> (r: Result<ReceiveEvent, ReceiveError>)
        requires
            old(self).wf(),
        ensures
            final(self).wf(),
            match receiver_step(old(self)@, bytes@) {
                Err(e) => r == Err::<ReceiveEvent, ReceiveError>(e) && final(self)@ == old(self)@,
                Ok((next, None)) => needs_more(r) && final(self)@ == next,
                Ok((next, Some(data))) => completes_with(r, data) && final(self)@ == next,
            },
    {
        match self.pending.take() {
            None => {
                let h = match parse_header(bytes) {
                    Ok(h) => h,
                    Err(e) => return Err(ReceiveError::Header(e)),
                };
                let builder = Reassembler::new(h);
                if builder.is_complete() {
                    Ok(ReceiveEvent::PacketComplete(builder.into_payload()))
                } else {
                    self.pending = Some(builder);
                    Ok(ReceiveEvent::NeedMore)
                }
            },
            Some(mut builder) => {
                match builder.push_chunk(bytes) {
                    Ok(()) => {},
                    Err(e) => {
                        self.pending = Some(builder);
                        return Err(ReceiveError::Chunk(e));
                    },
                }
                if builder.is_complete() {
                    Ok(ReceiveEvent::PacketComplete(builder.into_payload()))
                } else {
                    self.pending = Some(builder);
                    Ok(ReceiveEvent::NeedMore)
                }
            },
        }
    }
}

/// `n` inputs that complete nothing, then one that completes `p`.
pub open spec fn completes_only_last(n: nat, p: Seq<u8>) -> Seq<Option<Seq<u8>>> {
    Seq::new(n, |i: int| None::<Seq<u8>>).push(Some(p))
}

/// The receiver's state once chunks `0..k` of payload `p` are in.
spec fn receiving_after(p: Seq<u8>, k: nat) -> ReceiverView {
    ReceiverView::Receiving(
        ReassemblyState {
            payload_size: p.len(),
            chunk_count: spec_chunk_count(p.len()),
            received: k,
            data: p.subrange(0, chunk_start(p.len(), k) as int),
        },
    )
}

proof fn lemma_run_chunks(p: Seq<u8>, k: nat)
    requires
        k < spec_chunk_count(p.len()),
    ensures
        receiver_run(receiving_after(p, k), frame_chunks(p).subrange(k as int, spec_chunk_count(p.len()) as int))
            == Ok::<(ReceiverView, Seq<Option<Seq<u8>>>), ReceiveError>(
            (ReceiverView::AwaitingHeader, completes_only_last((spec_chunk_count(p.len()) - 1 - k) as nat, p)),
        ),
    decreases spec_chunk_count(p.len()) - k,
{
    let len = p.len();
    let n = spec_chunk_count(len);
    let c = frame_chunks(p);
    let inputs = c.subrange(k as int, n as int);
    lemma_frame_then_reassemble(p);
    lemma_chunk_start_mono(len, k);
    assert(c[k as int].len() == chunk_len(len, k));
    assert(inputs[0] == c[k as int]);
    let data = p.subrange(0, chunk_start(len, k) as int) + c[k as int];
    assert(data =~= p.subrange(0, chunk_start(len, k + 1) as int));
    if k + 1 == n {
        assert(n * PACKET_CHUNK_SIZE > len) by (nonlinear_arith)
            requires
                n == len / PACKET_CHUNK_SIZE as nat + 1,
        ;
        assert(data =~= p);
        assert(receiver_step(receiving_after(p, k), inputs[0]) == Ok::<
            (ReceiverView, Option<Seq<u8>>),
            ReceiveError,
        >((ReceiverView::AwaitingHeader, Some(p))));
        assert(inputs.drop_first() =~= Seq::<Seq<u8>>::empty());
        assert(receiver_run(ReceiverView::AwaitingHeader, inputs.drop_first()) == Ok::<
            (ReceiverView, Seq<Option<Seq<u8>>>),
            ReceiveError,
        >((ReceiverView::AwaitingHeader, Seq::empty())));
        assert(seq![Some(p)] + Seq::<Option<Seq<u8>>>::empty() =~= completes_only_last(0, p));
    } else {
        lemma_run_chunks(p, k + 1);
        assert(inputs.drop_first() =~= c.subrange(k + 1 as int, n as int));
        let s = ReassemblyState {
            payload_size: len,
            chunk_count: n,
            received: k,
            data: p.subrange(0, chunk_start(len, k) as int),
        };
        assert(ReassemblyState { received: s.received + 1, data: s.data + c[k as int], ..s } == ReassemblyState {
            payload_size: len,
            chunk_count: n,
            received: k + 1,
            data: p.subrange(0, chunk_start(len, k + 1) as int),
        });
        assert(receiver_step(receiving_after(p, k), inputs[0]) == Ok::<
            (ReceiverView, Option<Seq<u8>>),
            ReceiveError,
        >((receiving_after(p, k + 1), None)));
        assert(seq![None::<Seq<u8>>] + completes_only_last((n - 1 - (k + 1)) as nat, p) =~= completes_only_last(
            (n - 1 - k) as nat,
            p,
        ));
    }
}

/// Each packet is completed exactly once: a receiver waiting for a header,
/// handed a header that announces payload `p` and then the chunks of `p`,
/// completes nothing until the last chunk, completes `p` itself there, and
/// waits for the next header again. Since the acknowledgement is owed on a
/// completion and only then, each packet sent is answered by exactly one
/// acknowledgement, after all its bytes were read.
pub proof fn lemma_one_completion_per_packet(header: Seq<u8>, p: Seq<u8>)
    requires
        p.len() <= u64::MAX,
        spec_parse_header(header) == Ok::<FrameHeader, HeaderError>(FrameHeader::spec_for_payload(p.len())),
    ensures
        receiver_run(ReceiverView::AwaitingHeader, seq![header] + frame_chunks(p)) == Ok::<
            (ReceiverView, Seq<Option<Seq<u8>>>),
            ReceiveError,
        >((ReceiverView::AwaitingHeader, completes_only_last(spec_chunk_count(p.len()), p))),
{
    let len = p.len();
    let n = spec_chunk_count(len);
    let inputs = seq![header] + frame_chunks(p);
    assert(n <= u64::MAX) by (nonlinear_arith)
        requires
            n == len / PACKET_CHUNK_SIZE as nat + 1,
            len <= u64::MAX,
    ;
    assert(inputs[0] == header);
    assert(chunk_start(len, 0) == 0);
    assert(p.subrange(0, 0) =~= Seq::<u8>::empty());
    lemma_run_chunks(p, 0);
    assert(inputs.drop_first() =~= frame_chunks(p).subrange(0, n as int));
    assert(seq![None::<Seq<u8>>] + completes_only_last((n - 1) as nat, p) =~= completes_only_last(n, p));
}

} // verus!
