//! The media packet exchanged once per cycle, and its serialized form.
use vstd::prelude::*;
use crate::framing::{frame_chunks, frame_payload, FrameHeader};

verus! {

#[verifier::external_type_specification]
#[verifier::external_body]
pub struct ExPostcardError(postcard::Error);

/// The bytes that the serialization codec writes for a packet with these
/// three fields, in this order.
pub uninterp spec fn packet_encoding(image: Seq<u8>, samples: Seq<i16>, rate: u32) -> Seq<u8>;

/// Relies on `postcard::to_allocvec`: it writes the fields of a tuple in
/// order, the same bytes as for a struct with these three fields. Into a
/// growable vector, and for vectors (whose length is always known) and
/// integers, it does not fail.
#[verifier::external_body]
fn postcard_encode(image: &Vec<u8>, samples: &Vec<i16>, rate: u32) -> (r: Result<Vec<u8>, postcard::Error>)
    ensures
        r is Ok,
        r->Ok_0@ == packet_encoding(image@, samples@, rate),
{
    postcard::to_allocvec(&(image, samples, rate))
}

/// Relies on `postcard::from_bytes`: the bytes that `postcard::to_allocvec`
/// wrote for three fields are read back as those fields.
#[verifier::external_body]
fn postcard_decode(b: &[u8]) -> (r: Result<(Vec<u8>, Vec<i16>, u32), postcard::Error>)
    ensures
        forall|image: Seq<u8>, samples: Seq<i16>, rate: u32|
            #[trigger] packet_encoding(image, samples, rate) == b@ ==> (r is Ok && r->Ok_0.0@ == image
                && r->Ok_0.1@ == samples && r->Ok_0.2 == rate),
{
    postcard::from_bytes::<(Vec<u8>, Vec<i16>, u32)>(b)
}

/// One cycle's worth of synchronized media: a compressed video frame and
/// the mono audio samples captured with it.
pub struct VideoAudioPacket {
    pub compressed_image: Vec<u8>,
    pub sound_frame: Vec<i16>,
    pub sound_sample_rate: u32,
}

/// The contents of a packet.
pub ghost struct PacketView {
    pub image: Seq<u8>,
    pub samples: Seq<i16>,
    pub rate: u32,
}

impl View for VideoAudioPacket {
    type V = PacketView;

    open spec fn view(&self) -> PacketView {
        PacketView { image: self.compressed_image@, samples: self.sound_frame@, rate: self.sound_sample_rate }
    }
}

/// The serialized form of a packet's contents.
pub open spec fn encoded(p: PacketView) -> Seq<u8> {
    packet_encoding(p.image, p.samples, p.rate)
}

/// Why bytes could not be read back as a packet.
#[derive(Clone, Copy, Debug, PartialEq, Eq, Structural)]
pub enum PacketError {
    /// The bytes are not a serialized packet.
    Malformed,
}

/// A serialized packet ready to send: its header and its chunks.
pub struct OutgoingFrame {
    pub header: FrameHeader,
    pub chunks: Vec<Vec<u8>>,
}

impl VideoAudioPacket {
    /// A packet made of the given parts.
    pub fn new(compressed_image: Vec<u8>, sound_frame: Vec<i16>, sound_sample_rate: u32) -> (r: VideoAudioPacket)
        ensures
            r@ == (PacketView { image: compressed_image@, samples: sound_frame@, rate: sound_sample_rate }),
    {
        VideoAudioPacket { compressed_image, sound_frame, sound_sample_rate }
    }

    /// The packet in its serialized form.
    pub fn serialize(&self) -> (r: Vec<u8>)
        ensures
            r@ == encoded(self@),
    {
        match postcard_encode(&self.compressed_image, &self.sound_frame, self.sound_sample_rate) {
            Ok(bytes) => bytes,
            Err(_) => {
                proof {
                    assert(false);
                }
                Vec::new()
            },
        }
    }

    /// Reads a packet from its serialized form. Whatever `serialize`
    /// produced is read back with all three fields equal.
    pub fn deserialize(b: &[u8]) -> (r: Result<VideoAudioPacket, PacketError>)
        ensures
            forall|p: PacketView| #[trigger] encoded(p) == b@ ==> (r is Ok && r->Ok_0@ == p),
            r is Err ==> r == Err::<VideoAudioPacket, PacketError>(PacketError::Malformed),
    {
        match postcard_decode(b) {
            Ok((compressed_image, sound_frame, sound_sample_rate)) => Ok(
                VideoAudioPacket { compressed_image, sound_frame, sound_sample_rate },
            ),
            Err(_) => {
                proof {
                    assert forall|p: PacketView| #[trigger] encoded(p) == b@ implies false by {
                        assert(packet_encoding(p.image, p.samples, p.rate) == b@);
                    }
                }
                Err(PacketError::Malformed)
            },
        }
    }

    /// Serializes the packet and splits it for sending: a header announcing
    /// the serialized size and `size / PACKET_CHUNK_SIZE + 1` chunks, and the
    /// chunks themselves, in order.
    pub fn to_frame(&self) -> (r: OutgoingFrame)
        ensures
            r.header == FrameHeader::spec_for_payload(encoded(self@).len()),
            r.chunks@.len() == frame_chunks(encoded(self@)).len(),
            forall|i: int| 0 <= i < r.chunks@.len() ==> #[trigger] r.chunks@[i]@ == frame_chunks(encoded(self@))[i],
    {
        let bytes = self.serialize();
        let header = FrameHeader::for_payload(bytes.len() as u64);
        let chunks = frame_payload(&bytes);
        OutgoingFrame { header, chunks }
    }
}

/// Concatenates audio captures in the order they were taken.
pub fn accumulate_sound_frames(frames: &Vec<Vec<i16>>) -> (r: Vec<i16>)
    ensures
        r@ == frames@.map_values(|f: Vec<i16>| f@).flatten(),
{
    let mut r: Vec<i16> = Vec::new();
    let mut k: usize = 0;
    while k < frames.len()
        invariant
            k <= frames@.len(),
            r@ == frames@.map_values(|f: Vec<i16>| f@).take(k as int).flatten(),
        decreases frames@.len() - k,
    {
        let ghost before = r@;
        let frame = &frames[k];
        let mut j: usize = 0;
        while j < frame.len()
            invariant
                j <= frame@.len(),
                r@ == before + frame@.subrange(0, j as int),
            decreases frame@.len() - j,
        {
            r.push(frame[j]);
            assert(before + frame@.subrange(0, j + 1) =~= (before + frame@.subrange(0, j as int)).push(frame@[j as int]));
            j = j + 1;
        }
        proof {
            let v = frames@.map_values(|f: Vec<i16>| f@);
            assert(frame@.subrange(0, frame@.len() as int) =~= frame@);
            assert(v.take(k + 1) =~= v.take(k as int) + seq![v[k as int]]);
            vstd::seq_lib::lemma_flatten_concat(v.take(k as int), seq![v[k as int]]);
            seq![v[k as int]].lemma_flatten_one_element();
        }
        k = k + 1;
    }
    proof {
        assert(frames@.map_values(|f: Vec<i16>| f@).take(frames@.len() as int) =~= frames@.map_values(|f: Vec<i16>| f@));
    }
    r
}

} // verus!
