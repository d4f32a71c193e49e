use qkd_camera::capture_sync::{synchronize, CaptureSync, SyncFailure, SyncStep};
use qkd_camera::config::{CameraFormat, Overrides, DEFAULT_AUDIO_FRAME_ACCUMULATOR_LENGTH, DEFAULT_CAMERA_FPS, DEFAULT_JPEG_QUALITY};
use qkd_camera::framing::{chunk_count, frame_payload, parse_header, FrameHeader, HeaderError, HEADER_SENTINEL, HEADER_SIZE, PACKET_CHUNK_SIZE};
use qkd_camera::image_guard::{check_image_header, Colorspace, ImageHeader, ImageRejection};
use qkd_camera::lockstep::{AckStatus, LockstepClient, LockstepError};
use qkd_camera::packet::{accumulate_sound_frames, PacketError, VideoAudioPacket};
use qkd_camera::reassembly::{reassemble, Reassembler, ReassemblyError};
use qkd_camera::receiver::{ack_frame, is_ack, ReceiveError, ReceiveEvent, Receiver};

fn payload_of_len(len: usize) -> Vec<u8> {
    (0..len).map(|i| (i % 251) as u8).collect()
}

/// Sends `payload` through framing and a receiver, returning what comes out.
fn transmit(payload: &Vec<u8>) -> Vec<u8> {
    let header = FrameHeader::for_payload(payload.len() as u64);
    let chunks = frame_payload(payload);
    assert_eq!(chunks.len() as u64, header.chunk_count);
    let mut receiver = Receiver::new();
    assert_eq!(receiver.next_read_len(), HEADER_SIZE as u64);
    let mut out = None;
    match receiver.feed(&header.to_bytes()).unwrap() {
        ReceiveEvent::PacketComplete(p) => out = Some(p),
        ReceiveEvent::NeedMore => {}
    }
    for chunk in &chunks {
        assert!(out.is_none());
        assert_eq!(receiver.next_read_len(), chunk.len() as u64);
        if let ReceiveEvent::PacketComplete(p) = receiver.feed(chunk).unwrap() {
            out = Some(p);
        }
    }
    assert_eq!(receiver.next_read_len(), HEADER_SIZE as u64);
    out.unwrap()
}

#[test]
fn framing_round_trip_edge_lengths() {
    let c = PACKET_CHUNK_SIZE;
    for len in [0, 1, c - 1, c, c + 1, 5 * c] {
        let payload = payload_of_len(len);
        assert_eq!(transmit(&payload), payload, "length {}", len);
    }
}

#[test]
fn chunk_count_formula() {
    assert_eq!(chunk_count(0), 1);
    assert_eq!(chunk_count(1), 1);
    assert_eq!(chunk_count(8191), 1);
    assert_eq!(chunk_count(8192), 2);
    assert_eq!(chunk_count(8193), 2);
    assert_eq!(chunk_count(5 * 8192), 6);
}

#[test]
fn chunk_sizes_follow_remaining_bytes() {
    let chunks = frame_payload(&payload_of_len(8192));
    assert_eq!(chunks.iter().map(|c| c.len()).collect::<Vec<_>>(), vec![8192, 0]);
    let chunks = frame_payload(&payload_of_len(20000));
    assert_eq!(chunks.iter().map(|c| c.len()).collect::<Vec<_>>(), vec![8192, 8192, 3616]);
    let chunks = frame_payload(&Vec::new());
    assert_eq!(chunks.len(), 1);
    assert!(chunks[0].is_empty());
}

#[test]
fn header_bytes_are_big_endian_words() {
    let h = FrameHeader::for_payload(0x0102);
    assert_eq!(h.chunk_count, 1);
    assert_eq!(h.sentinel, u64::MAX);
    let b = h.to_bytes();
    let mut expected = vec![0, 0, 0, 0, 0, 0, 1, 2, 0, 0, 0, 0, 0, 0, 0, 1];
    expected.extend_from_slice(&[0xff; 8]);
    assert_eq!(b, expected);
    assert_eq!(parse_header(&b), Ok(h));
}

#[test]
fn header_round_trip_large_values() {
    let h = FrameHeader { payload_size: u64::MAX - 3, chunk_count: 0x1234_5678_9abc_def0, sentinel: HEADER_SENTINEL };
    assert_eq!(parse_header(&h.to_bytes()), Ok(h));
}

#[test]
fn short_header_is_incomplete() {
    assert_eq!(parse_header(&[0u8; 23]), Err(HeaderError::Incomplete));
    assert_eq!(parse_header(&[]), Err(HeaderError::Incomplete));
}

#[test]
fn wrong_sentinel_is_refused() {
    let mut b = FrameHeader::for_payload(10).to_bytes();
    b[23] = 0xfe;
    assert_eq!(parse_header(&b), Err(HeaderError::InvalidSentinel(u64::MAX - 1)));
    let mut zero = FrameHeader::for_payload(10).to_bytes();
    for x in zero[16..24].iter_mut() {
        *x = 0;
    }
    assert_eq!(parse_header(&zero), Err(HeaderError::InvalidSentinel(0)));
}

#[test]
fn receiver_stops_on_wrong_sentinel() {
    let mut receiver = Receiver::new();
    let mut b = FrameHeader::for_payload(100).to_bytes();
    b[16] = 0;
    match receiver.feed(&b) {
        Err(ReceiveError::Header(HeaderError::InvalidSentinel(v))) => assert_eq!(v, 0x00ff_ffff_ffff_ffff),
        _ => panic!("header with a wrong sentinel was accepted"),
    }
    assert_eq!(receiver.next_read_len(), HEADER_SIZE as u64);
}

#[test]
fn receiver_refuses_wrong_chunk_size() {
    let mut receiver = Receiver::new();
    assert!(matches!(receiver.feed(&FrameHeader::for_payload(10).to_bytes()), Ok(ReceiveEvent::NeedMore)));
    assert_eq!(receiver.next_read_len(), 10);
    match receiver.feed(&[1, 2, 3]) {
        Err(ReceiveError::Chunk(ReassemblyError::ChunkSizeMismatch { expected, actual })) => {
            assert_eq!(expected, 10);
            assert_eq!(actual, 3);
        }
        _ => panic!("short chunk was accepted"),
    }
    assert_eq!(receiver.next_read_len(), 10);
}

#[test]
fn receiver_with_zero_chunks_completes_at_once() {
    let mut receiver = Receiver::new();
    let h = FrameHeader { payload_size: 5, chunk_count: 0, sentinel: HEADER_SENTINEL };
    match receiver.feed(&h.to_bytes()) {
        Ok(ReceiveEvent::PacketComplete(p)) => assert!(p.is_empty()),
        _ => panic!("expected an empty payload"),
    }
}

#[test]
fn reassembler_tracks_chunks() {
    let h = FrameHeader::for_payload(8200);
    let mut r = Reassembler::new(h);
    assert_eq!(r.expected_chunk_len(), Some(8192));
    assert!(r.push_chunk(&[0u8; 8192]).is_ok());
    assert_eq!(r.expected_chunk_len(), Some(8));
    assert!(!r.is_complete());
    assert!(r.push_chunk(&[7u8; 8]).is_ok());
    assert!(r.is_complete());
    assert_eq!(r.expected_chunk_len(), None);
    assert_eq!(r.push_chunk(&[]), Err(ReassemblyError::AllChunksReceived));
    let payload = r.into_payload();
    assert_eq!(payload.len(), 8200);
    assert_eq!(&payload[8192..], &[7u8; 8]);
}

#[test]
fn reassemble_reports_missing_and_extra_chunks() {
    let payload = payload_of_len(9000);
    let header = FrameHeader::for_payload(9000);
    let chunks = frame_payload(&payload);
    assert_eq!(reassemble(header, &chunks), Ok(payload.clone()));
    assert_eq!(reassemble(header, &chunks[..1].to_vec()), Err(ReassemblyError::MissingChunks));
    let mut extra = chunks.clone();
    extra.push(Vec::new());
    assert_eq!(reassemble(header, &extra), Err(ReassemblyError::AllChunksReceived));
}

#[test]
fn packet_round_trip() {
    let p = VideoAudioPacket::new(vec![0xff, 0xd8, 0xff, 0xe0, 1, 2, 3], vec![0, -1, 1, i16::MIN, i16::MAX], 44100);
    let bytes = p.serialize();
    let q = VideoAudioPacket::deserialize(&bytes).unwrap();
    assert_eq!(q.compressed_image, p.compressed_image);
    assert_eq!(q.sound_frame, p.sound_frame);
    assert_eq!(q.sound_sample_rate, 44100);
}

#[test]
fn packet_round_trip_empty_samples() {
    let p = VideoAudioPacket::new(vec![9], Vec::new(), 0);
    let q = VideoAudioPacket::deserialize(&p.serialize()).unwrap();
    assert_eq!(q.compressed_image, vec![9]);
    assert!(q.sound_frame.is_empty());
    assert_eq!(q.sound_sample_rate, 0);
}

#[test]
fn packet_encoding_is_compact() {
    let p = VideoAudioPacket::new(vec![1, 2], vec![1, -1], 16000);
    assert_eq!(p.serialize(), vec![2, 1, 2, 2, 2, 1, 0x80, 0x7d]);
}

#[test]
fn malformed_packet_is_refused() {
    assert!(matches!(VideoAudioPacket::deserialize(&[]), Err(PacketError::Malformed)));
    assert!(matches!(VideoAudioPacket::deserialize(&[5, 1]), Err(PacketError::Malformed)));
}

#[test]
fn image_guard_bound() {
    let h = |width, height, colorspace| ImageHeader { width, height, colorspace };
    assert_eq!(check_image_header(&h(100, 100, Colorspace::Rgb)), Ok(30000));
    assert_eq!(check_image_header(&h(2500, 4000, Colorspace::Gray)), Ok(10_000_000));
    assert_eq!(check_image_header(&h(2500, 4000, Colorspace::YCbCr)), Err(ImageRejection::TooLarge));
    assert_eq!(check_image_header(&h(10_000_001, 1, Colorspace::Gray)), Err(ImageRejection::TooLarge));
    assert_eq!(check_image_header(&h(1000, 1000, Colorspace::Cmyk)), Ok(4_000_000));
    assert_eq!(check_image_header(&h(u64::MAX, u64::MAX, Colorspace::Ycck)), Err(ImageRejection::TooLarge));
    assert_eq!(check_image_header(&h(0, u64::MAX, Colorspace::Rgb)), Ok(0));
}

#[test]
fn colorspace_channels() {
    assert_eq!(Colorspace::Rgb.channels(), 3);
    assert_eq!(Colorspace::YCbCr.channels(), 3);
    assert_eq!(Colorspace::Gray.channels(), 1);
    assert_eq!(Colorspace::Cmyk.channels(), 4);
    assert_eq!(Colorspace::Ycck.channels(), 4);
}

#[test]
fn ack_frame_is_ack() {
    assert_eq!(ack_frame(), b"ACK".to_vec());
    assert!(is_ack(b"ACK"));
    assert!(!is_ack(b"ACk"));
    assert!(!is_ack(b"ACKS"));
    assert!(!is_ack(b""));
}

#[test]
fn lockstep_one_packet_in_flight() {
    let p = VideoAudioPacket::new(vec![1, 2, 3], vec![4, 5], 8000);
    let mut client = LockstepClient::new();
    assert!(!client.is_awaiting_ack());
    let frame = client.begin_send(&p).unwrap();
    assert_eq!(frame.header.payload_size, p.serialize().len() as u64);
    assert_eq!(frame.chunks.concat(), p.serialize());
    assert!(client.is_awaiting_ack());
    assert!(matches!(client.begin_send(&p), Err(LockstepError::AckPending)));
    assert_eq!(client.receive_ack(b"ACK"), Ok(AckStatus::Valid));
    assert!(!client.is_awaiting_ack());
    assert_eq!(client.receive_ack(b"ACK"), Err(LockstepError::NothingInFlight));
    assert!(client.begin_send(&p).is_ok());
    assert_eq!(client.receive_ack(b"NAK"), Ok(AckStatus::Unexpected));
    assert!(client.begin_send(&p).is_ok());
}

#[test]
fn sync_succeeds_at_first_drop() {
    let lat: Vec<u128> = vec![20000, 21000, 19000, 150, 100, 1];
    assert_eq!(synchronize(&lat, 100), Ok(4));
    assert_eq!(synchronize(&lat, 4), Ok(4));
    assert_eq!(synchronize(&lat, 3), Err(SyncFailure::NoLatencyDrop { reads: 3 }));
}

#[test]
fn sync_drop_must_exceed_threshold() {
    assert_eq!(synchronize(&vec![1000, 10, 1], 10), Err(SyncFailure::NoLatencyDrop { reads: 3 }));
    assert_eq!(synchronize(&vec![1001, 10], 10), Ok(2));
}

#[test]
fn sync_fails_after_max_reads() {
    let lat: Vec<u128> = vec![500; 150];
    assert_eq!(synchronize(&lat, 100), Err(SyncFailure::NoLatencyDrop { reads: 100 }));
    assert_eq!(synchronize(&lat, 0), Err(SyncFailure::NoLatencyDrop { reads: 0 }));
    assert_eq!(synchronize(&vec![0], 100), Err(SyncFailure::NoLatencyDrop { reads: 1 }));
    assert_eq!(synchronize(&vec![u128::MAX, 1], 100), Ok(2));
}

#[test]
fn capture_sync_steps() {
    let mut s = CaptureSync::new(3);
    assert!(s.can_read());
    assert_eq!(s.record_read(10_000), SyncStep::Continue);
    assert_eq!(s.record_read(9_000), SyncStep::Continue);
    assert_eq!(s.record_read(50), SyncStep::Synchronized);
    let mut t = CaptureSync::new(2);
    assert_eq!(t.record_read(5), SyncStep::Continue);
    assert_eq!(t.record_read(5), SyncStep::Failed);
    assert!(!t.can_read());
}

#[test]
fn sound_frames_concatenate_in_order() {
    let frames = vec![vec![1i16, 2, 3], vec![], vec![-4, 5]];
    assert_eq!(accumulate_sound_frames(&frames), vec![1, 2, 3, -4, 5]);
    assert!(accumulate_sound_frames(&Vec::new()).is_empty());
}

#[test]
fn overrides_replace_defaults() {
    let device = CameraFormat { width: 640, height: 480 };
    let none = Overrides { format: None, camera_fps: None, jpeg_quality: None, audio_frame_accumulator_length: None };
    let s = none.resolve(device);
    assert_eq!(s.format, device);
    assert_eq!(s.camera_fps, DEFAULT_CAMERA_FPS);
    assert_eq!(s.jpeg_quality, DEFAULT_JPEG_QUALITY);
    assert_eq!(s.audio_frame_accumulator_length, DEFAULT_AUDIO_FRAME_ACCUMULATOR_LENGTH);
    let all = Overrides {
        format: Some(CameraFormat { width: 100, height: 50 }),
        camera_fps: Some(15),
        jpeg_quality: Some(80),
        audio_frame_accumulator_length: Some(4),
    };
    let s = all.resolve(device);
    assert_eq!(s.format, CameraFormat { width: 100, height: 50 });
    assert_eq!(s.camera_fps, 15);
    assert_eq!(s.jpeg_quality, 80);
    assert_eq!(s.audio_frame_accumulator_length, 4);
}

#[test]
fn end_to_end_packet_through_frames() {
    let image: Vec<u8> = (0..3000u32).map(|i| (i % 256) as u8).collect();
    let samples: Vec<i16> = (0..1024).map(|i| (i * 37 - 9000) as i16).collect();
    let packet = VideoAudioPacket::new(image.clone(), samples.clone(), 16000);
    let mut client = LockstepClient::new();
    let frame = client.begin_send(&packet).unwrap();
    let mut receiver = Receiver::new();
    let mut received = None;
    let mut incoming = vec![frame.header.to_bytes()];
    incoming.extend(frame.chunks.iter().cloned());
    for bytes in &incoming {
        if let ReceiveEvent::PacketComplete(p) = receiver.feed(bytes).unwrap() {
            received = Some(p);
        }
    }
    let rebuilt = VideoAudioPacket::deserialize(&received.unwrap()).unwrap();
    assert_eq!(client.receive_ack(&ack_frame()), Ok(AckStatus::Valid));
    assert_eq!(rebuilt.sound_sample_rate, 16000);
    assert_eq!(rebuilt.sound_frame.len(), 1024);
    assert_eq!(rebuilt.sound_frame, samples);
    assert_eq!(rebuilt.compressed_image, image);
}

#[test]
fn each_packet_completes_once_at_its_last_chunk() {
    let mut receiver = Receiver::new();
    let mut acks = 0;
    for len in [0usize, 8192, 20000] {
        let payload = payload_of_len(len);
        let mut inputs = vec![FrameHeader::for_payload(len as u64).to_bytes()];
        inputs.extend(frame_payload(&payload));
        let last = inputs.len() - 1;
        for (i, bytes) in inputs.iter().enumerate() {
            match receiver.feed(bytes).unwrap() {
                ReceiveEvent::PacketComplete(p) => {
                    assert_eq!(i, last);
                    assert_eq!(p, payload);
                    acks += 1;
                }
                ReceiveEvent::NeedMore => assert!(i < last),
            }
        }
    }
    assert_eq!(acks, 3);
}

#[test]
fn to_frame_announces_serialized_size() {
    let p = VideoAudioPacket::new(vec![7u8; 9000], vec![3i16; 10], 16000);
    let bytes = p.serialize();
    let frame = p.to_frame();
    assert_eq!(frame.header, FrameHeader::for_payload(bytes.len() as u64));
    assert_eq!(frame.chunks.len() as u64, frame.header.chunk_count);
    assert_eq!(frame.chunks.concat(), bytes);
}
