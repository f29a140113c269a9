use aoirecord::opus_header::{opus_head, opus_tags, VENDOR};
use aoirecord::track::{Track, FRAME_PCM_LEN, FRAME_SAMPLES, MAX_PACKET_LEN};
use std::io::Cursor;

fn frame_bytes(seed: u8, len: usize) -> (Vec<u8>, usize) {
    let mut buffer = Track::encode_buffer();
    for i in 0..len {
        buffer[i] = seed.wrapping_add(i as u8);
    }
    (buffer, len)
}

fn read_all(bytes: Vec<u8>) -> Vec<ogg::Packet> {
    let mut reader = ogg::PacketReader::new(Cursor::new(bytes));
    let mut packets = Vec::new();
    while let Some(p) = reader.read_packet().unwrap() {
        packets.push(p);
    }
    packets
}

#[test]
fn encode_buffer_is_zeroed() {
    let b = Track::encode_buffer();
    assert_eq!(b.len(), MAX_PACKET_LEN);
    assert!(b.iter().all(|&x| x == 0));
}

#[test]
fn silent_pcm_is_twenty_ms_of_zeros() {
    let pcm = Track::silent_pcm();
    assert_eq!(pcm.len(), FRAME_PCM_LEN);
    assert_eq!(pcm.len(), 2 * FRAME_SAMPLES as usize);
    assert!(pcm.iter().all(|&x| x == 0));
}

#[test]
fn create_writes_headers() {
    let mut track = Track::create(312);
    assert_eq!(track.pre_skip(), 312);
    assert_eq!(track.frame_count(), 0);
    assert!(!track.is_finished());
    let packets = read_all(track.take_output());
    assert_eq!(packets.len(), 2);
    assert_eq!(packets[0].data, opus_head(312));
    assert_eq!(packets[1].data, opus_tags(&VENDOR));
    assert!(packets[0].first_in_stream());
    assert_eq!(packets[0].absgp_page(), 0);
    assert_eq!(packets[1].absgp_page(), 0);
    assert_eq!(packets[0].stream_serial(), 1);
}

#[test]
fn create_truncates_lookahead_to_sixteen_bits() {
    let track = Track::create(0x1_0005);
    assert_eq!(track.pre_skip(), 5);
}

#[test]
fn last_frame_is_held_until_finalize() {
    let mut track = Track::create(100);
    let mut all = track.take_output();
    let (b, l) = frame_bytes(1, 10);
    track.write_frame(b, l);
    // The only frame is held back: nothing but headers was written.
    assert_eq!(track.frame_count(), 1);
    assert!(track.take_output().is_empty());
    all.extend(track.finalize());
    assert!(track.is_finished());
    let packets = read_all(all);
    assert_eq!(packets.len(), 3);
    assert_eq!(packets[2].data, (1u8..11).collect::<Vec<u8>>());
    assert!(packets[2].last_in_stream());
    assert_eq!(packets[2].absgp_page(), 100 + 960);
}

#[test]
fn full_stream_round_trips() {
    let mut track = Track::create(312);
    let mut all = track.take_output();
    let n = 5usize;
    for k in 0..n {
        let (b, l) = frame_bytes(k as u8 * 16, 3 + k);
        track.write_frame(b, l);
    }
    assert_eq!(track.frame_count(), n as u64);
    all.extend(track.take_output());
    all.extend(track.finalize());
    let packets = read_all(all);
    assert_eq!(packets.len(), 2 + n);
    for k in 0..n {
        let (b, l) = frame_bytes(k as u8 * 16, 3 + k);
        assert_eq!(packets[2 + k].data, b[..l].to_vec());
    }
    let last = &packets[2 + n - 1];
    assert!(last.last_in_stream());
    assert_eq!(last.absgp_page(), 312 + n as u64 * 960);
    for k in 0..n - 1 {
        assert!(!packets[2 + k].last_in_stream());
    }
}

#[test]
fn encoded_length_beyond_buffer_keeps_whole_buffer() {
    let mut track = Track::create(0);
    let buffer = vec![7u8; 12];
    track.write_frame(buffer, 100);
    let packets = read_all(track.finalize());
    assert_eq!(packets[2].data, vec![7u8; 12]);
}

#[test]
fn empty_encoded_frame() {
    let mut track = Track::create(0);
    track.write_frame(Track::encode_buffer(), 0);
    let packets = read_all(track.finalize());
    assert_eq!(packets.len(), 3);
    assert!(packets[2].data.is_empty());
    assert_eq!(packets[2].absgp_page(), 960);
}

#[test]
fn finalize_without_frames_closes_the_stream() {
    let mut track = Track::create(50);
    let bytes = track.finalize();
    let packets = read_all(bytes);
    assert_eq!(packets.len(), 3);
    assert!(packets[2].data.is_empty());
    assert!(packets[2].last_in_stream());
    assert_eq!(packets[2].absgp_page(), 50);
    assert!(track.is_finished());
    assert!(track.finalize().is_empty());
}

#[test]
fn finalize_twice_returns_nothing_the_second_time() {
    let mut track = Track::create(50);
    let (b, l) = frame_bytes(3, 4);
    track.write_frame(b, l);
    let first = track.finalize();
    assert!(!first.is_empty());
    assert!(track.finalize().is_empty());
}

#[test]
fn granules_of_pages_increase() {
    // Large frames fill pages, so the granule of each flushed page is visible.
    let mut track = Track::create(10);
    let mut all = track.take_output();
    for k in 0..40u8 {
        let (b, l) = frame_bytes(k, MAX_PACKET_LEN);
        track.write_frame(b, l);
    }
    all.extend(track.finalize());
    let packets = read_all(all);
    assert_eq!(packets.len(), 42);
    let mut last = 0u64;
    for p in &packets[2..] {
        if p.last_in_page() {
            assert!(p.absgp_page() > last || last == 0);
            last = p.absgp_page();
        }
    }
    assert_eq!(packets[41].absgp_page(), 10 + 40 * 960);
}
