use aoirecord::session::{
    channel_bitrate, find_voice, FrameSource, RecordingSession, SpeakingAction, VoiceFrame,
    DEFAULT_BITRATE,
};
use aoirecord::track::Track;
use std::io::Cursor;

fn voice(ssrc: u32, decoded: Option<Vec<i16>>) -> VoiceFrame {
    VoiceFrame { ssrc, decoded }
}

fn read_all(bytes: Vec<u8>) -> Vec<ogg::Packet> {
    let mut reader = ogg::PacketReader::new(Cursor::new(bytes));
    let mut packets = Vec::new();
    while let Some(p) = reader.read_packet().unwrap() {
        packets.push(p);
    }
    packets
}

#[test]
fn bitrate_defaults_to_64000() {
    assert_eq!(channel_bitrate(None), 64000);
    assert_eq!(channel_bitrate(None), DEFAULT_BITRATE);
    assert_eq!(channel_bitrate(Some(96000)), 96000);
}

#[test]
fn new_session_is_empty() {
    let s = RecordingSession::new(64000);
    assert_eq!(s.tick_count(), 0);
    assert_eq!(s.bitrate(), 64000);
    assert!(!s.has_track(1));
}

#[test]
fn speaking_without_user_is_ignored() {
    let mut s = RecordingSession::new(64000);
    assert_eq!(s.on_speaking_update(5, None), SpeakingAction::Ignore);
}

#[test]
fn speaking_asks_for_a_track_once() {
    let mut s = RecordingSession::new(64000);
    assert_eq!(s.on_speaking_update(5, Some(42)), SpeakingAction::NeedsTrack(42));
    // Still no track: asks again.
    assert_eq!(s.on_speaking_update(5, Some(42)), SpeakingAction::NeedsTrack(42));
    s.set_name(42, "alice".to_string());
    assert_eq!(s.add_track(42, 312), Some(0));
    assert!(s.has_track(42));
    assert_eq!(s.on_speaking_update(6, Some(42)), SpeakingAction::Known);
    // A second track for the same user is refused.
    assert_eq!(s.add_track(42, 312), None);
}

#[test]
fn late_track_owes_silence_for_past_ticks() {
    let mut s = RecordingSession::new(64000);
    for _ in 0..3 {
        let plan = s.on_voice_tick(&Vec::new());
        assert!(plan.is_empty());
    }
    assert_eq!(s.tick_count(), 3);
    s.on_speaking_update(9, Some(7));
    assert_eq!(s.add_track(7, 0), Some(3));
    // Catch up: three frames are accepted, a fourth is not.
    for _ in 0..3 {
        assert!(s.write_frame(7, Track::encode_buffer(), 1));
    }
    assert!(!s.write_frame(7, Track::encode_buffer(), 1));
    // The next tick lets one more frame in.
    let plan = s.on_voice_tick(&Vec::new());
    assert_eq!(plan, vec![(7, FrameSource::Silence)]);
    assert!(s.write_frame(7, Track::encode_buffer(), 1));
    assert!(!s.write_frame(7, Track::encode_buffer(), 1));
}

#[test]
fn write_frame_refuses_unknown_user_and_oversized_buffer() {
    let mut s = RecordingSession::new(64000);
    s.add_track(1, 0);
    s.on_voice_tick(&Vec::new());
    assert!(!s.write_frame(2, Track::encode_buffer(), 1));
    assert!(!s.write_frame(1, vec![0u8; 4001], 1));
    assert!(s.write_frame(1, vec![0u8; 4000], 1));
}

#[test]
fn tick_plans_voice_or_silence_per_track() {
    let mut s = RecordingSession::new(64000);
    s.on_speaking_update(100, Some(1));
    s.on_speaking_update(200, Some(2));
    s.add_track(1, 0);
    s.add_track(2, 0);
    s.add_track(3, 0); // no SSRC known for user 3
    let speaking = vec![
        voice(300, Some(vec![1, 2])),
        voice(200, None),
        voice(100, Some(vec![5; 1920])),
    ];
    let plan = s.on_voice_tick(&speaking);
    assert_eq!(
        plan,
        vec![
            (1, FrameSource::Voice(2)),
            (2, FrameSource::Silence),
            (3, FrameSource::Silence),
        ]
    );
    assert_eq!(s.tick_count(), 1);
}

#[test]
fn tick_uses_first_entry_of_an_ssrc() {
    let mut s = RecordingSession::new(64000);
    s.on_speaking_update(100, Some(1));
    s.add_track(1, 0);
    let speaking = vec![voice(100, None), voice(100, Some(vec![1]))];
    assert_eq!(s.on_voice_tick(&speaking), vec![(1, FrameSource::Silence)]);
}

#[test]
fn latest_ssrc_wins() {
    let mut s = RecordingSession::new(64000);
    s.on_speaking_update(100, Some(1));
    s.add_track(1, 0);
    s.on_speaking_update(101, Some(1));
    let speaking = vec![voice(100, Some(vec![1])), voice(101, Some(vec![2]))];
    assert_eq!(s.on_voice_tick(&speaking), vec![(1, FrameSource::Voice(1))]);
}

#[test]
fn find_voice_examples() {
    let speaking = vec![voice(1, None), voice(2, None), voice(1, Some(vec![]))];
    assert_eq!(find_voice(&speaking, 1), Some(0));
    assert_eq!(find_voice(&speaking, 2), Some(1));
    assert_eq!(find_voice(&speaking, 3), None);
    assert_eq!(find_voice(&Vec::new(), 3), None);
}

#[test]
fn outputs_and_finalize() {
    let mut s = RecordingSession::new(64000);
    s.add_track(1, 312);
    s.add_track(2, 0);
    let out = s.take_outputs();
    assert_eq!(out.len(), 2);
    assert_eq!(out[0].0, 1);
    let mut first_stream = out[0].1.clone();
    assert_eq!(read_all(first_stream.clone()).len(), 2);
    assert!(s.take_outputs().iter().all(|(_, b)| b.is_empty()));
    s.on_voice_tick(&Vec::new());
    assert!(s.write_frame(1, vec![9u8; 5], 5));
    let done = s.finalize_tracks();
    assert_eq!(done.len(), 2);
    assert_eq!(done[0].user_id, 1);
    assert_eq!(done[1].user_id, 2);
    assert!(done[0].track.is_finished() && done[1].track.is_finished());
    assert_eq!(done[0].track.frame_count(), 1);
    first_stream.extend(done[0].bytes.clone());
    let packets = read_all(first_stream);
    assert_eq!(packets.len(), 3);
    assert_eq!(packets[2].data, vec![9u8; 5]);
    assert!(packets[2].last_in_stream());
    assert_eq!(packets[2].absgp_page(), 312 + 960);
    let second = read_all([out[1].1.clone(), done[1].bytes.clone()].concat());
    assert_eq!(second.len(), 3);
    assert!(second[2].data.is_empty() && second[2].last_in_stream());
    assert!(!s.has_track(1));
    assert!(s.finalize_tracks().is_empty());
}

#[test]
fn skipped_frames_are_missed_not_owed() {
    let mut s = RecordingSession::new(64000);
    s.on_voice_tick(&Vec::new());
    s.on_voice_tick(&Vec::new());
    assert_eq!(s.add_track(5, 0), Some(2));
    assert!(s.write_frame(5, Track::encode_buffer(), 1));
    // The second owed frame could not be encoded.
    assert_eq!(s.skip_frames(5), 1);
    assert!(!s.write_frame(5, Track::encode_buffer(), 1));
    s.on_voice_tick(&Vec::new());
    assert!(s.write_frame(5, Track::encode_buffer(), 1));
    assert_eq!(s.skip_frames(5), 0);
    assert_eq!(s.skip_frames(9), 0);
}
