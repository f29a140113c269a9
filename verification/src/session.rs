//! One recording session: the voice clock, who speaks under which SSRC, and
//! one track per speaker, all kept aligned to the clock.
//!
//! The session reacts to the two voice events of the voice connection. The
//! Opus encoding and all I/O stay with the caller, who drives the session:
//! - a speaking-state update maps an SSRC to a user; when that user has no
//!   track yet, the caller resolves the user's name, makes an encoder, and
//!   calls [`RecordingSession::add_track`], which says how many frames of
//!   silence the new track owes to catch up with the clock;
//! - a voice tick advances the clock by 20 ms and plans one frame per track:
//!   the speaker's decoded voice when it arrived in this tick, else silence.
//!   The caller encodes each planned frame and hands it to
//!   [`RecordingSession::write_frame`].
//!
//! Every track accounts for every tick: it has a frame for it, owes one, or
//! has it recorded as missed, when the caller reports with
//! [`RecordingSession::skip_frames`] that the frames it owes could not be
//! encoded.
use vstd::prelude::*;

use std::collections::HashMap;

use crate::track::{
    bytes_match, encoded_frame, frame_packet, last_packet, ogg_stream_bytes, stream_packets, Track,
    TrackView, MAX_FRAMES, MAX_PACKET_LEN,
};

verus! {

broadcast use vstd::std_specs::hash::group_hash_axioms;

/// Bitrate used when the voice channel does not report one.
pub const DEFAULT_BITRATE: u32 = 64000;

/// One entry of a voice tick: the SSRC that spoke and, when it could be
/// decoded, its 20 ms of interleaved stereo PCM.
pub struct VoiceFrame {
    pub ssrc: u32,
    pub decoded: Option<Vec<i16>>,
}

/// Where the next frame of a track comes from.
#[derive(Clone, Copy, Debug, PartialEq, Eq, Structural)]
pub enum FrameSource {
    /// The decoded voice of the tick entry at this index.
    Voice(usize),
    /// A frame of silence.
    Silence,
}

/// What a speaking-state update asks of the caller.
#[derive(Clone, Copy, Debug, PartialEq, Eq, Structural)]
pub enum SpeakingAction {
    /// The update names no user: nothing changed.
    Ignore,
    /// The user already has a track.
    Known,
    /// The user has no track yet: resolve the name and add one.
    NeedsTrack(u64),
}

/// A track closed at the end of a session, with its user and the bytes of
/// the pages it had not yet handed out.
pub struct ClosedTrack {
    pub user_id: u64,
    pub track: Track,
    pub bytes: Vec<u8>,
}

/// One speaker's track inside a session, with the frames it still owes to
/// the clock and those it missed.
pub struct UserTrack {
    user_id: u64,
    track: Track,
    owed: u64,
    missing: u64,
}

/// The abstract state of a session.
pub struct SessionView {
    pub ssrc_to_user: Map<u32, u64>,
    pub user_to_ssrc: Map<u64, u32>,
    pub names: Map<u64, String>,
    /// The speakers that have a track, in the order their tracks were added.
    pub users: Seq<u64>,
    /// Their tracks, in the same order.
    pub tracks: Seq<TrackView>,
    /// For each track, the frames it still owes: ticks seen that it has had
    /// neither a frame nor a reported miss for.
    pub owed: Seq<nat>,
    /// For each track, the frames reported missed (never encoded).
    pub missing: Seq<nat>,
    /// Ticks of 20 ms seen since the session started.
    pub tick_count: nat,
    pub bitrate: u32,
}

/// Index of the first tick entry of the given SSRC at or after `from`.
pub open spec fn find_ssrc_from(speaking: Seq<VoiceFrame>, ssrc: u32, from: int) -> Option<int>
    decreases speaking.len() - from,
{
    if from < 0 || from >= speaking.len() {
        None
    } else if speaking[from].ssrc == ssrc {
        Some(from)
    } else {
        find_ssrc_from(speaking, ssrc, from + 1)
    }
}

/// A found entry lies at or after `from`, inside the tick, and has the SSRC.
pub proof fn lemma_find_ssrc_from(speaking: Seq<VoiceFrame>, ssrc: u32, from: int)
    ensures
        find_ssrc_from(speaking, ssrc, from) matches Some(i) ==> from <= i < speaking.len()
            && speaking[i].ssrc == ssrc,
    decreases speaking.len() - from,
{
    if 0 <= from < speaking.len() && speaking[from].ssrc != ssrc {
        lemma_find_ssrc_from(speaking, ssrc, from + 1);
    }
}

/// The search finds the first entry of the SSRC at or after `from`: an entry
/// at `i` with that SSRC and none between `from` and `i`.
pub proof fn lemma_find_ssrc_first(speaking: Seq<VoiceFrame>, ssrc: u32, from: int, i: int)
    requires
        0 <= from <= i < speaking.len(),
        speaking[i].ssrc == ssrc,
        forall|j: int| from <= j < i ==> speaking[j].ssrc != ssrc,
    ensures
        find_ssrc_from(speaking, ssrc, from) == Some(i),
    decreases i - from,
{
    if from < i {
        lemma_find_ssrc_first(speaking, ssrc, from + 1, i);
    }
}

/// The search finds nothing when no entry at or after `from` has the SSRC.
pub proof fn lemma_find_ssrc_none(speaking: Seq<VoiceFrame>, ssrc: u32, from: int)
    requires
        0 <= from,
        forall|j: int| from <= j < speaking.len() ==> speaking[j].ssrc != ssrc,
    ensures
        find_ssrc_from(speaking, ssrc, from) is None,
    decreases speaking.len() - from,
{
    if from < speaking.len() {
        lemma_find_ssrc_none(speaking, ssrc, from + 1);
    }
}

/// Index of the first tick entry of the given SSRC.
pub open spec fn find_ssrc(speaking: Seq<VoiceFrame>, ssrc: u32) -> Option<int> {
    find_ssrc_from(speaking, ssrc, 0)
}

/// Where a user's frame comes from in a tick: the decoded voice of the first
/// entry of the user's SSRC, when there is one and it holds decoded voice;
/// silence otherwise.
pub open spec fn frame_source_of(
    user_to_ssrc: Map<u64, u32>,
    speaking: Seq<VoiceFrame>,
    user: u64,
) -> FrameSource {
    if user_to_ssrc.contains_key(user) {
        match find_ssrc(speaking, user_to_ssrc[user]) {
            Some(i) => if speaking[i].decoded is Some {
                FrameSource::Voice(i as usize)
            } else {
                FrameSource::Silence
            },
            None => FrameSource::Silence,
        }
    } else {
        FrameSource::Silence
    }
}

/// The index of the first tick entry of the given SSRC.
pub fn find_voice(speaking: &Vec<VoiceFrame>, ssrc: u32) -> (idx: Option<usize>)
    ensures
        match find_ssrc(speaking@, ssrc) {
            Some(i) => idx matches Some(k) && k as int == i,
            None => idx is None,
        },
        idx matches Some(i) ==> i < speaking@.len() && speaking@[i as int].ssrc == ssrc,
{
    proof {
        lemma_find_ssrc_from(speaking@, ssrc, 0);
    }
    let mut i: usize = 0;
    while i < speaking.len()
        invariant
            i <= speaking@.len(),
            find_ssrc_from(speaking@, ssrc, 0) == find_ssrc_from(speaking@, ssrc, i as int),
        decreases speaking@.len() - i,
    {
        if speaking[i].ssrc == ssrc {
            return Some(i);
        }
        i = i + 1;
    }
    None
}

/// A speaker's voice is recorded: when the user's SSRC is known and the
/// tick's first entry of that SSRC, at whatever index, holds decoded voice,
/// the user's frame comes from that entry.
pub proof fn lemma_voice_recorded(
    user_to_ssrc: Map<u64, u32>,
    speaking: Seq<VoiceFrame>,
    user: u64,
    i: int,
)
    requires
        user_to_ssrc.contains_key(user),
        0 <= i < speaking.len(),
        speaking[i].ssrc == user_to_ssrc[user],
        speaking[i].decoded is Some,
        forall|j: int| 0 <= j < i ==> speaking[j].ssrc != user_to_ssrc[user],
    ensures
        frame_source_of(user_to_ssrc, speaking, user) == FrameSource::Voice(i as usize),
{
    lemma_find_ssrc_first(speaking, user_to_ssrc[user], 0, i);
}

/// What the search finds: the first entry of the SSRC at or after `from`, or
/// nothing when there is none.
pub proof fn lemma_find_ssrc_spec(speaking: Seq<VoiceFrame>, ssrc: u32, from: int)
    requires
        0 <= from,
    ensures
        match find_ssrc_from(speaking, ssrc, from) {
            Some(i) => from <= i < speaking.len() && speaking[i].ssrc == ssrc && forall|j: int|
                from <= j < i ==> speaking[j].ssrc != ssrc,
            None => forall|j: int| from <= j < speaking.len() ==> speaking[j].ssrc != ssrc,
        },
    decreases speaking.len() - from,
{
    if from < speaking.len() && speaking[from].ssrc != ssrc {
        lemma_find_ssrc_spec(speaking, ssrc, from + 1);
    }
}

/// Silence is recorded exactly when the speaker has no voice in the tick:
/// the user's SSRC is unknown, the tick holds no entry of it, or its first
/// entry could not be decoded.
pub proof fn lemma_silence_recorded(user_to_ssrc: Map<u64, u32>, speaking: Seq<VoiceFrame>, user: u64)
    ensures
        (frame_source_of(user_to_ssrc, speaking, user) == FrameSource::Silence) <==> {
            ||| !user_to_ssrc.contains_key(user)
            ||| forall|j: int| 0 <= j < speaking.len() ==> speaking[j].ssrc != user_to_ssrc[user]
            ||| exists|i: int|
                #![trigger speaking[i]]
                0 <= i < speaking.len() && speaking[i].ssrc == user_to_ssrc[user] && speaking[i].decoded is None
                    && forall|j: int| 0 <= j < i ==> speaking[j].ssrc != user_to_ssrc[user]
        },
{
    if user_to_ssrc.contains_key(user) {
        let s = user_to_ssrc[user];
        lemma_find_ssrc_spec(speaking, s, 0);
        match find_ssrc(speaking, s) {
            Some(i) => {
                assert(speaking[i].ssrc == s);
                if speaking[i].decoded is Some {
                    assert forall|k: int|
                        0 <= k < speaking.len() && speaking[k].ssrc == s && speaking[k].decoded is None
                            implies !(forall|j: int| 0 <= j < k ==> speaking[j].ssrc != s) by {
                        if k < i {
                        } else if k > i {
                            assert(speaking[i].ssrc == s);
                        }
                    }
                }
            },
            None => {},
        }
    }
}

/// The bitrate a session records at: the channel's, or the default when the
/// channel reports none.
pub fn channel_bitrate(reported: Option<u32>) -> (bitrate: u32)
    ensures
        bitrate == match reported {
            Some(b) => b,
            None => DEFAULT_BITRATE,
        },
{
    match reported {
        Some(b) => b,
        None => DEFAULT_BITRATE,
    }
}


/// The index of a user's track among the session's users.
pub open spec fn user_index(users: Seq<u64>, user: u64) -> int {
    choose|i: int| 0 <= i < users.len() && users[i] == user
}

/// A track after it accepted the frame encoded in `buffer` with length `len`.
pub open spec fn wrote_frame(before: TrackView, after: TrackView, buffer: Seq<u8>, len: usize) -> bool {
    &&& after.pre_skip == before.pre_skip
    &&& !after.finished
    &&& after.frames == before.frames.push(encoded_frame(buffer, len))
    &&& after.packets == (if before.frames.len() == 0 {
        before.packets
    } else {
        before.packets.push(frame_packet(before.pre_skip, before.frames, before.frames.len() - 1))
    })
    &&& after.handed == before.handed
    &&& before.output.is_prefix_of(after.output)
    &&& bytes_match(after)
}

/// A track whose emitted bytes were taken out and which is otherwise the same.
pub open spec fn drained(before: TrackView, after: TrackView) -> bool {
    &&& after.pre_skip == before.pre_skip
    &&& after.frames == before.frames
    &&& after.packets == before.packets
    &&& after.finished == before.finished
    &&& after.handed == before.handed + before.output
    &&& after.output == Seq::<u8>::empty()
}

/// A track after it was closed: its writer received the closing packet, and
/// the bytes handed out begin with those it had not handed out before.
pub open spec fn closed_from(before: TrackView, after: TrackView, bytes: Seq<u8>) -> bool {
    &&& after.pre_skip == before.pre_skip
    &&& after.frames == before.frames
    &&& after.finished
    &&& after.packets == before.packets.push(last_packet(before.pre_skip, before.frames))
    &&& after.packets == stream_packets(before.pre_skip, before.frames, true)
    &&& before.output.is_prefix_of(bytes)
    &&& after.handed == before.handed + bytes
    &&& before.handed + bytes == ogg_stream_bytes(after.packets)
    &&& after.output == Seq::<u8>::empty()
}

/// A session's state in which every track is open and owned by a distinct
/// user, every track accounts for every tick seen (a frame, a reported miss,
/// or a frame still owed), and the SSRC maps refer to each other.
pub open spec fn session_inv(v: SessionView) -> bool {
    &&& v.users.len() == v.tracks.len()
    &&& v.owed.len() == v.tracks.len()
    &&& v.missing.len() == v.tracks.len()
    &&& v.tick_count <= MAX_FRAMES
    &&& forall|i: int, j: int| 0 <= i < j < v.users.len() ==> v.users[i] != v.users[j]
    &&& forall|i: int| 0 <= i < v.tracks.len() ==> !(#[trigger] v.tracks[i]).finished
    &&& forall|i: int|
        0 <= i < v.tracks.len() ==> (#[trigger] v.tracks[i]).frames.len() + v.missing[i] + v.owed[i]
            == v.tick_count
    &&& forall|u: u64| #[trigger]
        v.user_to_ssrc.contains_key(u) ==> v.ssrc_to_user.contains_key(v.user_to_ssrc[u])
    &&& forall|s: u32| #[trigger]
        v.ssrc_to_user.contains_key(s) ==> v.user_to_ssrc.contains_key(v.ssrc_to_user[s])
}

/// Every consistent session satisfies its invariant: no track is finished
/// while the session runs, no user has two tracks, the SSRC maps refer to each
/// other, and every track has, for every tick seen, exactly one of: a frame,
/// a reported miss, a frame still owed. So a track that owes nothing and never
/// missed a frame holds exactly one frame per tick since the session began,
/// and all such tracks are of the same length.
pub proof fn lemma_session_invariant(s: &RecordingSession)
    requires
        s.wf(),
    ensures
        session_inv(s@),
        forall|i: int| 0 <= i < s@.tracks.len() ==> (#[trigger] s@.tracks[i]).frames.len() + s@.missing[i]
            + s@.owed[i] == s@.tick_count,
        forall|i: int|
            0 <= i < s@.tracks.len() && s@.owed[i] == 0 && s@.missing[i] == 0 ==> (#[trigger] s@.tracks[i]).frames.len()
                == s@.tick_count,
{
}

/// The state of one recording.
pub struct RecordingSession {
    ssrc_to_user: HashMap<u32, u64>,
    user_id_to_ssrc: HashMap<u64, u32>,
    user_id_to_name: HashMap<u64, String>,
    tracks: Vec<UserTrack>,
    tick_count: u64,
    bitrate: u32,
}

impl View for RecordingSession {
    type V = SessionView;

    closed spec fn view(&self) -> SessionView {
        SessionView {
            ssrc_to_user: self.ssrc_to_user@,
            user_to_ssrc: self.user_id_to_ssrc@,
            names: self.user_id_to_name@,
            users: self.tracks@.map_values(|t: UserTrack| t.user_id),
            tracks: self.tracks@.map_values(|t: UserTrack| t.track@),
            owed: self.tracks@.map_values(|t: UserTrack| t.owed as nat),
            missing: self.tracks@.map_values(|t: UserTrack| t.missing as nat),
            tick_count: self.tick_count as nat,
            bitrate: self.bitrate,
        }
    }
}

impl RecordingSession {
    /// Every track is consistent and open, accounts for every tick seen, and
    /// belongs to a distinct user.
    closed spec fn tracks_ok(ts: Seq<UserTrack>, tick: nat) -> bool {
        &&& forall|i: int| 0 <= i < ts.len() ==> {
            &&& (#[trigger] ts[i]).track.wf()
            &&& !ts[i].track@.finished
            &&& ts[i].track@.frames.len() + ts[i].missing + ts[i].owed == tick
        }
        &&& forall|i: int, j: int| 0 <= i < j < ts.len() ==> ts[i].user_id != ts[j].user_id
    }

    /// The SSRC maps refer to each other.
    closed spec fn maps_ok(s2u: Map<u32, u64>, u2s: Map<u64, u32>) -> bool {
        &&& forall|u: u64| #[trigger] u2s.contains_key(u) ==> s2u.contains_key(u2s[u])
        &&& forall|s: u32| #[trigger] s2u.contains_key(s) ==> u2s.contains_key(s2u[s])
    }

    /// The session's consistency: its tracks, its maps, and a clock far from
    /// the frame limit.
    pub closed spec fn wf(&self) -> bool {
        &&& Self::tracks_ok(self.tracks@, self.tick_count as nat)
        &&& Self::maps_ok(self.ssrc_to_user@, self.user_id_to_ssrc@)
        &&& self.tick_count <= MAX_FRAMES
    }

    /// A consistent session satisfies the invariant over its view.
    proof fn lemma_wf_inv(&self)
        requires
            self.wf(),
        ensures
            session_inv(self@),
    {
        let v = self@;
        let ts = self.tracks@;
        assert forall|i: int| 0 <= i < v.tracks.len() implies !(#[trigger] v.tracks[i]).finished
            && v.tracks[i].frames.len() + v.missing[i] + v.owed[i] == v.tick_count by {
            assert(ts[i].track.wf());
        }
        assert forall|i: int, j: int| 0 <= i < j < v.users.len() implies v.users[i] != v.users[j] by {
            assert(ts[i].user_id != ts[j].user_id);
        }
    }

    /// Replacing the track at `i` by one of the same user that stays
    /// consistent keeps the tracks consistent.
    proof fn lemma_replace_track(ts: Seq<UserTrack>, i: int, ut: UserTrack, tick: nat)
        requires
            Self::tracks_ok(ts, tick),
            0 <= i < ts.len(),
            ut.user_id == ts[i].user_id,
            ut.track.wf(),
            !ut.track@.finished,
            ut.track@.frames.len() + ut.missing + ut.owed == tick,
        ensures
            Self::tracks_ok(ts.update(i, ut), tick),
    {
        let t2 = ts.update(i, ut);
        assert forall|j: int| 0 <= j < t2.len() implies {
            &&& (#[trigger] t2[j]).track.wf()
            &&& !t2[j].track@.finished
            &&& t2[j].track@.frames.len() + t2[j].missing + t2[j].owed == tick
        } by {
            if j != i {
                assert(t2[j] == ts[j]);
            }
        }
        assert forall|a: int, b: int| 0 <= a < b < t2.len() implies t2[a].user_id != t2[b].user_id by {
            assert(ts[a].user_id != ts[b].user_id);
        }
    }

    /// A session that has seen nothing yet and records at `bitrate`.
    pub fn new(bitrate: u32) -> (s: RecordingSession)
        ensures
            s.wf(),
            s@.ssrc_to_user == Map::<u32, u64>::empty(),
            s@.user_to_ssrc == Map::<u64, u32>::empty(),
            s@.names == Map::<u64, String>::empty(),
            s@.users == Seq::<u64>::empty(),
            s@.tracks == Seq::<TrackView>::empty(),
            s@.owed == Seq::<nat>::empty(),
            s@.missing == Seq::<nat>::empty(),
            s@.tick_count == 0,
            s@.bitrate == bitrate,
    {
        let s = RecordingSession {
            ssrc_to_user: HashMap::new(),
            user_id_to_ssrc: HashMap::new(),
            user_id_to_name: HashMap::new(),
            tracks: Vec::new(),
            tick_count: 0,
            bitrate,
        };
        assert(s@.users =~= Seq::<u64>::empty());
        assert(s@.tracks =~= Seq::<TrackView>::empty());
        assert(s@.owed =~= Seq::<nat>::empty());
        assert(s@.missing =~= Seq::<nat>::empty());
        s
    }

    /// The index of the user's track, if the user has one.
    fn find_track(&self, user_id: u64) -> (idx: Option<usize>)
        requires
            self.wf(),
        ensures
            match idx {
                Some(i) => i < self@.users.len() && self@.users[i as int] == user_id && user_index(
                    self@.users,
                    user_id,
                ) == i,
                None => !self@.users.contains(user_id),
            },
    {
        let mut i: usize = 0;
        while i < self.tracks.len()
            invariant
                i <= self.tracks@.len(),
                forall|j: int| 0 <= j < i ==> self@.users[j] != user_id,
                self.wf(),
            decreases self.tracks@.len() - i,
        {
            if self.tracks[i].user_id == user_id {
                proof {
                    assert(self@.users[i as int] == user_id);
                    let k = user_index(self@.users, user_id);
                    assert(0 <= k < self@.users.len() && self@.users[k] == user_id);
                    if k != i {
                        if k < i {
                            assert(self@.users[k] != self@.users[i as int]);
                        } else {
                            assert(self@.users[i as int] != self@.users[k]);
                        }
                    }
                }
                return Some(i);
            }
            i = i + 1;
        }
        None
    }

    /// Whether the user has a track in this session.
    pub fn has_track(&self, user_id: u64) -> (b: bool)
        requires
            self.wf(),
        ensures
            b == self@.users.contains(user_id),
    {
        self.find_track(user_id).is_some()
    }

    /// Ticks of 20 ms seen since the session started.
    pub fn tick_count(&self) -> (n: u64)
        ensures
            n == self@.tick_count,
    {
        self.tick_count
    }

    /// The bitrate the session records at.
    pub fn bitrate(&self) -> (b: u32)
        ensures
            b == self@.bitrate,
    {
        self.bitrate
    }

    /// A speaking-state update: the SSRC now belongs to the user, both ways.
    /// Without a user nothing changes. The caller adds a track when asked to.
    pub fn on_speaking_update(&mut self, ssrc: u32, user_id: Option<u64>) -> (action: SpeakingAction)
        requires
            old(self).wf(),
        ensures
            final(self).wf(),
            final(self)@.names == old(self)@.names,
            final(self)@.users == old(self)@.users,
            final(self)@.tracks == old(self)@.tracks,
            final(self)@.tick_count == old(self)@.tick_count,
            final(self)@.bitrate == old(self)@.bitrate,
            match user_id {
                None => {
                    &&& action == SpeakingAction::Ignore
                    &&& final(self)@.ssrc_to_user == old(self)@.ssrc_to_user
                    &&& final(self)@.user_to_ssrc == old(self)@.user_to_ssrc
                },
                Some(u) => {
                    &&& final(self)@.ssrc_to_user == old(self)@.ssrc_to_user.insert(ssrc, u)
                    &&& final(self)@.user_to_ssrc == old(self)@.user_to_ssrc.insert(u, ssrc)
                    &&& action == (if old(self)@.users.contains(u) {
                        SpeakingAction::Known
                    } else {
                        SpeakingAction::NeedsTrack(u)
                    })
                },
            },
    {
        match user_id {
            None => SpeakingAction::Ignore,
            Some(id) => {
                let ghost v0 = self@;
                self.ssrc_to_user.insert(ssrc, id);
                self.user_id_to_ssrc.insert(id, ssrc);
                proof {
                    let v = self@;
                    assert forall|u: u64| #[trigger]
                        v.user_to_ssrc.contains_key(u) implies v.ssrc_to_user.contains_key(
                        v.user_to_ssrc[u],
                    ) by {
                        if u != id {
                            assert(v0.user_to_ssrc.contains_key(u));
                        }
                    }
                    assert forall|s: u32| #[trigger]
                        v.ssrc_to_user.contains_key(s) implies v.user_to_ssrc.contains_key(
                        v.ssrc_to_user[s],
                    ) by {
                        if s != ssrc {
                            assert(v0.ssrc_to_user.contains_key(s));
                        }
                    }
                }
                if self.has_track(id) {
                    SpeakingAction::Known
                } else {
                    SpeakingAction::NeedsTrack(id)
                }
            },
        }
    }

    /// Adds a fresh track for a user that has none, its pre-skip taken from
    /// the encoder's lookahead. The track owes a frame (of silence) for every
    /// tick seen so far; their number comes back. A user that already has a
    /// track gets no second one (`None`).
    pub fn add_track(&mut self, user_id: u64, lookahead: u32) -> (owed: Option<u64>)
        requires
            old(self).wf(),
        ensures
            final(self).wf(),
            old(self)@.users.contains(user_id) ==> owed is None && final(self)@ == old(self)@,
            !old(self)@.users.contains(user_id) ==> {
                &&& owed == Some(old(self)@.tick_count as u64)
                &&& final(self)@.users == old(self)@.users.push(user_id)
                &&& final(self)@.owed == old(self)@.owed.push(old(self)@.tick_count)
                &&& final(self)@.missing == old(self)@.missing.push(0)
                &&& final(self)@.tracks.len() == old(self)@.tracks.len() + 1
                &&& final(self)@.tracks.drop_last() == old(self)@.tracks
                &&& final(self)@.tracks.last().pre_skip == lookahead as u16
                &&& final(self)@.tracks.last().frames == Seq::<Seq<u8>>::empty()
                &&& final(self)@.tracks.last().packets == crate::track::header_packets(lookahead as u16)
                &&& final(self)@.tracks.last().handed == Seq::<u8>::empty()
                &&& bytes_match(final(self)@.tracks.last())
                &&& !final(self)@.tracks.last().finished
                &&& final(self)@.ssrc_to_user == old(self)@.ssrc_to_user
                &&& final(self)@.user_to_ssrc == old(self)@.user_to_ssrc
                &&& final(self)@.names == old(self)@.names
                &&& final(self)@.tick_count == old(self)@.tick_count
                &&& final(self)@.bitrate == old(self)@.bitrate
            },
    {
        if self.has_track(user_id) {
            return None;
        }
        let ghost v0 = self@;
        let ghost t0 = self.tracks@;
        let track = Track::create(lookahead);
        self.tracks.push(UserTrack { user_id, track, owed: self.tick_count, missing: 0 });
        proof {
            let v = self@;
            let ts = self.tracks@;
            assert(v.users =~= v0.users.push(user_id));
            assert(v.owed =~= v0.owed.push(v0.tick_count));
            assert(v.missing =~= v0.missing.push(0));
            assert(v.tracks.drop_last() =~= v0.tracks);
            assert forall|i: int| 0 <= i < ts.len() implies {
                &&& (#[trigger] ts[i]).track.wf()
                &&& !ts[i].track@.finished
                &&& ts[i].track@.frames.len() + ts[i].missing + ts[i].owed == self.tick_count
            } by {
                if i < t0.len() {
                    assert(ts[i] == t0[i]);
                }
            }
            assert forall|i: int, j: int| 0 <= i < j < ts.len() implies ts[i].user_id != ts[j].user_id by {
                if j < t0.len() {
                    assert(ts[i] == t0[i] && ts[j] == t0[j]);
                } else {
                    assert(ts[i] == t0[i]);
                    assert(v0.users[i] == t0[i].user_id);
                    assert(v0.users.contains(v0.users[i]));
                }
            }
        }
        Some(self.tick_count)
    }

    /// Hands a user's track a frame it owes, encoded in `buffer` with length
    /// `len`. The frame is taken when the user has a track that owes a frame
    /// and the buffer is no longer than `MAX_PACKET_LEN`; otherwise nothing
    /// changes and `false` comes back.
    pub fn write_frame(&mut self, user_id: u64, buffer: Vec<u8>, len: usize) -> (written: bool)
        requires
            old(self).wf(),
        ensures
            final(self).wf(),
            written == (old(self)@.users.contains(user_id) && old(self)@.owed[user_index(
                old(self)@.users,
                user_id,
            )] > 0 && buffer@.len() <= MAX_PACKET_LEN),
            !written ==> final(self)@ == old(self)@,
            written ==> {
                let i = user_index(old(self)@.users, user_id);
                &&& final(self)@.tracks.len() == old(self)@.tracks.len()
                &&& forall|j: int| 0 <= j < old(self)@.tracks.len() && j != i ==> final(self)@.tracks[j] == old(self)@.tracks[j]
                &&& wrote_frame(old(self)@.tracks[i], final(self)@.tracks[i], buffer@, len)
                &&& final(self)@.owed == old(self)@.owed.update(i, (old(self)@.owed[i] - 1) as nat)
                &&& final(self)@ == (SessionView { tracks: final(self)@.tracks, owed: final(self)@.owed, ..old(self)@ })
            },
    {
        let idx = self.find_track(user_id);
        match idx {
            None => false,
            Some(i) => {
                let owed = self.tracks[i].owed;
                if owed == 0 || buffer.len() > MAX_PACKET_LEN {
                    return false;
                }
                let ghost s0 = *self;
                proof {
                    assert(s0.tracks@[i as int].track.wf());
                    assert(s0@.tracks[i as int] == s0.tracks@[i as int].track@);
                    assert(s0.tracks@[i as int].track@.frames.len() < MAX_FRAMES);
                }
                self.tracks[i].track.write_frame(buffer, len);
                self.tracks[i].owed = owed - 1;
                proof {
                    assert(self.tracks@ == s0.tracks@.update(i as int, self.tracks@[i as int]));
                    Self::lemma_replace_track(s0.tracks@, i as int, self.tracks@[i as int], self.tick_count as nat);
                    assert(self@.users =~= s0@.users);
                    assert(self@.missing =~= s0@.missing);
                    assert(self@.owed =~= s0@.owed.update(i as int, (s0@.owed[i as int] - 1) as nat));
                    assert(self@.tracks =~= s0@.tracks.update(i as int, self.tracks@[i as int].track@));
                }
                true
            },
        }
    }

    /// Reports that the user's track will not get the frames it owes (they
    /// could not be encoded): they count as missed from now on. Returns how
    /// many; a user without a track owes nothing.
    pub fn skip_frames(&mut self, user_id: u64) -> (skipped: u64)
        requires
            old(self).wf(),
        ensures
            final(self).wf(),
            !old(self)@.users.contains(user_id) ==> skipped == 0 && final(self)@ == old(self)@,
            old(self)@.users.contains(user_id) ==> {
                let i = user_index(old(self)@.users, user_id);
                &&& skipped == old(self)@.owed[i]
                &&& final(self)@.owed == old(self)@.owed.update(i, 0)
                &&& final(self)@.missing == old(self)@.missing.update(i, old(self)@.missing[i] + old(self)@.owed[i])
                &&& final(self)@ == (SessionView { owed: final(self)@.owed, missing: final(self)@.missing, ..old(self)@ })
            },
    {
        let idx = self.find_track(user_id);
        match idx {
            None => 0,
            Some(i) => {
                let ghost s0 = *self;
                let owed = self.tracks[i].owed;
                let missing = self.tracks[i].missing;
                proof {
                    assert(s0.tracks@[i as int].track.wf());
                    assert(missing + owed <= self.tick_count);
                }
                self.tracks[i].missing = missing + owed;
                self.tracks[i].owed = 0;
                proof {
                    assert(self.tracks@ == s0.tracks@.update(i as int, self.tracks@[i as int]));
                    Self::lemma_replace_track(s0.tracks@, i as int, self.tracks@[i as int], self.tick_count as nat);
                    assert(self@.users =~= s0@.users);
                    assert(self@.tracks =~= s0@.tracks);
                    assert(self@.missing =~= s0@.missing.update(i as int, s0@.missing[i as int] + s0@.owed[i as int]));
                    assert(self@.owed =~= s0@.owed.update(i as int, 0));
                }
                owed
            },
        }
    }

    /// Where the user's frame comes from in this tick.
    fn frame_source(&self, user_id: u64, speaking: &Vec<VoiceFrame>) -> (src: FrameSource)
        ensures
            src == frame_source_of(self@.user_to_ssrc, speaking@, user_id),
    {
        let entry = self.user_id_to_ssrc.get(&user_id);
        proof {
            match entry {
                Some(s) => {
                    assert(self@.user_to_ssrc[user_id] == *s);
                    lemma_find_ssrc_from(speaking@, *s, 0);
                },
                None => {
                    assert(!self@.user_to_ssrc.contains_key(user_id));
                },
            }
        }
        match entry {
            Some(ssrc) => {
                let found = find_voice(speaking, *ssrc);
                match found {
                    Some(i) => {
                        if speaking[i].decoded.is_some() {
                            FrameSource::Voice(i)
                        } else {
                            FrameSource::Silence
                        }
                    },
                    None => FrameSource::Silence,
                }
            },
            None => FrameSource::Silence,
        }
    }

    /// A voice tick: the clock advances by 20 ms, every track owes one more
    /// frame, and every track, in order, is planned that frame, from the voice
    /// its speaker sent in this tick or from silence.
    pub fn on_voice_tick(&mut self, speaking: &Vec<VoiceFrame>) -> (plan: Vec<(u64, FrameSource)>)
        requires
            old(self).wf(),
            old(self)@.tick_count < MAX_FRAMES,
        ensures
            final(self).wf(),
            final(self)@ == (SessionView {
                tick_count: old(self)@.tick_count + 1,
                owed: final(self)@.owed,
                ..old(self)@
            }),
            final(self)@.owed.len() == old(self)@.owed.len(),
            forall|i: int| 0 <= i < old(self)@.owed.len() ==> #[trigger] final(self)@.owed[i] == old(self)@.owed[i] + 1,
            plan@.len() == old(self)@.users.len(),
            forall|i: int| 0 <= i < plan@.len() ==> (#[trigger] plan@[i]).0 == old(self)@.users[i]
                && plan@[i].1 == frame_source_of(old(self)@.user_to_ssrc, speaking@, old(self)@.users[i]),
    {
        let ghost v0 = self@;
        let ghost t0 = self.tracks@;
        proof {
            self.lemma_wf_inv();
        }
        let mut i: usize = 0;
        while i < self.tracks.len()
            invariant
                self.tracks@.len() == t0.len(),
                i <= t0.len(),
                self.tick_count == v0.tick_count,
                self.tick_count < MAX_FRAMES,
                self.ssrc_to_user@ == v0.ssrc_to_user,
                self.user_id_to_ssrc@ == v0.user_to_ssrc,
                self.user_id_to_name@ == v0.names,
                self.bitrate == v0.bitrate,
                Self::tracks_ok(t0, v0.tick_count),
                Self::maps_ok(v0.ssrc_to_user, v0.user_to_ssrc),
                forall|k: int| 0 <= k < t0.len() ==> {
                    &&& (#[trigger] self.tracks@[k]).user_id == t0[k].user_id
                    &&& self.tracks@[k].track == t0[k].track
                    &&& self.tracks@[k].missing == t0[k].missing
                    &&& self.tracks@[k].owed == t0[k].owed + (if k < i { 1int } else { 0int })
                },
            decreases t0.len() - i,
        {
            proof {
                assert(t0[i as int].track.wf());
            }
            let owed = self.tracks[i].owed;
            self.tracks[i].owed = owed + 1;
            i = i + 1;
        }
        self.tick_count = self.tick_count + 1;
        proof {
            let ts = self.tracks@;
            assert forall|k: int| 0 <= k < ts.len() implies {
                &&& (#[trigger] ts[k]).track.wf()
                &&& !ts[k].track@.finished
                &&& ts[k].track@.frames.len() + ts[k].missing + ts[k].owed == self.tick_count
            } by {
                assert(t0[k].track.wf());
            }
            assert forall|a: int, b: int| 0 <= a < b < ts.len() implies ts[a].user_id != ts[b].user_id by {
                assert(t0[a].user_id != t0[b].user_id);
            }
            assert(self@.users =~= v0.users);
            assert(self@.tracks =~= v0.tracks);
            assert(self@.missing =~= v0.missing);
        }
        let ghost v1 = self@;
        let mut plan: Vec<(u64, FrameSource)> = Vec::new();
        let mut i: usize = 0;
        while i < self.tracks.len()
            invariant
                self@ == v1,
                v1.users == v0.users,
                v1.user_to_ssrc == v0.user_to_ssrc,
                i <= self.tracks@.len(),
                plan@.len() == i,
                forall|k: int| 0 <= k < i ==> (#[trigger] plan@[k]).0 == v0.users[k]
                    && plan@[k].1 == frame_source_of(v0.user_to_ssrc, speaking@, v0.users[k]),
            decreases self.tracks@.len() - i,
        {
            let user_id = self.tracks[i].user_id;
            assert(user_id == v0.users[i as int]);
            let src = self.frame_source(user_id, speaking);
            plan.push((user_id, src));
            i = i + 1;
        }
        plan
    }

    /// Takes out, for every track in order, the bytes of the Ogg pages it
    /// emitted so far.
    pub fn take_outputs(&mut self) -> (outputs: Vec<(u64, Vec<u8>)>)
        requires
            old(self).wf(),
        ensures
            final(self).wf(),
            final(self)@.users == old(self)@.users,
            final(self)@.tracks.len() == old(self)@.tracks.len(),
            final(self)@ == (SessionView { tracks: final(self)@.tracks, ..old(self)@ }),
            outputs@.len() == old(self)@.users.len(),
            forall|i: int| 0 <= i < outputs@.len() ==> {
                &&& (#[trigger] outputs@[i]).0 == old(self)@.users[i]
                &&& outputs@[i].1@ == old(self)@.tracks[i].output
                &&& drained(old(self)@.tracks[i], final(self)@.tracks[i])
            },
    {
        let ghost v0 = self@;
        let mut outputs: Vec<(u64, Vec<u8>)> = Vec::new();
        let mut i: usize = 0;
        while i < self.tracks.len()
            invariant
                self.wf(),
                self@ == (SessionView { tracks: self@.tracks, ..v0 }),
                self@.tracks.len() == v0.tracks.len(),
                i <= self.tracks@.len(),
                outputs@.len() == i,
                forall|k: int| 0 <= k < i ==> {
                    &&& (#[trigger] outputs@[k]).0 == v0.users[k]
                    &&& outputs@[k].1@ == v0.tracks[k].output
                    &&& drained(v0.tracks[k], self@.tracks[k])
                },
                forall|k: int| i <= k < v0.tracks.len() ==> #[trigger] self@.tracks[k] == v0.tracks[k],
            decreases self.tracks@.len() - i,
        {
            let ghost s0 = *self;
            let user_id = self.tracks[i].user_id;
            assert(user_id == v0.users[i as int]);
            assert(s0@.tracks[i as int] == s0.tracks@[i as int].track@);
            assert(s0.tracks@[i as int].track.wf());
            let bytes = self.tracks[i].track.take_output();
            proof {
                assert(self.tracks@ == s0.tracks@.update(i as int, self.tracks@[i as int]));
                Self::lemma_replace_track(s0.tracks@, i as int, self.tracks@[i as int], self.tick_count as nat);
                assert(self@.users =~= s0@.users);
                assert(self@.owed =~= s0@.owed);
                assert(self@.missing =~= s0@.missing);
                assert(self@.tracks =~= s0@.tracks.update(i as int, self.tracks@[i as int].track@));
                assert(s0@.tracks[i as int] == v0.tracks[i as int]);
            }
            outputs.push((user_id, bytes));
            i = i + 1;
        }
        outputs
    }

    /// Closes every track, in order: each stream's writer receives its closing
    /// packet with the end-of-stream flag, and each closed track comes back
    /// with its user and the bytes it had not yet handed out. The session is
    /// left without tracks, so a second call closes nothing.
    pub fn finalize_tracks(&mut self) -> (closed: Vec<ClosedTrack>)
        requires
            old(self).wf(),
        ensures
            final(self).wf(),
            final(self)@ == (SessionView { users: Seq::empty(), tracks: Seq::empty(), owed: Seq::empty(), missing: Seq::empty(), ..old(self)@ }),
            closed@.len() == old(self)@.users.len(),
            forall|i: int| 0 <= i < closed@.len() ==> {
                &&& (#[trigger] closed@[i]).user_id == old(self)@.users[i]
                &&& closed@[i].track.wf()
                &&& closed_from(old(self)@.tracks[i], closed@[i].track@, closed@[i].bytes@)
            },
    {
        let ghost v0 = self@;
        let mut tracks: Vec<UserTrack> = Vec::new();
        std::mem::swap(&mut self.tracks, &mut tracks);
        proof {
            assert(self@.users =~= Seq::<u64>::empty());
            assert(self@.tracks =~= Seq::<TrackView>::empty());
            assert(self@.owed =~= Seq::<nat>::empty());
            assert(self@.missing =~= Seq::<nat>::empty());
        }
        let ghost t0 = tracks@;
        proof {
            assert forall|k: int| 0 <= k < t0.len() implies (#[trigger] t0[k]).track.wf()
                && !t0[k].track@.finished by {
                assert(v0.tracks[k] == t0[k].track@);
            }
        }
        let mut closed: Vec<ClosedTrack> = Vec::new();
        let ghost mut i: int = 0;
        while tracks.len() > 0
            invariant
                self.wf(),
                self@ == (SessionView { users: Seq::empty(), tracks: Seq::empty(), owed: Seq::empty(), missing: Seq::empty(), ..v0 }),
                v0.users.len() == t0.len(),
                0 <= i <= t0.len(),
                tracks@ == t0.skip(i),
                closed@.len() == i,
                forall|k: int| 0 <= k < t0.len() ==> v0.users[k] == #[trigger] t0[k].user_id && v0.tracks[k] == t0[k].track@,
                forall|k: int| 0 <= k < t0.len() ==> (#[trigger] t0[k]).track.wf() && !t0[k].track@.finished,
                forall|k: int| 0 <= k < i ==> {
                    &&& (#[trigger] closed@[k]).user_id == v0.users[k]
                    &&& closed@[k].track.wf()
                    &&& closed_from(v0.tracks[k], closed@[k].track@, closed@[k].bytes@)
                },
            decreases tracks@.len(),
        {
            let UserTrack { user_id, mut track, owed: _, missing: _ } = tracks.remove(0);
            proof {
                assert(t0.skip(i)[0] == t0[i]);
                assert(tracks@ =~= t0.skip(i + 1));
            }
            let bytes = track.finalize();
            closed.push(ClosedTrack { user_id, track, bytes });
            proof {
                i = i + 1;
            }
        }
        proof {
            assert(t0.skip(i).len() == 0);
        }
        closed
    }

    /// Records the display name of a user.
    pub fn set_name(&mut self, user_id: u64, name: String)
        requires
            old(self).wf(),
        ensures
            final(self).wf(),
            final(self)@ == (SessionView { names: old(self)@.names.insert(user_id, name), ..old(self)@ }),
    {
        self.user_id_to_name.insert(user_id, name);
    }
}

} // verus!
