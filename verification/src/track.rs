//! One speaker's recording: 20 ms Opus frames framed into an Ogg Opus stream.
//!
//! The Opus encoding itself happens outside the library: the owner of a track
//! encodes each 20 ms frame of 48 kHz stereo PCM into a buffer obtained from
//! [`Track::encode_buffer`] and hands the buffer and the encoded length to
//! [`Track::write_frame`]. The track assigns granule positions, keeps the most
//! recent frame back so that the stream's last packet can carry the
//! end-of-stream flag, and hands the packets to the Ogg writer.
use vstd::prelude::*;

use crate::ogg_page::{
    all_pages_of_stream, check_pages, last_page_ends_stream, lemma_last_end_of_stream_concat,
    lemma_no_end_of_stream_concat, lemma_pages_end_of_stream, lemma_pages_fit_prev,
    lemma_pages_fit_run, lemma_pages_of_stream, lemma_pages_of_stream_concat,
    lemma_pages_run_concat, no_page_ends_stream, pages_fit, pages_run,
};
use crate::ogg_sink::{
    ogg_output, ogg_page_state, ogg_pages, ogg_prev_granule, ogg_sink, ogg_write_packet,
    ogg_write_step, ogg_writer_new, pages_for_packet, OggPageState, OggWriter, PacketEnd,
};
use crate::opus_header::{opus_head, opus_tags, spec_opus_head, spec_opus_tags, VENDOR};

verus! {

/// Samples per channel in one 20 ms frame at 48 kHz: the granule step.
pub const FRAME_SAMPLES: u64 = 960;

/// Interleaved stereo samples in one 20 ms frame.
pub const FRAME_PCM_LEN: usize = 1920;

/// Size of the buffer that one frame is encoded into.
pub const MAX_PACKET_LEN: usize = 4000;

/// Serial number of the logical Ogg stream of a track.
pub const STREAM_SERIAL: u32 = 1;

/// The most frames a track takes: beyond it the writer's 32-bit page counter
/// could overflow (about 2.5 years of audio).
pub const MAX_FRAMES: u64 = 4_000_000_000;

/// A packet as the Ogg writer received it: its data, the stream serial, how
/// it ends, and its granule position.
pub type OggPacket = (Seq<u8>, u32, PacketEnd, u64);

/// The abstract state of a track.
pub struct TrackView {
    /// Pre-skip written in the identification header.
    pub pre_skip: u16,
    /// Every encoded frame accepted so far, in order.
    pub frames: Seq<Seq<u8>>,
    /// Every packet handed to the Ogg writer, in order.
    pub packets: Seq<OggPacket>,
    /// Bytes of Ogg pages already taken out.
    pub handed: Seq<u8>,
    /// Whether the end of the stream has been written.
    pub finished: bool,
    /// Bytes of Ogg pages emitted and not yet taken out.
    pub output: Seq<u8>,
}

/// Granule position of the start of frame `k`.
pub open spec fn frame_granule(pre_skip: u16, k: int) -> int {
    pre_skip + k * FRAME_SAMPLES
}

/// The identification and comment header packets, each on a page of its own.
pub open spec fn header_packets(pre_skip: u16) -> Seq<OggPacket> {
    seq![
        (spec_opus_head(pre_skip), STREAM_SERIAL, PacketEnd::EndPage, 0u64),
        (spec_opus_tags(VENDOR@), STREAM_SERIAL, PacketEnd::EndPage, 0u64),
    ]
}

/// Frame `k` written as an ordinary packet, carrying the granule position of
/// its start.
pub open spec fn frame_packet(pre_skip: u16, frames: Seq<Seq<u8>>, k: int) -> OggPacket {
    (frames[k], STREAM_SERIAL, PacketEnd::Normal, frame_granule(pre_skip, k) as u64)
}

/// The packet that closes the stream: the last frame (an empty packet when
/// there is no frame) with the end-of-stream flag and the granule position of
/// the end of all frames.
pub open spec fn last_packet(pre_skip: u16, frames: Seq<Seq<u8>>) -> OggPacket {
    (
        if frames.len() == 0 {
            Seq::<u8>::empty()
        } else {
            frames.last()
        },
        STREAM_SERIAL,
        PacketEnd::EndStream,
        frame_granule(pre_skip, frames.len() as int) as u64,
    )
}

/// The frames written as ordinary packets: all but the most recent one.
pub open spec fn written_frames(pre_skip: u16, frames: Seq<Seq<u8>>) -> Seq<OggPacket> {
    Seq::new(
        if frames.len() == 0 {
            0nat
        } else {
            (frames.len() - 1) as nat
        },
        |k: int| frame_packet(pre_skip, frames, k),
    )
}

/// The audio packets of a stream: every frame but the most recent one while
/// the stream is open; then, once it is finished, the closing packet.
pub open spec fn audio_packets(pre_skip: u16, frames: Seq<Seq<u8>>, finished: bool) -> Seq<OggPacket> {
    if finished {
        written_frames(pre_skip, frames).push(last_packet(pre_skip, frames))
    } else {
        written_frames(pre_skip, frames)
    }
}

/// Everything the Ogg writer receives: the headers, then the audio packets.
pub open spec fn stream_packets(pre_skip: u16, frames: Seq<Seq<u8>>, finished: bool) -> Seq<OggPacket> {
    header_packets(pre_skip) + audio_packets(pre_skip, frames, finished)
}

/// The bytes a fresh Ogg writer emits, and the page state it is left with,
/// when it is handed the given packets in order.
pub open spec fn ogg_fold(packets: Seq<OggPacket>) -> (Seq<u8>, Map<u32, OggPageState>)
    decreases packets.len(),
{
    if packets.len() == 0 {
        (Seq::empty(), Map::empty())
    } else {
        let prev = ogg_fold(packets.drop_last());
        let p = packets.last();
        let step = ogg_write_step(prev.1, p.0, p.1, p.2, p.3);
        (prev.0 + step.0, step.1)
    }
}

/// The granule position of the last packet of `packets`, or `u64::MAX`
/// (no granule position) when there is none.
pub open spec fn last_granule(packets: Seq<OggPacket>) -> u64 {
    if packets.len() > 0 {
        packets.last().3
    } else {
        u64::MAX
    }
}

/// `b` is, packet after packet, the pages emitted for `packets`: it splits
/// into one run of pages per packet, and each run fits its packet's serial,
/// end and granule position, after the granule position of the packet
/// before it.
pub open spec fn stream_pages(b: Seq<u8>, packets: Seq<OggPacket>) -> bool
    decreases packets.len(),
{
    if packets.len() == 0 {
        b.len() == 0
    } else {
        exists|k: int|
            #![trigger b.take(k)]
            0 <= k <= b.len() && stream_pages(b.take(k), packets.drop_last()) && pages_fit(
                b.skip(k),
                true,
                packets.last().1,
                packets.last().2,
                packets.last().3,
                last_granule(packets.drop_last()),
            )
    }
}

/// The bytes of the Ogg pages of a stream of packets.
pub open spec fn ogg_stream_bytes(packets: Seq<OggPacket>) -> Seq<u8> {
    ogg_fold(packets).0
}

/// The bytes taken out of a track and those still waiting in it are, together,
/// exactly the Ogg pages of the packets it handed to its writer.
pub open spec fn bytes_match(v: TrackView) -> bool {
    v.handed + v.output == ogg_stream_bytes(v.packets)
}

/// An encoded frame of `len` bytes taken from an encode buffer.
pub open spec fn encoded_frame(buffer: Seq<u8>, len: usize) -> Seq<u8> {
    if len <= buffer.len() {
        buffer.take(len as int)
    } else {
        buffer
    }
}

/// A consistent track's writer has received exactly the stream of its
/// frames: the two headers, then every frame but the most recent one in
/// order, then, once finished, the closing packet; and every frame fits the
/// encode buffer.
pub proof fn lemma_track_stream(t: &Track)
    requires
        t.wf(),
    ensures
        t@.packets == stream_packets(t@.pre_skip, t@.frames, t@.finished),
        bytes_match(t@),
        t@.packets.len() == 2 + audio_packet_count(t@.frames.len(), t@.finished),
        t@.frames.len() <= MAX_FRAMES,
        forall|k: int| 0 <= k < t@.frames.len() ==> (#[trigger] t@.frames[k]).len() <= MAX_PACKET_LEN,
{
    lemma_audio_packets_len(t@.pre_skip, t@.frames, t@.finished);
}

/// The bytes that a consistent track has emitted, those taken out and those
/// still waiting, are, packet after packet, the pages of the packets handed
/// to its writer; every page belongs to stream `STREAM_SERIAL`; while the
/// stream is open no page carries the end-of-stream flag, and once it is
/// finished its last page, and no other, carries it.
pub proof fn lemma_track_pages(t: &Track)
    requires
        t.wf(),
    ensures
        stream_pages(t@.handed + t@.output, t@.packets),
        pages_run(t@.handed + t@.output),
        all_pages_of_stream(t@.handed + t@.output, STREAM_SERIAL),
        !t@.finished ==> no_page_ends_stream(t@.handed + t@.output),
        t@.finished ==> last_page_ends_stream(t@.handed + t@.output),
{
    let pre = t@.pre_skip;
    let frames = t@.frames;
    let fin = t@.finished;
    let h = header_packets(pre);
    let a = audio_packets(pre, frames, fin);
    let w = written_frames(pre, frames);
    let ps = t@.packets;
    assert(ps == h + a);
    assert forall|i: int| 0 <= i < ps.len() implies (#[trigger] ps[i]).1 == STREAM_SERIAL && (i
        < ps.len() - 1 || !fin ==> ps[i].2 != PacketEnd::EndStream) by {
        if i >= 2 {
            assert(ps[i] == a[i - 2]);
            if i - 2 < w.len() {
                assert(a[i - 2] == w[i - 2]);
            }
        }
    }
    if fin {
        assert(ps.last() == a.last());
    }
    lemma_stream_pages_shape(t@.handed + t@.output, ps, STREAM_SERIAL);
}

/// The number of audio packets of a stream of `n` frames.
pub open spec fn audio_packet_count(n: nat, finished: bool) -> int {
    (if n == 0 {
        0int
    } else {
        n - 1
    }) + (if finished {
        1int
    } else {
        0int
    })
}

/// How many audio packets a stream holds.
pub proof fn lemma_audio_packets_len(pre_skip: u16, frames: Seq<Seq<u8>>, finished: bool)
    ensures
        audio_packets(pre_skip, frames, finished).len() == audio_packet_count(frames.len(), finished),
{
}

/// A finished stream carries every frame exactly once and in order; each
/// packet but the last is ordinary and carries the granule position of its
/// frame's start, and the last one closes the stream with the granule
/// position of the end of all frames. It is the only one that closes it.
pub proof fn lemma_finished_stream(pre_skip: u16, frames: Seq<Seq<u8>>)
    requires
        1 <= frames.len() <= MAX_FRAMES,
    ensures
        audio_packets(pre_skip, frames, true).len() == frames.len(),
        forall|k: int| 0 <= k < frames.len() ==> {
            let p = #[trigger] audio_packets(pre_skip, frames, true)[k];
            &&& p.0 == frames[k]
            &&& p.1 == STREAM_SERIAL
            &&& (k < frames.len() - 1 ==> p.2 == PacketEnd::Normal && p.3 == frame_granule(pre_skip, k))
            &&& (k == frames.len() - 1 ==> p.2 == PacketEnd::EndStream && p.3 == frame_granule(pre_skip, frames.len() as int))
        },
{
    let n = frames.len();
    assert forall|k: int| 0 <= k < n implies {
        let p = #[trigger] audio_packets(pre_skip, frames, true)[k];
        &&& p.0 == frames[k]
        &&& p.1 == STREAM_SERIAL
        &&& (k < n - 1 ==> p.2 == PacketEnd::Normal && p.3 == frame_granule(pre_skip, k))
        &&& (k == n - 1 ==> p.2 == PacketEnd::EndStream && p.3 == frame_granule(pre_skip, n as int))
    } by {
        assert(0 <= frame_granule(pre_skip, k) <= u64::MAX);
        assert(0 <= frame_granule(pre_skip, n as int) <= u64::MAX);
    }
}

/// A stream closed before any frame holds, after its headers, one empty
/// packet that ends the stream at the pre-skip.
pub proof fn lemma_empty_finished_stream(pre_skip: u16)
    ensures
        audio_packets(pre_skip, Seq::empty(), true) == seq![
            (Seq::<u8>::empty(), STREAM_SERIAL, PacketEnd::EndStream, pre_skip as u64),
        ],
{
    assert(audio_packets(pre_skip, Seq::empty(), true) =~= seq![
        (Seq::<u8>::empty(), STREAM_SERIAL, PacketEnd::EndStream, pre_skip as u64),
    ]);
}

/// While a stream is open, its most recent frame is held back: every earlier
/// frame has been written, in order, as an ordinary packet.
pub proof fn lemma_open_stream(pre_skip: u16, frames: Seq<Seq<u8>>)
    requires
        1 <= frames.len() <= MAX_FRAMES,
    ensures
        audio_packets(pre_skip, frames, false).len() == frames.len() - 1,
        forall|k: int| 0 <= k < frames.len() - 1 ==> {
            let p = #[trigger] audio_packets(pre_skip, frames, false)[k];
            &&& p.0 == frames[k]
            &&& p.2 == PacketEnd::Normal
            &&& p.3 == frame_granule(pre_skip, k)
        },
{
    assert forall|k: int| 0 <= k < frames.len() - 1 implies {
        let p = #[trigger] audio_packets(pre_skip, frames, false)[k];
        &&& p.0 == frames[k]
        &&& p.2 == PacketEnd::Normal
        &&& p.3 == frame_granule(pre_skip, k)
    } by {
        assert(0 <= frame_granule(pre_skip, k) <= u64::MAX);
    }
}

/// The granule positions of a stream's audio packets strictly increase.
pub proof fn lemma_granules_increase(pre_skip: u16, frames: Seq<Seq<u8>>, finished: bool)
    requires
        frames.len() <= MAX_FRAMES,
    ensures
        forall|i: int, j: int|
            0 <= i < j < audio_packets(pre_skip, frames, finished).len() ==> (#[trigger] audio_packets(
                pre_skip,
                frames,
                finished,
            )[i]).3 < (#[trigger] audio_packets(pre_skip, frames, finished)[j]).3,
{
    let n = frames.len();
    let a = audio_packets(pre_skip, frames, finished);
    let w = written_frames(pre_skip, frames);
    assert forall|i: int, j: int| 0 <= i < j < a.len() implies (#[trigger] a[i]).3 < (#[trigger] a[j]).3 by {
        assert(0 <= frame_granule(pre_skip, i) <= u64::MAX);
        assert(0 <= frame_granule(pre_skip, j) <= u64::MAX);
        assert(0 <= frame_granule(pre_skip, n as int) <= u64::MAX);
        if j < w.len() {
            assert(a[j].3 == frame_granule(pre_skip, j));
        } else {
            assert(a[j].3 == frame_granule(pre_skip, n as int));
        }
        assert(a[i].3 == frame_granule(pre_skip, i));
    }
}

/// On a consistent track, the granule positions that the Ogg writer received
/// with the audio packets strictly increase.
pub proof fn lemma_track_granules_increase(t: &Track)
    requires
        t.wf(),
    ensures
        forall|i: int, j: int|
            2 <= i < j < t@.packets.len() ==> (#[trigger] t@.packets[i]).3 < (#[trigger] t@.packets[j]).3,
{
    lemma_track_stream(t);
    lemma_granules_increase(t@.pre_skip, t@.frames, t@.finished);
    let a = audio_packets(t@.pre_skip, t@.frames, t@.finished);
    assert forall|i: int, j: int| 2 <= i < j < t@.packets.len() implies (#[trigger] t@.packets[i]).3
        < (#[trigger] t@.packets[j]).3 by {
        assert(t@.packets[i] == a[i - 2]);
        assert(t@.packets[j] == a[j - 2]);
    }
}

/// Appending the pages of one more packet to the pages of a stream gives the
/// pages of the longer stream.
proof fn lemma_stream_pages_push(b: Seq<u8>, packets: Seq<OggPacket>, c: Seq<u8>, p: OggPacket)
    requires
        stream_pages(b, packets),
        pages_fit(c, true, p.1, p.2, p.3, last_granule(packets)),
    ensures
        stream_pages(b + c, packets.push(p)),
{
    let all = b + c;
    let k = b.len() as int;
    assert(all.take(k) =~= b);
    assert(all.skip(k) =~= c);
    let longer = packets.push(p);
    assert(longer.drop_last() =~= packets);
    assert(longer.last() == p);
    assert(0 <= k <= all.len() && stream_pages(all.take(k), longer.drop_last()) && pages_fit(
        all.skip(k),
        true,
        longer.last().1,
        longer.last().2,
        longer.last().3,
        last_granule(longer.drop_last()),
    ));
    assert(stream_pages(all, longer));
}

/// The pages of a stream of packets that all carry `serial` are a run of
/// whole pages, all of stream `serial`. When no packet ends the stream, no
/// page carries the end-of-stream flag; when the last packet alone ends it,
/// the last page alone carries the flag.
pub proof fn lemma_stream_pages_shape(b: Seq<u8>, packets: Seq<OggPacket>, serial: u32)
    requires
        stream_pages(b, packets),
        forall|i: int| 0 <= i < packets.len() ==> (#[trigger] packets[i]).1 == serial,
    ensures
        pages_run(b),
        all_pages_of_stream(b, serial),
        (forall|i: int| 0 <= i < packets.len() ==> (#[trigger] packets[i]).2 != PacketEnd::EndStream)
            ==> no_page_ends_stream(b),
        packets.len() > 0 && packets.last().2 == PacketEnd::EndStream && (forall|i: int|
            0 <= i < packets.len() - 1 ==> (#[trigger] packets[i]).2 != PacketEnd::EndStream)
            ==> last_page_ends_stream(b),
    decreases packets.len(),
{
    if packets.len() > 0 {
        let k = choose|k: int|
            #![trigger b.take(k)]
            0 <= k <= b.len() && stream_pages(b.take(k), packets.drop_last()) && pages_fit(
                b.skip(k),
                true,
                packets.last().1,
                packets.last().2,
                packets.last().3,
                last_granule(packets.drop_last()),
            );
        let a = b.take(k);
        let c = b.skip(k);
        let init = packets.drop_last();
        let p = packets.last();
        assert forall|i: int| 0 <= i < init.len() implies (#[trigger] init[i]).1 == serial by {
            assert(init[i] == packets[i]);
        }
        lemma_stream_pages_shape(a, init, serial);
        lemma_pages_fit_run(c, true, p.1, p.2, p.3, last_granule(init));
        lemma_pages_of_stream(c, true, p.1, p.2, p.3, last_granule(init));
        lemma_pages_end_of_stream(c, true, p.1, p.2, p.3, last_granule(init));
        assert(b =~= a + c);
        lemma_pages_run_concat(a, c);
        lemma_pages_of_stream_concat(a, c, serial);
        if forall|i: int| 0 <= i < packets.len() - 1 ==> (#[trigger] packets[i]).2 != PacketEnd::EndStream {
            assert forall|i: int| 0 <= i < init.len() implies (#[trigger] init[i]).2
                != PacketEnd::EndStream by {
                assert(init[i] == packets[i]);
            }
            if p.2 == PacketEnd::EndStream {
                lemma_last_end_of_stream_concat(a, c);
            } else {
                lemma_no_end_of_stream_concat(a, c);
            }
        }
    }
}

struct PendingFrame {
    data: Vec<u8>,
    absgp: u64,
}

/// One speaker's Ogg Opus stream.
pub struct Track {
    ogg_writer: OggWriter,
    packet_count: u64,
    pre_skip: u16,
    pending: Option<PendingFrame>,
    finished: bool,
    last_absgp: u64,
    frames: Ghost<Seq<Seq<u8>>>,
    packets: Ghost<Seq<OggPacket>>,
    handed: Ghost<Seq<u8>>,
}

impl View for Track {
    type V = TrackView;

    closed spec fn view(&self) -> TrackView {
        TrackView {
            pre_skip: self.pre_skip,
            frames: self.frames@,
            packets: self.packets@,
            handed: self.handed@,
            finished: self.finished,
            output: ogg_output(self.ogg_writer),
        }
    }
}

impl Track {
    /// The writer's page state and the bytes emitted are those of the packets
    /// handed to it.
    closed spec fn in_sync(&self) -> bool {
        &&& ogg_page_state(self.ogg_writer) == ogg_fold(self.packets@).1
        &&& self.handed@ + ogg_output(self.ogg_writer) == ogg_fold(self.packets@).0
        &&& stream_pages(self.handed@ + ogg_output(self.ogg_writer), self.packets@)
        &&& self.packets@.len() > 0 ==> self.last_absgp == self.packets@.last().3
        &&& ogg_prev_granule(ogg_page_state(self.ogg_writer), STREAM_SERIAL) == u64::MAX
            || ogg_prev_granule(ogg_page_state(self.ogg_writer), STREAM_SERIAL) == last_granule(
            self.packets@,
        )
    }

    /// The track's internal consistency: the packets handed to the writer are
    /// exactly the stream of its frames and the writer's bytes are their pages,
    /// the frame held back is the most recent one, and the writer's page
    /// counter stays far from overflow.
    pub closed spec fn wf(&self) -> bool {
        let n = self.frames@.len();
        &&& self.packet_count == n
        &&& n <= MAX_FRAMES
        &&& forall|k: int| 0 <= k < n ==> #[trigger] self.frames@[k].len() <= MAX_PACKET_LEN
        &&& self.packets@ == stream_packets(self.pre_skip, self.frames@, self.finished)
        &&& self.in_sync()
        &&& match self.pending {
            Some(p) => {
                &&& !self.finished
                &&& n > 0
                &&& p.data@ == self.frames@.last()
                &&& p.absgp == frame_granule(self.pre_skip, n - 1)
            },
            None => self.finished || n == 0,
        }
        &&& ogg_pages(self.ogg_writer) <= self.packets@.len() + 2 + (if self.finished {
            1int
        } else {
            0int
        })
    }

    /// Hands one packet of the stream to the writer, and records it. The
    /// pages emitted for it are checked against what the writer's contract
    /// states of them; pages that broke it would be dropped, which the
    /// contract rules out.
    fn send(&mut self, data: Vec<u8>, end: PacketEnd, absgp: u64)
        requires
            old(self).in_sync(),
            ogg_pages(old(self).ogg_writer) + pages_for_packet(data@.len(), end) <= u32::MAX,
        ensures
            final(self).in_sync(),
            final(self).packets@ == old(self).packets@.push((data@, STREAM_SERIAL, end, absgp)),
            ogg_pages(final(self).ogg_writer) <= ogg_pages(old(self).ogg_writer) + pages_for_packet(
                data@.len(),
                end,
            ),
            old(self).handed@ == final(self).handed@,
            ogg_output(old(self).ogg_writer).is_prefix_of(ogg_output(final(self).ogg_writer)),
            final(self).packet_count == old(self).packet_count,
            final(self).pre_skip == old(self).pre_skip,
            final(self).pending == old(self).pending,
            final(self).finished == old(self).finished,
            final(self).frames == old(self).frames,
            pages_fit(
                ogg_output(final(self).ogg_writer).skip(ogg_output(old(self).ogg_writer).len() as int),
                true,
                STREAM_SERIAL,
                end,
                absgp,
                last_granule(old(self).packets@),
            ),
    {
        let ghost p = (data@, STREAM_SERIAL, end, absgp);
        let ghost before = self.packets@;
        let ghost old_bytes = self.handed@ + ogg_output(self.ogg_writer);
        let ghost old_state = ogg_page_state(self.ogg_writer);
        let start = ogg_sink(&mut self.ogg_writer).len();
        let prev = self.last_absgp;
        let _ = ogg_write_packet(&mut self.ogg_writer, data, STREAM_SERIAL, end, absgp);
        let ghost new_output = ogg_output(self.ogg_writer);
        proof {
            let got = ogg_prev_granule(old_state, STREAM_SERIAL);
            lemma_pages_fit_prev(new_output.skip(start as int), true, STREAM_SERIAL, end, absgp, got, prev);
            lemma_pages_fit_prev(
                new_output.skip(start as int),
                true,
                STREAM_SERIAL,
                end,
                absgp,
                got,
                last_granule(before),
            );
        }
        let sink = ogg_sink(&mut self.ogg_writer);
        if !check_pages(sink, start, STREAM_SERIAL, end, absgp, prev) {
            sink.truncate(start);
        }
        self.packets = Ghost(before.push(p));
        self.last_absgp = absgp;
        proof {
            assert(self.packets@.drop_last() == before);
            let step = ogg_write_step(ogg_fold(before).1, p.0, p.1, p.2, p.3);
            assert(ogg_fold(self.packets@) == (ogg_fold(before).0 + step.0, step.1));
            assert(self.handed@ + ogg_output(self.ogg_writer) =~= ogg_fold(self.packets@).0);
            let chunk = new_output.skip(start as int);
            assert(self.handed@ + ogg_output(self.ogg_writer) =~= old_bytes + chunk);
            lemma_stream_pages_push(old_bytes, before, chunk, p);
        }
    }

    /// Opens a stream whose pre-skip is the encoder's lookahead (truncated to
    /// 16 bits): the writer receives the identification header and then the
    /// comment header, each ending its page, with granule position 0. The
    /// bytes it emits are the pages of these two packets.
    pub fn create(lookahead: u32) -> (track: Track)
        ensures
            track.wf(),
            track@.pre_skip == lookahead as u16,
            track@.frames == Seq::<Seq<u8>>::empty(),
            track@.packets == header_packets(lookahead as u16),
            track@.packets == stream_packets(lookahead as u16, Seq::empty(), false),
            track@.handed == Seq::<u8>::empty(),
            track@.output == ogg_stream_bytes(header_packets(lookahead as u16)),
            bytes_match(track@),
            !track@.finished,
            stream_pages(track@.output, header_packets(lookahead as u16)),
            all_pages_of_stream(track@.output, STREAM_SERIAL),
            no_page_ends_stream(track@.output),
    {
        let pre_skip = lookahead as u16;
        let mut track = Track {
            ogg_writer: ogg_writer_new(Vec::new()),
            packet_count: 0,
            pre_skip,
            pending: None,
            finished: false,
            last_absgp: 0,
            frames: Ghost(Seq::empty()),
            packets: Ghost(Seq::empty()),
            handed: Ghost(Seq::empty()),
        };
        assert(ogg_output(track.ogg_writer) =~= Seq::<u8>::empty());
        assert(ogg_page_state(track.ogg_writer) =~= Map::<u32, OggPageState>::empty());
        assert(track.handed@ + ogg_output(track.ogg_writer) =~= Seq::<u8>::empty());
        let head = opus_head(pre_skip);
        track.send(head, PacketEnd::EndPage, 0);
        let tags = opus_tags(VENDOR.as_slice());
        track.send(tags, PacketEnd::EndPage, 0);
        assert(track.packets@ =~= header_packets(pre_skip));
        assert(audio_packets(pre_skip, Seq::empty(), false) =~= Seq::<OggPacket>::empty());
        assert(stream_packets(pre_skip, Seq::empty(), false) =~= header_packets(pre_skip));
        assert(track.handed@ + ogg_output(track.ogg_writer) =~= ogg_output(track.ogg_writer));
        proof {
            lemma_track_pages(&track);
        }
        track
    }

    /// Takes out the bytes of the Ogg pages emitted so far; the track is
    /// otherwise unchanged.
    pub fn take_output(&mut self) -> (bytes: Vec<u8>)
        requires
            old(self).wf(),
        ensures
            final(self).wf(),
            bytes@ == old(self)@.output,
            final(self)@.output == Seq::<u8>::empty(),
            final(self)@.handed == old(self)@.handed + old(self)@.output,
            final(self)@.pre_skip == old(self)@.pre_skip,
            final(self)@.frames == old(self)@.frames,
            final(self)@.packets == old(self)@.packets,
            final(self)@.finished == old(self)@.finished,
            bytes_match(final(self)@),
    {
        let mut bytes: Vec<u8> = Vec::new();
        let ghost before = self.handed@ + ogg_output(self.ogg_writer);
        let sink = ogg_sink(&mut self.ogg_writer);
        std::mem::swap(sink, &mut bytes);
        self.handed = Ghost(self.handed@ + bytes@);
        assert(self.handed@ + ogg_output(self.ogg_writer) =~= before);
        bytes
    }

    /// Closes the stream: the writer receives the closing packet, the frame
    /// held back (an empty packet when there is no frame) with the
    /// end-of-stream flag and the granule position of the end of all frames.
    /// A stream already closed is left as it is. Returns the bytes of all
    /// pages not yet taken out: with those taken out before, they are the
    /// pages of the whole stream.
    pub fn finalize(&mut self) -> (bytes: Vec<u8>)
        requires
            old(self).wf(),
        ensures
            final(self).wf(),
            final(self)@.finished,
            final(self)@.pre_skip == old(self)@.pre_skip,
            final(self)@.frames == old(self)@.frames,
            final(self)@.packets == (if old(self)@.finished {
                old(self)@.packets
            } else {
                old(self)@.packets.push(last_packet(old(self)@.pre_skip, old(self)@.frames))
            }),
            final(self)@.packets == stream_packets(old(self)@.pre_skip, old(self)@.frames, true),
            old(self)@.output.is_prefix_of(bytes@),
            final(self)@.handed == old(self)@.handed + bytes@,
            old(self)@.handed + bytes@ == ogg_stream_bytes(final(self)@.packets),
            final(self)@.output == Seq::<u8>::empty(),
            old(self)@.finished ==> bytes@ == old(self)@.output,
            !old(self)@.finished ==> pages_fit(
                bytes@.skip(old(self)@.output.len() as int),
                true,
                STREAM_SERIAL,
                PacketEnd::EndStream,
                frame_granule(old(self)@.pre_skip, old(self)@.frames.len() as int) as u64,
                last_granule(old(self)@.packets),
            ),
    {
        if !self.finished {
            let ghost pre_skip = self.pre_skip;
            let ghost frames = self.frames@;
            let ghost old_packets = self.packets@;
            let absgp = self.pre_skip as u64 + self.packet_count * FRAME_SAMPLES;
            let prev = self.pending.take();
            let data = match prev {
                Some(p) => p.data,
                None => Vec::new(),
            };
            assert(data@ == last_packet(pre_skip, frames).0);
            assert(absgp == frame_granule(pre_skip, frames.len() as int));
            self.send(data, PacketEnd::EndStream, absgp);
            self.finished = true;
            proof {
                let pk = last_packet(pre_skip, frames);
                assert(self.packets@ == old_packets.push(pk));
                assert(stream_packets(pre_skip, frames, true) =~= old_packets.push(pk));
            }
        }
        self.take_output()
    }

    /// The number of frames the track has accepted.
    pub fn frame_count(&self) -> (n: u64)
        requires
            self.wf(),
        ensures
            n == self@.frames.len(),
    {
        self.packet_count
    }

    /// Whether the end of the stream has been written.
    pub fn is_finished(&self) -> (b: bool)
        ensures
            b == self@.finished,
    {
        self.finished
    }

    /// The pre-skip written in the identification header.
    pub fn pre_skip(&self) -> (p: u16)
        ensures
            p == self@.pre_skip,
    {
        self.pre_skip
    }

    /// A zeroed buffer of `MAX_PACKET_LEN` bytes for the encoder to write one
    /// frame into.
    pub fn encode_buffer() -> (buffer: Vec<u8>)
        ensures
            buffer@ == Seq::new(MAX_PACKET_LEN as nat, |i: int| 0u8),
    {
        let buffer = vec![0u8; MAX_PACKET_LEN];
        assert(buffer@ == Seq::new(MAX_PACKET_LEN as nat, |i: int| 0u8));
        buffer
    }

    /// One 20 ms frame of silence: `FRAME_PCM_LEN` zero samples.
    pub fn silent_pcm() -> (pcm: Vec<i16>)
        ensures
            pcm@ == Seq::new(FRAME_PCM_LEN as nat, |i: int| 0i16),
    {
        let pcm = vec![0i16; FRAME_PCM_LEN];
        assert(pcm@ == Seq::new(FRAME_PCM_LEN as nat, |i: int| 0i16));
        pcm
    }

    /// Accepts the next frame, encoded into `buffer` with length `len`: the
    /// frame is the first `len` bytes of the buffer. The frame is held back;
    /// the writer receives the frame held back before it, if any, as an
    /// ordinary packet with the granule position of that frame's start, and
    /// nothing else.
    pub fn write_frame(&mut self, buffer: Vec<u8>, len: usize)
        requires
            old(self).wf(),
            !old(self)@.finished,
            old(self)@.frames.len() < MAX_FRAMES,
            buffer@.len() <= MAX_PACKET_LEN,
        ensures
            final(self).wf(),
            final(self)@.pre_skip == old(self)@.pre_skip,
            !final(self)@.finished,
            final(self)@.frames == old(self)@.frames.push(encoded_frame(buffer@, len)),
            final(self)@.packets == (if old(self)@.frames.len() == 0 {
                old(self)@.packets
            } else {
                old(self)@.packets.push(
                    frame_packet(old(self)@.pre_skip, old(self)@.frames, old(self)@.frames.len() - 1),
                )
            }),
            final(self)@.handed == old(self)@.handed,
            old(self)@.output.is_prefix_of(final(self)@.output),
            bytes_match(final(self)@),
            old(self)@.frames.len() == 0 ==> final(self)@.output == old(self)@.output,
            old(self)@.frames.len() > 0 ==> pages_fit(
                final(self)@.output.skip(old(self)@.output.len() as int),
                true,
                STREAM_SERIAL,
                PacketEnd::Normal,
                frame_granule(old(self)@.pre_skip, old(self)@.frames.len() - 1) as u64,
                last_granule(old(self)@.packets),
            ),
    {
        let mut data = buffer;
        data.truncate(len);
        let ghost frame = data@;
        assert(frame == encoded_frame(buffer@, len));
        let absgp = self.pre_skip as u64 + self.packet_count * FRAME_SAMPLES;
        let ghost old_frames = self.frames@;
        let ghost old_packets = self.packets@;
        let ghost n = old_frames.len();
        let ghost pre_skip = self.pre_skip;
        let prev = self.pending.take();
        self.pending = Some(PendingFrame { data, absgp });
        self.packet_count = self.packet_count + 1;
        self.frames = Ghost(old_frames.push(frame));
        match prev {
            Some(p) => {
                self.send(p.data, PacketEnd::Normal, p.absgp);
                proof {
                    let pk = frame_packet(pre_skip, old_frames, n - 1);
                    assert(pk == frame_packet(pre_skip, self.frames@, n - 1));
                    assert(self.packets@ == old_packets.push(pk));
                    assert(audio_packets(pre_skip, self.frames@, false) =~= audio_packets(
                        pre_skip,
                        old_frames,
                        false,
                    ).push(pk));
                    assert(stream_packets(pre_skip, self.frames@, false) =~= old_packets.push(pk));
                }
            },
            None => {
                proof {
                    assert(audio_packets(pre_skip, self.frames@, false) =~= Seq::<OggPacket>::empty());
                    assert(stream_packets(pre_skip, self.frames@, false) =~= old_packets);
                }
            },
        }
        assert forall|k: int| 0 <= k < self.frames@.len() implies #[trigger] self.frames@[k].len()
            <= MAX_PACKET_LEN by {
            if k < n {
                assert(self.frames@[k] == old_frames[k]);
            }
        }
    }
}

} // verus!
