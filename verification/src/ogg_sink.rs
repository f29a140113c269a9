//! The Ogg framing of packets, done by the `ogg` crate's `PacketWriter`.
//!
//! The writer's sink is an in-memory byte buffer: the library frames packets
//! into Ogg pages, and whoever owns the track moves the buffered bytes to their
//! destination. Everything in this file is trusted; the contracts below are
//! what the `ogg` crate's source shows for a `Vec<u8>` sink.
use vstd::prelude::*;

use crate::ogg_page::pages_fit;

verus! {

/// An Ogg packet writer whose sink is an in-memory byte buffer. The writer is
/// a private field, reached only through the functions of this file.
#[verifier::external_body]
pub struct OggWriter {
    inner: ogg::PacketWriter<'static, Vec<u8>>,
}

#[verifier::external_type_specification]
#[verifier::external_body]
pub struct ExIoError(std::io::Error);

/// The bytes that the writer has emitted into its sink and that nobody has
/// taken out yet.
pub uninterp spec fn ogg_output(w: OggWriter) -> Seq<u8>;

/// The number of Ogg pages the writer has emitted so far (its page sequence
/// counter is bounded by it).
pub uninterp spec fn ogg_pages(w: OggWriter) -> nat;

/// What the writer keeps of one logical stream between two packets: whether
/// its next page is the stream's first, the page sequence number, the lacing
/// values of the current page, the data and granule position of each packet
/// on the current page, and the offset at which the first of them resumes
/// when it began on an earlier page.
pub type OggPageState = (bool, u32, Seq<u8>, Seq<(Seq<u8>, u64)>, Option<usize>);

/// The writer's page state of each logical stream, by serial number.
pub uninterp spec fn ogg_page_state(w: OggWriter) -> Map<u32, OggPageState>;

/// One `write_packet` call as a function of the page state it starts from and
/// its arguments: the bytes of the pages it emits, and the page state it
/// leaves.
pub uninterp spec fn ogg_write_step(
    state: Map<u32, OggPageState>,
    data: Seq<u8>,
    serial: u32,
    end: PacketEnd,
    absgp: u64,
) -> (Seq<u8>, Map<u32, OggPageState>);

/// How a packet ends: in the middle of a page, by closing the page, or by
/// closing the whole logical stream.
#[derive(Clone, Copy, Debug, PartialEq, Eq, Structural)]
pub enum PacketEnd {
    Normal,
    EndPage,
    EndStream,
}

/// An upper bound on the pages that one `write_packet` call emits for a packet
/// of `len` bytes: the packet takes `len / 255 + 1` lacing values, a page is
/// emitted each time the page's 255 lacing values fill up (it held at most 254
/// before the call), and a packet that ends its page or stream emits one more.
pub open spec fn pages_for_packet(len: nat, end: PacketEnd) -> nat {
    (254 + len / 255 + 1) / 255 + if end == PacketEnd::Normal {
        0nat
    } else {
        1nat
    }
}

/// The granule position of the packet that was handed last for stream
/// `serial` and still lies on its open page; `u64::MAX`, Ogg's "no packet
/// completes here", when that page holds no packet.
pub open spec fn ogg_prev_granule(state: Map<u32, OggPageState>, serial: u32) -> u64 {
    if state.contains_key(serial) && state[serial].3.len() > 0 {
        state[serial].3.last().1
    } else {
        u64::MAX
    }
}

/// `ogg::PacketWriter::new` on an empty in-memory sink: a writer that has
/// emitted nothing.
#[verifier::external_body]
pub(crate) fn ogg_writer_new(sink: Vec<u8>) -> (w: OggWriter)
    ensures
        ogg_output(w) == sink@,
        ogg_pages(w) == 0,
        ogg_page_state(w).dom() == Set::<u32>::empty(),
{
    OggWriter { inner: ogg::PacketWriter::new(sink) }
}

/// `ogg::PacketWriter::write_packet`. What it emits and the page state it
/// leaves depend on the page state it starts from and its arguments alone
/// (`ogg_write_step`); the emitted bytes are appended to the sink. With a
/// `Vec<u8>` sink every write into the sink succeeds, so the call returns
/// `Ok`, and it emits at most `pages_for_packet` pages. The page
/// sequence counter is a `u32` that panics on overflow in debug builds, which
/// the `requires` rules out.
///
/// Of the emitted bytes, the source (`write_packet` and `write_page`) shows
/// what `pages_fit` states: they are whole pages, each starting with `OggS`
/// and version 0 and carrying `serial`; the end-of-stream flag is set on the
/// last page of a packet handed with `EndStream` and on no other; a page on
/// which the packet completes carries `absgp`, a page that it leaves
/// unfinished carries the granule position of the packet before it on that
/// page, or `u64::MAX` when there is none; a packet handed with `EndPage` or
/// `EndStream` emits at least one page. Afterwards the packet, with `absgp`,
/// is the last on the stream's open page, or that page is empty. The page
/// sequence numbers, the other header flags, the CRC and the body bytes are
/// not stated.
#[verifier::external_body]
pub(crate) fn ogg_write_packet(
    w: &mut OggWriter,
    data: Vec<u8>,
    serial: u32,
    end: PacketEnd,
    absgp: u64,
) -> (r: Result<(), std::io::Error>)
    requires
        ogg_pages(*old(w)) + pages_for_packet(data@.len(), end) <= u32::MAX,
    ensures
        r is Ok,
        ogg_output(*final(w)) == ogg_output(*old(w)) + ogg_write_step(
            ogg_page_state(*old(w)),
            data@,
            serial,
            end,
            absgp,
        ).0,
        ogg_page_state(*final(w)) == ogg_write_step(
            ogg_page_state(*old(w)),
            data@,
            serial,
            end,
            absgp,
        ).1,
        ogg_pages(*old(w)) <= ogg_pages(*final(w)) <= ogg_pages(*old(w)) + pages_for_packet(
            data@.len(),
            end,
        ),
        pages_fit(
            ogg_output(*final(w)).skip(ogg_output(*old(w)).len() as int),
            true,
            serial,
            end,
            absgp,
            ogg_prev_granule(ogg_page_state(*old(w)), serial),
        ),
        ogg_prev_granule(ogg_page_state(*final(w)), serial) == absgp || ogg_prev_granule(
            ogg_page_state(*final(w)),
            serial,
        ) == u64::MAX,
{
    let inf = match end {
        PacketEnd::Normal => ogg::PacketWriteEndInfo::NormalPacket,
        PacketEnd::EndPage => ogg::PacketWriteEndInfo::EndPage,
        PacketEnd::EndStream => ogg::PacketWriteEndInfo::EndStream,
    };
    w.inner.write_packet(data, serial, inf, absgp)
}

/// `ogg::PacketWriter::inner_mut`: the sink itself, which holds exactly the
/// bytes emitted and not yet taken; writing through it changes the writer's
/// sink and nothing else: neither its page state nor its page count.
#[verifier::external_body]
pub(crate) fn ogg_sink<'a>(w: &'a mut OggWriter) -> (sink: &'a mut Vec<
    u8,
>)
    ensures
        (*sink)@ == ogg_output(*old(w)),
        ogg_output(*final(w)) == (*final(sink))@,
        ogg_pages(*final(w)) == ogg_pages(*old(w)),
        ogg_page_state(*final(w)) == ogg_page_state(*old(w)),
{
    w.inner.inner_mut()
}

} // verus!
