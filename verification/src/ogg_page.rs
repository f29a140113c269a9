//! The Ogg page headers (RFC 3533, section 6) that a packet handed to the Ogg
//! writer must produce: every page of the packet's logical stream, with the
//! end-of-stream flag only where the stream ends, and the granule position of
//! the last packet that completes on the page.
use vstd::prelude::*;

use crate::ogg_sink::PacketEnd;
use crate::opus_header::{le32, push_le32};

verus! {

/// Length of the fixed part of a page header.
pub const PAGE_HEADER_LEN: usize = 27;

/// The capture pattern `OggS` followed by stream structure version 0.
pub open spec fn page_magic() -> Seq<u8> {
    seq![0x4fu8, 0x67u8, 0x67u8, 0x53u8, 0u8]
}

/// Little-endian encoding of a 64-bit value.
pub open spec fn le64(v: u64) -> Seq<u8> {
    seq![
        (v % 0x100) as u8,
        ((v / 0x100) % 0x100) as u8,
        ((v / 0x10000) % 0x100) as u8,
        ((v / 0x1000000) % 0x100) as u8,
        ((v / 0x100000000) % 0x100) as u8,
        ((v / 0x10000000000) % 0x100) as u8,
        ((v / 0x1000000000000) % 0x100) as u8,
        ((v / 0x100000000000000) % 0x100) as u8,
    ]
}

/// The sum of lacing values: the length of the page's body.
pub open spec fn lacing_sum(l: Seq<u8>) -> nat
    decreases l.len(),
{
    if l.len() == 0 {
        0
    } else {
        (lacing_sum(l.drop_last()) + l.last()) as nat
    }
}

/// The lacing values of the page at the start of `b`.
pub open spec fn page_lacing(b: Seq<u8>) -> Seq<u8> {
    b.subrange(27, 27 + b[26] as int)
}

/// The length of the page at the start of `b`: header, lacing and body.
pub open spec fn page_len(b: Seq<u8>) -> int {
    27 + b[26] + lacing_sum(page_lacing(b))
}

/// `b` starts with a whole page that holds at least one lacing value.
pub open spec fn page_framed(b: Seq<u8>) -> bool {
    &&& b.len() >= 27
    &&& b[26] > 0
    &&& b.len() >= 27 + b[26]
    &&& b.len() >= page_len(b)
}

/// The page's header carries this granule position.
pub open spec fn page_granule_is(b: Seq<u8>, g: u64) -> bool {
    b.subrange(6, 14) == le64(g)
}

/// The page carries the end-of-stream flag.
pub open spec fn page_ends_stream(b: Seq<u8>) -> bool {
    (b[5] & 4u8) != 0
}

/// The page's last lacing value closes a packet: some packet completes last
/// on this page.
pub open spec fn page_ends_packet(b: Seq<u8>) -> bool {
    page_lacing(b).last() < 255
}

/// One page emitted for a packet handed with `serial`, `end` and `absgp`:
/// the page belongs to stream `serial`; it carries the end-of-stream flag
/// exactly when it is the last page emitted for a packet that ends the
/// stream; and its granule position is `absgp` when the packet completes on
/// it, otherwise that of an earlier packet completing on it (`prev`, only on
/// the first page emitted) or the "no packet completes here" value.
pub open spec fn page_fits(
    b: Seq<u8>,
    first: bool,
    last: bool,
    serial: u32,
    end: PacketEnd,
    absgp: u64,
    prev: u64,
) -> bool {
    &&& b.take(5) == page_magic()
    &&& b.subrange(14, 18) == le32(serial)
    &&& page_ends_stream(b) == (last && end == PacketEnd::EndStream)
    &&& if page_ends_packet(b) {
        page_granule_is(b, absgp)
    } else if first {
        page_granule_is(b, prev) || page_granule_is(b, u64::MAX)
    } else {
        page_granule_is(b, u64::MAX)
    }
}

/// The bytes emitted for one packet are a run of whole pages, each fitting
/// the packet; a packet that ends its page or the stream emits at least one.
#[verifier::opaque]
pub open spec fn pages_fit(
    b: Seq<u8>,
    first: bool,
    serial: u32,
    end: PacketEnd,
    absgp: u64,
    prev: u64,
) -> bool
    decreases b.len(),
{
    if b.len() == 0 {
        first && end == PacketEnd::Normal
    } else if !page_framed(b) {
        false
    } else {
        &&& page_fits(b, first, page_len(b) == b.len(), serial, end, absgp, prev)
        &&& (page_len(b) == b.len() || pages_fit(b.skip(page_len(b)), false, serial, end, absgp, prev))
    }
}

/// Pages that fit with a known earlier granule also fit with any other
/// choice of it, as long as the one they carry is among the allowed.
pub proof fn lemma_pages_fit_prev(
    b: Seq<u8>,
    first: bool,
    serial: u32,
    end: PacketEnd,
    absgp: u64,
    prev1: u64,
    prev2: u64,
)
    requires
        pages_fit(b, first, serial, end, absgp, prev1),
        prev1 == prev2 || prev1 == u64::MAX,
    ensures
        pages_fit(b, first, serial, end, absgp, prev2),
    decreases b.len(),
{
    reveal(pages_fit);
    if b.len() > 0 && page_len(b) != b.len() {
        lemma_pages_fit_prev(b.skip(page_len(b)), false, serial, end, absgp, prev1, prev2);
    }
}

/// Pages handed for a packet that does not end the stream carry no
/// end-of-stream flag; those handed for one that does end with one.
pub proof fn lemma_pages_end_of_stream(
    b: Seq<u8>,
    first: bool,
    serial: u32,
    end: PacketEnd,
    absgp: u64,
    prev: u64,
)
    requires
        pages_fit(b, first, serial, end, absgp, prev),
    ensures
        end != PacketEnd::EndStream ==> no_page_ends_stream(b),
        end == PacketEnd::EndStream ==> b.len() > 0 && last_page_ends_stream(b),
    decreases b.len(),
{
    reveal(pages_fit);
    if b.len() > 0 && page_len(b) != b.len() {
        lemma_pages_end_of_stream(b.skip(page_len(b)), false, serial, end, absgp, prev);
    }
}

/// No page of a run of pages carries the end-of-stream flag.
pub open spec fn no_page_ends_stream(b: Seq<u8>) -> bool
    decreases b.len(),
{
    if b.len() == 0 || !page_framed(b) {
        true
    } else {
        &&& !page_ends_stream(b)
        &&& (page_len(b) == b.len() || no_page_ends_stream(b.skip(page_len(b))))
    }
}

/// The last page of a run of pages carries the end-of-stream flag, and no
/// other does.
pub open spec fn last_page_ends_stream(b: Seq<u8>) -> bool
    decreases b.len(),
{
    if b.len() == 0 || !page_framed(b) {
        false
    } else if page_len(b) == b.len() {
        page_ends_stream(b)
    } else {
        !page_ends_stream(b) && last_page_ends_stream(b.skip(page_len(b)))
    }
}

/// Every page of a run of pages belongs to the given stream.
pub open spec fn all_pages_of_stream(b: Seq<u8>, serial: u32) -> bool
    decreases b.len(),
{
    if b.len() == 0 || !page_framed(b) {
        true
    } else {
        &&& b.subrange(14, 18) == le32(serial)
        &&& (page_len(b) == b.len() || all_pages_of_stream(b.skip(page_len(b)), serial))
    }
}

/// Every page emitted for a packet belongs to the packet's stream.
pub proof fn lemma_pages_of_stream(
    b: Seq<u8>,
    first: bool,
    serial: u32,
    end: PacketEnd,
    absgp: u64,
    prev: u64,
)
    requires
        pages_fit(b, first, serial, end, absgp, prev),
    ensures
        all_pages_of_stream(b, serial),
    decreases b.len(),
{
    reveal(pages_fit);
    if b.len() > 0 && page_len(b) != b.len() {
        lemma_pages_of_stream(b.skip(page_len(b)), false, serial, end, absgp, prev);
    }
}

/// `b` is a run of whole pages, each holding at least one lacing value.
pub open spec fn pages_run(b: Seq<u8>) -> bool
    decreases b.len(),
{
    if b.len() == 0 {
        true
    } else if !page_framed(b) {
        false
    } else {
        page_len(b) == b.len() || pages_run(b.skip(page_len(b)))
    }
}

/// The bytes emitted for one packet are a run of whole pages.
pub proof fn lemma_pages_fit_run(
    b: Seq<u8>,
    first: bool,
    serial: u32,
    end: PacketEnd,
    absgp: u64,
    prev: u64,
)
    requires
        pages_fit(b, first, serial, end, absgp, prev),
    ensures
        pages_run(b),
    decreases b.len(),
{
    reveal(pages_fit);
    if b.len() > 0 && page_len(b) != b.len() {
        lemma_pages_fit_run(b.skip(page_len(b)), false, serial, end, absgp, prev);
    }
}

/// A whole page in front of more bytes reads as it does alone: same length,
/// same header fields, and what follows it is what followed it before, then
/// the more bytes.
proof fn lemma_page_then(a: Seq<u8>, c: Seq<u8>)
    requires
        page_framed(a),
    ensures
        page_framed(a + c),
        page_len(a + c) == page_len(a),
        (a + c)[5] == a[5],
        (a + c).subrange(14, 18) == a.subrange(14, 18),
        page_len(a) == a.len() ==> (a + c).skip(page_len(a)) == c,
        page_len(a) < a.len() ==> (a + c).skip(page_len(a)) == a.skip(page_len(a)) + c,
{
    assert(page_lacing(a + c) =~= page_lacing(a));
    assert((a + c).subrange(14, 18) =~= a.subrange(14, 18));
    assert(page_len(a) == a.len() ==> (a + c).skip(page_len(a)) =~= c);
    assert(page_len(a) < a.len() ==> (a + c).skip(page_len(a)) =~= a.skip(page_len(a)) + c);
}

/// Two runs of whole pages, one after the other, are one run.
pub proof fn lemma_pages_run_concat(a: Seq<u8>, c: Seq<u8>)
    requires
        pages_run(a),
        pages_run(c),
    ensures
        pages_run(a + c),
    decreases a.len(),
{
    if a.len() == 0 {
        assert(a + c =~= c);
    } else {
        lemma_page_then(a, c);
        if c.len() == 0 {
            assert(a + c =~= a);
        } else if page_len(a) < a.len() {
            lemma_pages_run_concat(a.skip(page_len(a)), c);
        }
    }
}

/// The pages of two runs, one after the other, all belong to a stream when
/// those of each run do.
pub proof fn lemma_pages_of_stream_concat(a: Seq<u8>, c: Seq<u8>, serial: u32)
    requires
        pages_run(a),
        all_pages_of_stream(a, serial),
        all_pages_of_stream(c, serial),
    ensures
        all_pages_of_stream(a + c, serial),
    decreases a.len(),
{
    if a.len() == 0 {
        assert(a + c =~= c);
    } else {
        lemma_page_then(a, c);
        if c.len() == 0 {
            assert(a + c =~= a);
        } else if page_len(a) < a.len() {
            lemma_pages_of_stream_concat(a.skip(page_len(a)), c, serial);
        }
    }
}

/// No page of two runs, one after the other, carries the end-of-stream flag
/// when no page of either does.
pub proof fn lemma_no_end_of_stream_concat(a: Seq<u8>, c: Seq<u8>)
    requires
        pages_run(a),
        no_page_ends_stream(a),
        no_page_ends_stream(c),
    ensures
        no_page_ends_stream(a + c),
    decreases a.len(),
{
    if a.len() == 0 {
        assert(a + c =~= c);
    } else {
        lemma_page_then(a, c);
        if c.len() == 0 {
            assert(a + c =~= a);
        } else if page_len(a) < a.len() {
            lemma_no_end_of_stream_concat(a.skip(page_len(a)), c);
        }
    }
}

/// A run of pages without the end-of-stream flag, followed by a run whose
/// last page alone carries it, is a run whose last page alone carries it.
pub proof fn lemma_last_end_of_stream_concat(a: Seq<u8>, c: Seq<u8>)
    requires
        pages_run(a),
        no_page_ends_stream(a),
        last_page_ends_stream(c),
    ensures
        last_page_ends_stream(a + c),
    decreases a.len(),
{
    if a.len() == 0 {
        assert(a + c =~= c);
    } else {
        lemma_page_then(a, c);
        if page_len(a) < a.len() {
            lemma_last_end_of_stream_concat(a.skip(page_len(a)), c);
        }
    }
}

fn push_le64(out: &mut Vec<u8>, v: u64)
    ensures
        final(out)@ == old(out)@ + le64(v),
{
    out.push((v % 0x100) as u8);
    out.push(((v / 0x100) % 0x100) as u8);
    out.push(((v / 0x10000) % 0x100) as u8);
    out.push(((v / 0x1000000) % 0x100) as u8);
    out.push(((v / 0x100000000) % 0x100) as u8);
    out.push(((v / 0x10000000000) % 0x100) as u8);
    out.push(((v / 0x1000000000000) % 0x100) as u8);
    out.push(((v / 0x100000000000000) % 0x100) as u8);
    assert(final(out)@ =~= old(out)@ + le64(v));
}

/// Whether `b` holds `expected` at `at`.
fn bytes_at(b: &Vec<u8>, at: usize, expected: &Vec<u8>) -> (r: bool)
    requires
        at + expected@.len() <= b@.len(),
    ensures
        r == (b@.subrange(at as int, at + expected@.len()) == expected@),
{
    let len = b.len();
    let mut i: usize = 0;
    while i < expected.len()
        invariant
            len == b@.len(),
            i <= expected@.len(),
            at + expected@.len() <= b@.len(),
            forall|k: int| 0 <= k < i ==> b@[at + k] == expected@[k],
        decreases expected@.len() - i,
    {
        if b[at + i] != expected[i] {
            assert(b@.subrange(at as int, at + expected@.len())[i as int] != expected@[i as int]);
            return false;
        }
        i = i + 1;
    }
    assert(b@.subrange(at as int, at + expected@.len()) =~= expected@);
    true
}


/// The sum of the lacing values of the page that starts at `p`.
fn lacing_total(b: &Vec<u8>, p: usize) -> (r: usize)
    requires
        p + 27 <= b@.len(),
        p + 27 + b@[p + 26] <= b@.len(),
    ensures
        r == lacing_sum(page_lacing(b@.skip(p as int))),
{
    let len = b.len();
    let n = b[p + 26] as usize;
    let ghost lac = page_lacing(b@.skip(p as int));
    assert(b@.skip(p as int)[26] == n);
    assert(lac.len() == n);
    let mut body: usize = 0;
    let mut i: usize = 0;
    while i < n
        invariant
            i <= n,
            n <= 255,
            n == lac.len(),
            p + 27 + n <= b@.len(),
            len == b@.len(),
            lac == b@.subrange(p + 27, p + 27 + n),
            body == lacing_sum(lac.take(i as int)),
            body <= 255 * i,
        decreases n - i,
    {
        assert(lac.take(i + 1).drop_last() =~= lac.take(i as int));
        assert(lac[i as int] == b@[p + 27 + i]);
        body = body + b[p + 27 + i] as usize;
        i = i + 1;
    }
    assert(lac.take(n as int) =~= lac);
    assert(lac =~= page_lacing(b@.skip(p as int)));
    body
}

/// The length of the page that starts at `p`, when a whole page holding at
/// least one lacing value starts there.
fn framed_len(b: &Vec<u8>, p: usize) -> (r: Option<usize>)
    requires
        p <= b@.len(),
    ensures
        r is Some <==> page_framed(b@.skip(p as int)),
        r is Some ==> r->0 == page_len(b@.skip(p as int)) && p + r->0 <= b@.len(),
{
    let ghost rest = b@.skip(p as int);
    let remaining = b.len() - p;
    if remaining < PAGE_HEADER_LEN {
        return None;
    }
    let n = b[p + 26] as usize;
    assert(rest[26] == n);
    if n == 0 || remaining < PAGE_HEADER_LEN + n {
        return None;
    }
    let body = lacing_total(b, p);
    if remaining - PAGE_HEADER_LEN - n < body {
        return None;
    }
    Some(PAGE_HEADER_LEN + n + body)
}

/// Whether the whole page that starts at `p` fits a packet handed with
/// `serial`, `end` and `absgp`.
fn page_fits_at(
    b: &Vec<u8>,
    p: usize,
    first: bool,
    last: bool,
    serial: u32,
    end: PacketEnd,
    absgp: u64,
    prev: u64,
) -> (r: bool)
    requires
        p <= b@.len(),
        page_framed(b@.skip(p as int)),
    ensures
        r == page_fits(b@.skip(p as int), first, last, serial, end, absgp, prev),
{
    let ghost rest = b@.skip(p as int);
    let mut magic: Vec<u8> = Vec::new();
    magic.push(0x4f);
    magic.push(0x67);
    magic.push(0x67);
    magic.push(0x53);
    magic.push(0);
    assert(magic@ =~= page_magic());
    let mut serial_bytes: Vec<u8> = Vec::new();
    push_le32(&mut serial_bytes, serial);
    assert(serial_bytes@ =~= le32(serial));
    let len = b.len();
    assert(len == b@.len());
    let n = b[p + 26] as usize;
    assert(rest[26] == n);
    let ok_magic = bytes_at(b, p, &magic);
    let ok_serial = bytes_at(b, p + 14, &serial_bytes);
    let eos = (b[p + 5] & 4u8) != 0;
    let ok_eos = eos == (last && end == PacketEnd::EndStream);
    let ends_packet = b[p + 27 + n - 1] < 255;
    let granule = if ends_packet {
        absgp
    } else if first && !bytes_at_le64(b, p + 6, u64::MAX) {
        prev
    } else {
        u64::MAX
    };
    let ok_granule = bytes_at_le64(b, p + 6, granule);
    proof {
        assert(rest.take(5) =~= b@.subrange(p as int, p + 5));
        assert(rest.subrange(14, 18) =~= b@.subrange(p + 14, p + 18));
        assert(rest.subrange(6, 14) =~= b@.subrange(p + 6, p + 14));
        assert(rest[5] == b@[p + 5]);
        assert(page_lacing(rest).last() == b@[p + 27 + n - 1]);
    }
    ok_magic && ok_serial && ok_eos && ok_granule
}

/// Whether `b` holds the little-endian encoding of `v` at `at`.
fn bytes_at_le64(b: &Vec<u8>, at: usize, v: u64) -> (r: bool)
    requires
        at + 8 <= b@.len(),
    ensures
        r == (b@.subrange(at as int, at + 8) == le64(v)),
{
    let mut expected: Vec<u8> = Vec::new();
    push_le64(&mut expected, v);
    assert(expected@ =~= le64(v));
    bytes_at(b, at, &expected)
}

/// One step of `pages_fit`: the page in front, then the pages after it.
proof fn lemma_pages_fit_unfold(
    rest: Seq<u8>,
    first: bool,
    serial: u32,
    end: PacketEnd,
    absgp: u64,
    prev: u64,
)
    requires
        rest.len() > 0,
        page_framed(rest),
    ensures
        pages_fit(rest, first, serial, end, absgp, prev) == (page_fits(
            rest,
            first,
            page_len(rest) == rest.len(),
            serial,
            end,
            absgp,
            prev,
        ) && (page_len(rest) == rest.len() || pages_fit(
            rest.skip(page_len(rest)),
            false,
            serial,
            end,
            absgp,
            prev,
        ))),
{
    reveal(pages_fit);
}

/// Whether the bytes of `b` from `start` on are pages fitting a packet
/// handed with `serial`, `end` and `absgp`, `prev` being the granule position
/// of the packet handed before it.
pub fn check_pages(b: &Vec<u8>, start: usize, serial: u32, end: PacketEnd, absgp: u64, prev: u64) -> (r: bool)
    requires
        start <= b@.len(),
    ensures
        r == pages_fit(b@.skip(start as int), true, serial, end, absgp, prev),
{
    let ghost whole = b@.skip(start as int);
    let mut p: usize = start;
    let mut first = true;
    loop
        invariant
            start <= p <= b@.len(),
            whole == b@.skip(start as int),
            first ==> p == start,
            !first ==> p < b@.len(),
            pages_fit(whole, true, serial, end, absgp, prev) == pages_fit(
                b@.skip(p as int),
                first,
                serial,
                end,
                absgp,
                prev,
            ),
        decreases b@.len() - p,
    {
        let ghost rest = b@.skip(p as int);
        if p == b.len() {
            proof {
                reveal(pages_fit);
            }
            return first && end == PacketEnd::Normal;
        }
        let total = match framed_len(b, p) {
            Some(t) => t,
            None => {
                proof {
                    reveal(pages_fit);
                }
                return false;
            },
        };
        let last = p + total == b.len();
        proof {
            lemma_pages_fit_unfold(rest, first, serial, end, absgp, prev);
        }
        if !page_fits_at(b, p, first, last, serial, end, absgp, prev) {
            return false;
        }
        if last {
            return true;
        }
        proof {
            assert(rest.skip(total as int) =~= b@.skip(p + total));
        }
        p = p + total;
        first = false;
    }
}

} // verus!
