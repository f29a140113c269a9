//! The two header packets that open every Ogg Opus stream (RFC 7845, section 5).
use vstd::prelude::*;

verus! {

/// Sample rate of the input that the encoder receives, in Hz.
pub const INPUT_SAMPLE_RATE: u32 = 48000;

/// Number of interleaved channels in every frame.
pub const CHANNEL_COUNT: u8 = 2;

/// Version number written in the identification header.
pub const OPUS_HEAD_VERSION: u8 = 1;

/// Length of the identification header packet in bytes.
pub const OPUS_HEAD_LEN: usize = 19;

/// The vendor string written in the comment header.
pub const VENDOR: [u8; 9] = [0x61, 0x6f, 0x69, 0x72, 0x65, 0x63, 0x6f, 0x72, 0x64];

/// The 8-byte magic signature `OpusHead`.
pub open spec fn head_magic() -> Seq<u8> {
    seq![0x4fu8, 0x70u8, 0x75u8, 0x73u8, 0x48u8, 0x65u8, 0x61u8, 0x64u8]
}

/// The 8-byte magic signature `OpusTags`.
pub open spec fn tags_magic() -> Seq<u8> {
    seq![0x4fu8, 0x70u8, 0x75u8, 0x73u8, 0x54u8, 0x61u8, 0x67u8, 0x73u8]
}

/// Little-endian encoding of a 16-bit value.
pub open spec fn le16(v: u16) -> Seq<u8> {
    seq![(v % 256) as u8, (v / 256) as u8]
}

/// Little-endian encoding of a 32-bit value.
pub open spec fn le32(v: u32) -> Seq<u8> {
    seq![
        (v % 256) as u8,
        ((v / 256) % 256) as u8,
        ((v / 65536) % 256) as u8,
        (v / 16777216) as u8,
    ]
}

/// The identification header: magic, version 1, two channels, the pre-skip,
/// the input sample rate, an output gain of zero and channel mapping family 0.
pub open spec fn spec_opus_head(pre_skip: u16) -> Seq<u8> {
    head_magic() + seq![OPUS_HEAD_VERSION, CHANNEL_COUNT] + le16(pre_skip) + le32(
        INPUT_SAMPLE_RATE,
    ) + seq![0u8, 0u8] + seq![0u8]
}

/// The comment header: magic, the vendor string with its length, and an empty
/// list of user comments.
pub open spec fn spec_opus_tags(vendor: Seq<u8>) -> Seq<u8> {
    tags_magic() + le32(vendor.len() as u32) + vendor + le32(0)
}

fn push_le16(out: &mut Vec<u8>, v: u16)
    ensures
        final(out)@ == old(out)@ + le16(v),
{
    out.push((v % 256) as u8);
    out.push((v / 256) as u8);
}

pub(crate) fn push_le32(out: &mut Vec<u8>, v: u32)
    ensures
        final(out)@ == old(out)@ + le32(v),
{
    out.push((v % 256) as u8);
    out.push(((v / 256) % 256) as u8);
    out.push(((v / 65536) % 256) as u8);
    out.push((v / 16777216) as u8);
}

fn push_all(out: &mut Vec<u8>, bytes: &[u8])
    ensures
        final(out)@ == old(out)@ + bytes@,
{
    let ghost start = out@;
    let mut i: usize = 0;
    while i < bytes.len()
        invariant
            i <= bytes@.len(),
            out@ == start + bytes@.take(i as int),
        decreases bytes@.len() - i,
    {
        out.push(bytes[i]);
        i = i + 1;
        assert(bytes@.take(i as int) == bytes@.take(i - 1) + seq![bytes@[i - 1]]);
    }
    assert(bytes@.take(i as int) == bytes@);
}

/// Builds the identification header packet (`OpusHead`), 19 bytes long.
pub fn opus_head(pre_skip: u16) -> (head: Vec<u8>)
    ensures
        head@ == spec_opus_head(pre_skip),
        head@.len() == OPUS_HEAD_LEN,
{
    let mut head: Vec<u8> = Vec::with_capacity(OPUS_HEAD_LEN);
    let magic: [u8; 8] = [0x4f, 0x70, 0x75, 0x73, 0x48, 0x65, 0x61, 0x64];
    push_all(&mut head, &magic);
    assert(magic@ == head_magic());
    head.push(OPUS_HEAD_VERSION);
    head.push(CHANNEL_COUNT);
    push_le16(&mut head, pre_skip);
    push_le32(&mut head, INPUT_SAMPLE_RATE);
    head.push(0);
    head.push(0);
    head.push(0);
    head
}

/// Builds the comment header packet (`OpusTags`) with the given vendor string
/// and no user comments.
pub fn opus_tags(vendor: &[u8]) -> (tags: Vec<u8>)
    requires
        vendor@.len() <= u32::MAX,
    ensures
        tags@ == spec_opus_tags(vendor@),
        tags@.len() == 16 + vendor@.len(),
{
    let mut tags: Vec<u8> = Vec::new();
    let magic: [u8; 8] = [0x4f, 0x70, 0x75, 0x73, 0x54, 0x61, 0x67, 0x73];
    push_all(&mut tags, &magic);
    assert(magic@ == tags_magic());
    push_le32(&mut tags, vendor.len() as u32);
    push_all(&mut tags, vendor);
    push_le32(&mut tags, 0);
    tags
}

} // verus!
