//! Recording of Discord voice channels into per-speaker Ogg Opus files.
//!
//! The library holds the logic: the Ogg Opus header packets, the per-speaker
//! track that frames encoded 20 ms Opus frames into an Ogg stream, the
//! recording session that keeps every speaker's track aligned to the voice
//! clock, and the decision of when a recording runs.

pub mod opus_header;
pub mod ogg_sink;
pub mod ogg_page;
pub mod track;
pub mod session;
pub mod bot;
