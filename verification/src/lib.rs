//! Decoder for CD-Text sub-channel data.
//!
//! A raw buffer is sliced into fixed 18-byte packs; packs of the text-bearing
//! categories are walked in order, and the NUL-delimited strings that may span
//! pack boundaries are reassembled into logical entries, each attributed to
//! the track it belongs to.

pub mod bytes;
pub mod entry;
pub mod laws;
pub mod pack;
pub mod parser;
pub mod reassemble;
pub mod text;

pub use entry::CDTextEntry;
pub use entry::CDTextEntryDataType;
pub use entry::CDTextError;
pub use pack::CDTextPack;
pub use pack::CDTextPackType;
pub use pack::CDTextTrackNumber;
pub use parser::CDText;
