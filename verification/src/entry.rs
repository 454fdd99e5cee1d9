//! The reassembled entries, the typed decode failures, and the internal
//! byte-level form an entry takes before its text is decoded.

use vstd::prelude::*;

use crate::pack::CDTextPackType;
use crate::pack::CDTextTrackNumber;

verus! {

/// An entry's payload: decoded text, or raw bytes for categories whose
/// payload is not text.
#[derive(Debug, Clone, PartialEq)]
pub enum CDTextEntryDataType {
    String(String),
    Data(Vec<u8>),
}

/// One reassembled entry: the track it refers to, its category, and its
/// payload.
#[derive(Debug, Clone, PartialEq)]
pub struct CDTextEntry {
    pub track_number: CDTextTrackNumber,
    pub entry_type: CDTextPackType,
    pub data: CDTextEntryDataType,
}

/// Why a buffer could not be parsed.
#[derive(Debug, Clone, Copy, PartialEq, Eq, Structural)]
pub enum CDTextError {
    /// Fewer bytes remain than one pack, or than the 4-byte header, needs.
    BufferUnderrun,
    /// The tag byte of the pack at `pack_index` matches no known category.
    UnknownCategory { pack_index: usize },
    /// The bytes accumulated for the entry completed at the pack at
    /// `pack_index` are not valid UTF-8.
    InvalidText { pack_index: usize },
}

/// A completed entry before text decoding: the raw accumulated bytes, and
/// the index of the pack whose processing completed it.
#[verifier::ext_equal]
pub struct RawEntry {
    pub track: CDTextTrackNumber,
    pub category: CDTextPackType,
    pub text: Seq<u8>,
    pub at: int,
}

/// Executable counterpart of `RawEntry`, carried between the reassembly
/// walk and text decoding.
pub struct RawPiece {
    pub track: CDTextTrackNumber,
    pub category: CDTextPackType,
    pub text: Vec<u8>,
    pub at: usize,
}

impl View for RawPiece {
    type V = RawEntry;

    open spec fn view(&self) -> RawEntry {
        RawEntry {
            track: self.track,
            category: self.category,
            text: self.text@,
            at: self.at as int,
        }
    }
}

/// The views of a sequence of raw pieces.
pub open spec fn pieces_view(v: Seq<RawPiece>) -> Seq<RawEntry> {
    Seq::new(v.len(), |i: int| v[i]@)
}

/// Pushing a piece pushes its view.
pub proof fn lemma_pieces_view_push(v: Seq<RawPiece>, x: RawPiece)
    ensures
        pieces_view(v.push(x)) == pieces_view(v).push(x@),
{
    assert(pieces_view(v.push(x)) =~= pieces_view(v).push(x@));
}

} // verus!
