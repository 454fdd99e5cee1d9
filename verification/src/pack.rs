//! The 18-byte CD-Text pack: its categories, track reference and
//! field-by-field decoding.

use vstd::prelude::*;

verus! {

/// Semantic classification of a pack's payload.
#[derive(Debug, PartialEq, Eq, Structural, Clone, Copy)]
pub enum CDTextPackType {
    Title,
    Performers,
    Songwriters,
    Composers,
    Arrangers,
    Message,
    DiscID,
    Genre,
    TOC,
    AdditionalTOC,
    ClosedInfo,
    Code,
    BlockSizeInfo,
}

/// What an entry refers to: the whole album, or one track in it.
#[derive(Debug, PartialEq, Eq, Structural, Clone, Copy)]
pub enum CDTextTrackNumber {
    WholeAlbum,
    Track(u8),
}

/// The category assigned to a tag byte; `None` for a tag no category owns.
pub open spec fn spec_category_of_tag(tag: u8) -> Option<CDTextPackType> {
    if tag == 0x80 {
        Some(CDTextPackType::Title)
    } else if tag == 0x81 {
        Some(CDTextPackType::Performers)
    } else if tag == 0x82 {
        Some(CDTextPackType::Songwriters)
    } else if tag == 0x83 {
        Some(CDTextPackType::Composers)
    } else if tag == 0x84 {
        Some(CDTextPackType::Arrangers)
    } else if tag == 0x85 {
        Some(CDTextPackType::Message)
    } else if tag == 0x86 {
        Some(CDTextPackType::DiscID)
    } else if tag == 0x87 {
        Some(CDTextPackType::Genre)
    } else if tag == 0x88 {
        Some(CDTextPackType::TOC)
    } else if tag == 0x89 {
        Some(CDTextPackType::AdditionalTOC)
    } else if tag == 0x8d {
        Some(CDTextPackType::ClosedInfo)
    } else if tag == 0x8e {
        Some(CDTextPackType::Code)
    } else if tag == 0x8f {
        Some(CDTextPackType::BlockSizeInfo)
    } else {
        None
    }
}

/// Decodes the tag byte of a pack into its category.
pub fn category_of_tag(tag: u8) -> (r: Option<CDTextPackType>)
    ensures
        r == spec_category_of_tag(tag),
{
    match tag {
        0x80 => Some(CDTextPackType::Title),
        0x81 => Some(CDTextPackType::Performers),
        0x82 => Some(CDTextPackType::Songwriters),
        0x83 => Some(CDTextPackType::Composers),
        0x84 => Some(CDTextPackType::Arrangers),
        0x85 => Some(CDTextPackType::Message),
        0x86 => Some(CDTextPackType::DiscID),
        0x87 => Some(CDTextPackType::Genre),
        0x88 => Some(CDTextPackType::TOC),
        0x89 => Some(CDTextPackType::AdditionalTOC),
        0x8d => Some(CDTextPackType::ClosedInfo),
        0x8e => Some(CDTextPackType::Code),
        0x8f => Some(CDTextPackType::BlockSizeInfo),
        _ => None,
    }
}

/// The categories whose payloads carry NUL-delimited text that the
/// reassembly walk consumes.
pub open spec fn is_text_category(c: CDTextPackType) -> bool {
    match c {
        CDTextPackType::Title => true,
        CDTextPackType::Performers => true,
        CDTextPackType::Songwriters => true,
        CDTextPackType::Composers => true,
        CDTextPackType::Arrangers => true,
        _ => false,
    }
}

/// Tells whether a category's payload carries reassembled text.
pub fn is_text_pack_type(c: CDTextPackType) -> (r: bool)
    ensures
        r == is_text_category(c),
{
    match c {
        CDTextPackType::Title => true,
        CDTextPackType::Performers => true,
        CDTextPackType::Songwriters => true,
        CDTextPackType::Composers => true,
        CDTextPackType::Arrangers => true,
        _ => false,
    }
}

/// The track reference that follows `t` when a double-NUL segment starts a
/// new string: the whole album is followed by track 1, track n by track
/// n + 1 (held at 255, the largest raw track byte).
pub open spec fn spec_next_track(t: CDTextTrackNumber) -> CDTextTrackNumber {
    match t {
        CDTextTrackNumber::WholeAlbum => CDTextTrackNumber::Track(1),
        CDTextTrackNumber::Track(n) => CDTextTrackNumber::Track(
            if n == 255 {
                255
            } else {
                (n + 1) as u8
            },
        ),
    }
}

/// Advances a track reference to its successor.
pub fn next_track(t: CDTextTrackNumber) -> (r: CDTextTrackNumber)
    ensures
        r == spec_next_track(t),
{
    match t {
        CDTextTrackNumber::WholeAlbum => CDTextTrackNumber::Track(1),
        CDTextTrackNumber::Track(n) => CDTextTrackNumber::Track(
            if n == 255 {
                255
            } else {
                n + 1
            },
        ),
    }
}

/// One decoded pack.
#[derive(Debug, Clone)]
pub struct CDTextPack {
    pub pack_type: CDTextPackType,
    pub track_number: CDTextTrackNumber,
    pub seq_counter: u8,
    pub character_position: u8,
    pub block_number: u8,
    pub is_double_byte_characters: bool,
    pub payload: [u8; 12],
    pub crc: u16,
}

/// Mathematical image of a pack: the same fields, with the payload as a
/// byte sequence.
#[verifier::ext_equal]
pub struct PackModel {
    pub pack_type: CDTextPackType,
    pub track_number: CDTextTrackNumber,
    pub seq_counter: u8,
    pub character_position: u8,
    pub block_number: u8,
    pub is_double_byte_characters: bool,
    pub payload: Seq<u8>,
    pub crc: u16,
}

impl View for CDTextPack {
    type V = PackModel;

    open spec fn view(&self) -> PackModel {
        PackModel {
            pack_type: self.pack_type,
            track_number: self.track_number,
            seq_counter: self.seq_counter,
            character_position: self.character_position,
            block_number: self.block_number,
            is_double_byte_characters: self.is_double_byte_characters,
            payload: self.payload@,
            crc: self.crc,
        }
    }
}

/// Field-by-field decoding of one 18-byte window: tag, track byte (0 is the
/// whole album), sequence counter, the packed position/block/double-byte
/// byte, the 12 payload bytes, and the big-endian checksum.
pub open spec fn spec_parse_pack(w: Seq<u8>) -> Option<PackModel>
    recommends
        w.len() == 18,
{
    match spec_category_of_tag(w[0]) {
        None => None,
        Some(pt) => Some(
            PackModel {
                pack_type: pt,
                track_number: if w[1] == 0 {
                    CDTextTrackNumber::WholeAlbum
                } else {
                    CDTextTrackNumber::Track(w[1])
                },
                seq_counter: w[2],
                character_position: w[3] & 0x0f,
                block_number: (w[3] >> 4) & 0x07,
                is_double_byte_characters: ((w[3] >> 7) & 1) != 0,
                payload: w.subrange(4, 16),
                crc: ((w[16] as u16) << 8) | (w[17] as u16),
            },
        ),
    }
}

/// View of an optional pack, aligned with `spec_parse_pack`'s result.
pub open spec fn opt_pack_view(r: Option<CDTextPack>) -> Option<PackModel> {
    match r {
        None => None,
        Some(p) => Some(p@),
    }
}

} // verus!
