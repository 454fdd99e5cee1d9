//! The mathematical model of entry reassembly: a fold over the 18-byte
//! windows of the buffer, carrying the previous pack and the bytes of the
//! string under assembly, and emitting completed entries.

use vstd::prelude::*;
use vstd::utf8::decode_utf8;
use vstd::utf8::valid_utf8;

use crate::bytes::count_nuls;
use crate::bytes::first_nul;
use crate::bytes::strip_nul_tail;
use crate::bytes::take_until_nul;
use crate::bytes::trim_nul_tail;
use crate::entry::CDTextEntry;
use crate::entry::CDTextEntryDataType;
use crate::entry::CDTextError;
use crate::entry::RawEntry;
use crate::pack::is_text_category;
use crate::pack::spec_next_track;
use crate::pack::spec_parse_pack;
use crate::pack::PackModel;

verus! {

/// State the walk carries from one pack to the next: the pack most recently
/// consumed, the bytes of the string under assembly, and the entries
/// completed so far.
#[verifier::ext_equal]
pub struct WalkState {
    pub prev: PackModel,
    pub buf: Seq<u8>,
    pub out: Seq<RawEntry>,
}

/// Where the current pack's character position splits the previous pack's
/// payload: the first `split_index` bytes close the string at this boundary,
/// the rest belongs to the next one.
pub open spec fn split_index(cp: u8) -> int {
    if cp >= 12 {
        0
    } else {
        12 - cp
    }
}

/// The slice of the previous payload that ends at this boundary.
pub open spec fn step_segment(st: WalkState, cur: PackModel) -> Seq<u8> {
    st.prev.payload.subrange(0, split_index(cur.character_position))
}

/// One step of the walk, for a current pack of a text category.
///
/// The segment of the previous payload before the split index may close the
/// running string (it ends in NUL), and may also hold exactly two NUL bytes,
/// in which case it closes one string and begins an unrelated one for the
/// next track: the first string is flushed up to the first NUL, the track
/// reference advances, and the segment is re-sliced past that NUL.  What the
/// (possibly reduced) segment contributes is appended to the accumulation
/// buffer — trimmed of its trailing NUL run when the segment is terminal,
/// except that a segment of NULs alone is kept whole — and a terminal
/// segment then flushes the buffer, stripped of trailing NULs, as an entry.
/// The bytes after the split index always carry forward.
pub open spec fn walk_step(st: WalkState, cur: PackModel, i: int) -> WalkState {
    let index = split_index(cur.character_position);
    let before0 = st.prev.payload.subrange(0, index);
    let after = st.prev.payload.subrange(index, st.prev.payload.len() as int);
    let terminal = before0.len() > 0 && before0.last() == 0;
    let split = count_nuls(before0) == 2;
    let track = if split {
        spec_next_track(st.prev.track_number)
    } else {
        st.prev.track_number
    };
    let out1 = if split {
        st.out.push(
            RawEntry {
                track: st.prev.track_number,
                category: st.prev.pack_type,
                text: st.buf + before0.subrange(0, first_nul(before0)),
                at: i,
            },
        )
    } else {
        st.out
    };
    let buf1: Seq<u8> = if split {
        Seq::empty()
    } else {
        st.buf
    };
    let before = if split {
        before0.subrange(first_nul(before0) + 1, before0.len() as int)
    } else {
        before0
    };
    let buf2 = buf1 + if terminal {
        trim_nul_tail(before)
    } else {
        before
    };
    if terminal {
        WalkState {
            prev: cur,
            buf: after,
            out: out1.push(
                RawEntry {
                    track,
                    category: st.prev.pack_type,
                    text: strip_nul_tail(buf2),
                    at: i,
                },
            ),
        }
    } else {
        WalkState { prev: cur, buf: buf2 + after, out: out1 }
    }
}

/// The final flush, after the walk ends at the pack at index `last`, occurs
/// exactly once: what remains in the buffer, plus the last pack's payload —
/// up to its first NUL for a text category, whole for any other, whose raw
/// bytes are exposed untouched — becomes one final entry.  The entry is
/// dropped only when it is empty and earlier entries exist: an empty
/// terminal continuation closes the stream, but a walk that has produced
/// nothing yet still flushes.
pub open spec fn walk_finish(st: WalkState, last: int) -> Seq<RawEntry> {
    let text = st.buf + if is_text_category(st.prev.pack_type) {
        take_until_nul(st.prev.payload)
    } else {
        st.prev.payload
    };
    if text.len() == 0 && st.out.len() > 0 {
        st.out
    } else {
        st.out.push(
            RawEntry { track: st.prev.track_number, category: st.prev.pack_type, text, at: last },
        )
    }
}

/// How many whole packs the buffer holds; a trailing fragment shorter than
/// 18 bytes belongs to no pack.
pub open spec fn num_packs(data: Seq<u8>) -> int {
    data.len() as int / 18
}

/// The 18-byte window of the pack at index `i`.
pub open spec fn pack_window(data: Seq<u8>, i: int) -> Seq<u8> {
    data.subrange(18 * i, 18 * i + 18)
}

/// The walk over the packs from index `i` on.  A pack that does not decode
/// aborts the walk; a pack of a non-text category ends it, as exhaustion
/// does, with the final flush.
pub open spec fn walk(data: Seq<u8>, i: int, st: WalkState) -> Result<Seq<RawEntry>, CDTextError>
    decreases num_packs(data) - i,
{
    if i < 1 || i >= num_packs(data) {
        Ok(walk_finish(st, i - 1))
    } else {
        match spec_parse_pack(pack_window(data, i)) {
            None => Err(CDTextError::UnknownCategory { pack_index: i as usize }),
            Some(cur) => if !is_text_category(cur.pack_type) {
                Ok(walk_finish(st, i - 1))
            } else {
                walk(data, i + 1, walk_step(st, cur, i))
            },
        }
    }
}

/// Byte-level reassembly of the whole buffer: the first pack seeds the walk,
/// whatever its category.
pub open spec fn spec_reassemble(data: Seq<u8>) -> Result<Seq<RawEntry>, CDTextError> {
    if num_packs(data) == 0 {
        Err(CDTextError::BufferUnderrun)
    } else {
        match spec_parse_pack(pack_window(data, 0)) {
            None => Err(CDTextError::UnknownCategory { pack_index: 0 }),
            Some(first) => walk(
                data,
                1,
                WalkState { prev: first, buf: Seq::empty(), out: Seq::empty() },
            ),
        }
    }
}

/// Index of the first entry at or after `j` of a text category whose bytes
/// are not valid UTF-8.  An entry of any other category carries raw bytes
/// and is never at fault.
pub open spec fn first_invalid_text(raws: Seq<RawEntry>, j: int) -> Option<int>
    decreases raws.len() - j,
{
    if j < 0 || j >= raws.len() {
        None
    } else if is_text_category(raws[j].category) && !valid_utf8(raws[j].text) {
        Some(j)
    } else {
        first_invalid_text(raws, j + 1)
    }
}

/// The full model of parsing: reassemble the buffer, then decode the bytes
/// of each text-category entry.  Structural failures (a short buffer, an
/// unknown tag) are reported first; then the first text entry, in order,
/// whose bytes are not valid UTF-8.  Entries of other categories keep their
/// bytes raw and cannot fail.
pub open spec fn spec_parse(data: Seq<u8>) -> Result<Seq<RawEntry>, CDTextError> {
    match spec_reassemble(data) {
        Err(e) => Err(e),
        Ok(raws) => match first_invalid_text(raws, 0) {
            Some(j) => Err(CDTextError::InvalidText { pack_index: raws[j].at as usize }),
            None => Ok(raws),
        },
    }
}

/// An executable entry realises a model entry when the track and category
/// agree and its data carries the model's bytes: decoded, for a text
/// category; raw, for any other.
pub open spec fn entry_matches(e: CDTextEntry, raw: RawEntry) -> bool {
    &&& e.track_number == raw.track
    &&& e.entry_type == raw.category
    &&& if is_text_category(raw.category) {
        e.data matches CDTextEntryDataType::String(s) && s@ == decode_utf8(raw.text)
    } else {
        e.data matches CDTextEntryDataType::Data(d) && d@ == raw.text
    }
}

/// Pointwise `entry_matches` over whole sequences.
pub open spec fn entries_match(es: Seq<CDTextEntry>, raws: Seq<RawEntry>) -> bool {
    &&& es.len() == raws.len()
    &&& forall|i: int| 0 <= i < es.len() ==> entry_matches(#[trigger] es[i], raws[i])
}

} // verus!
