//! The parser: slices the buffer into 18-byte pack windows, decodes them,
//! and runs the reassembly walk.

use vstd::prelude::*;
use vstd::slice::slice_subrange;

use crate::bytes::first_nul;
use crate::bytes::first_nul_pos;
use crate::bytes::lemma_count_nuls_zero;
use crate::bytes::lemma_first_nul_bounds;
use crate::bytes::nul_count;
use crate::bytes::nul_tail_start;
use crate::bytes::push_range;
use crate::bytes::strip_nul_tail;
use crate::bytes::take_until_nul;
use crate::bytes::trim_nul_tail;
use crate::entry::lemma_pieces_view_push;
use crate::entry::pieces_view;
use crate::entry::CDTextEntry;
use crate::entry::CDTextEntryDataType;
use crate::entry::CDTextError;
use crate::entry::RawEntry;
use crate::entry::RawPiece;
use crate::pack::category_of_tag;
use crate::pack::is_text_pack_type;
use crate::pack::next_track;
use crate::pack::opt_pack_view;
use crate::pack::spec_parse_pack;
use crate::pack::CDTextPack;
use crate::pack::CDTextTrackNumber;
use crate::pack::PackModel;
use crate::reassemble::entries_match;
use crate::reassemble::first_invalid_text;
use crate::reassemble::num_packs;
use crate::reassemble::pack_window;
use crate::reassemble::spec_parse;
use crate::reassemble::spec_reassemble;
use crate::reassemble::split_index;
use crate::reassemble::walk;
use crate::reassemble::walk_finish;
use crate::reassemble::walk_step;
use crate::reassemble::WalkState;
use crate::text::bytes_to_string;

verus! {

/// Main parser structure: a view over the caller's buffer.
pub struct CDText<'data> {
    _length: usize,
    data: &'data [u8],
}

impl<'data> View for CDText<'data> {
    type V = Seq<u8>;

    closed spec fn view(&self) -> Seq<u8> {
        self.data@
    }
}

/// Copies the 18-byte window of the pack at index `i` out of the buffer.
fn read_window(data: &[u8], i: usize) -> (w: Vec<u8>)
    requires
        18 * (i as int) + 18 <= data@.len(),
    ensures
        w@ == pack_window(data@, i as int),
        w@.len() == 18,
{
    let _len = data.len();
    let start = 18 * i;
    let mut w: Vec<u8> = Vec::new();
    push_range(&mut w, data, start, start + 18);
    proof {
        assert(w@ =~= pack_window(data@, i as int));
    }
    w
}

/// The walk state realised by the parser's executable locals.
spec fn held_state(prev: PackModel, buf: Seq<u8>, out: Seq<RawEntry>) -> WalkState {
    WalkState { prev, buf, out }
}

impl<'data> CDText<'data> {
    /// Creates a parser from data, assuming that the first 4 bytes are used
    /// for service info: a 2-byte big-endian length field (stored, unused
    /// beyond stripping) and two reserved bytes.  Fails when fewer than 4
    /// bytes are there.
    pub fn from_data_with_length(data: &'data [u8]) -> (r: Result<Self, CDTextError>)
        ensures
            data@.len() >= 4 ==> (r matches Ok(c) && c@ == data@.subrange(4, data@.len() as int)),
            data@.len() < 4 ==> r == Err::<Self, CDTextError>(CDTextError::BufferUnderrun),
    {
        if data.len() < 4 {
            return Err(CDTextError::BufferUnderrun);
        }
        let raw: usize = ((data[0] as usize) << 8) | (data[1] as usize);
        let length = if raw >= 2 {
            raw - 2
        } else {
            0
        };
        Ok(CDText { _length: length, data: slice_subrange(data, 4, data.len()) })
    }

    /// Creates a parser from data that holds packs only.
    pub fn from_data(data: &'data [u8]) -> (r: Self)
        ensures
            r@ == data@,
    {
        CDText { _length: data.len(), data }
    }

    /// Internal method: decodes one pack from an 18-byte window.
    fn parse_pack(&self, subdata: &[u8]) -> (r: Option<CDTextPack>)
        requires
            subdata@.len() == 18,
        ensures
            opt_pack_view(r) == spec_parse_pack(subdata@),
    {
        let pack_type = match category_of_tag(subdata[0]) {
            Some(t) => t,
            None => {
                return None;
            },
        };
        let track_number = if subdata[1] == 0 {
            CDTextTrackNumber::WholeAlbum
        } else {
            CDTextTrackNumber::Track(subdata[1])
        };
        let seq_counter = subdata[2];
        let character_position = subdata[3] & 0x0f;
        let block_number = (subdata[3] >> 4) & 0x07;
        let is_double_byte_characters = ((subdata[3] >> 7) & 1) != 0;
        let payload: [u8; 12] = [
            subdata[4],
            subdata[5],
            subdata[6],
            subdata[7],
            subdata[8],
            subdata[9],
            subdata[10],
            subdata[11],
            subdata[12],
            subdata[13],
            subdata[14],
            subdata[15],
        ];
        let crc: u16 = ((subdata[16] as u16) << 8) | (subdata[17] as u16);
        proof {
            assert(payload@ =~= subdata@.subrange(4, 16));
        }
        Some(
            CDTextPack {
                pack_type,
                track_number,
                seq_counter,
                character_position,
                block_number,
                is_double_byte_characters,
                payload,
                crc,
            },
        )
    }

    /// Decodes every whole 18-byte window in order; a trailing fragment
    /// shorter than a pack is dropped.  Rebuilding this sequence from the
    /// same parser always yields the same results.
    pub fn iter_pack_chunks(&self) -> (r: Vec<Option<CDTextPack>>)
        ensures
            r@.len() == num_packs(self@),
            forall|k: int|
                0 <= k < r@.len() ==> opt_pack_view(#[trigger] r@[k]) == spec_parse_pack(
                    pack_window(self@, k),
                ),
    {
        let data: &[u8] = self.data;
        let n = data.len() / 18;
        let mut r: Vec<Option<CDTextPack>> = Vec::new();
        let mut i: usize = 0;
        while i < n
            invariant
                i <= n,
                n as int == num_packs(data@),
                r@.len() == i,
                forall|k: int|
                    0 <= k < i ==> opt_pack_view(#[trigger] r@[k]) == spec_parse_pack(
                        pack_window(data@, k),
                    ),
            decreases n - i,
        {
            proof {
                assert(18 * (data@.len() as int / 18) <= data@.len() as int);
            }
            let w = read_window(data, i);
            let p = self.parse_pack(w.as_slice());
            r.push(p);
            i = i + 1;
        }
        r
    }

    /// Parses all the entries from the data.
    ///
    /// The walk aborts on the first pack whose tag byte is unknown, and a
    /// buffer without a single whole pack cannot seed it; once the walk is
    /// done, the first completed text-category entry, in order, whose bytes
    /// are not valid UTF-8 aborts the parse.  Each error names the pack it
    /// arose at.  An entry of any other category exposes its accumulated
    /// bytes raw, undecoded.
    pub fn parse(&self) -> (r: Result<Vec<CDTextEntry>, CDTextError>)
        ensures
            match spec_parse(self@) {
                Ok(raws) => r matches Ok(es) && entries_match(es@, raws),
                Err(e) => r == Err::<Vec<CDTextEntry>, CDTextError>(e),
            },
    {
        let data: &[u8] = self.data;
        let n = data.len() / 18;
        proof {
            assert(n as int == num_packs(self@));
        }
        if n == 0 {
            return Err(CDTextError::BufferUnderrun);
        }
        proof {
            assert(18 * (data@.len() as int / 18) <= data@.len() as int);
        }
        let w0 = read_window(data, 0);
        let first = match self.parse_pack(w0.as_slice()) {
            Some(p) => p,
            None => {
                return Err(CDTextError::UnknownCategory { pack_index: 0 });
            },
        };

        let mut prev: CDTextPack = first;
        let mut buffer: Vec<u8> = Vec::new();
        let mut pieces: Vec<RawPiece> = Vec::new();
        let mut i: usize = 1;
        let mut broke: bool = false;

        proof {
            assert(pieces_view(pieces@) =~= Seq::<RawEntry>::empty());
            assert(spec_reassemble(self@) == walk(
                self@,
                1,
                held_state(prev@, buffer@, pieces_view(pieces@)),
            ));
        }

        while i < n && !broke
            invariant
                1 <= i <= n,
                data@ == self@,
                n as int == num_packs(self@),
                spec_reassemble(self@) == walk(
                    self@,
                    i as int,
                    held_state(prev@, buffer@, pieces_view(pieces@)),
                ),
                broke ==> walk(self@, i as int, held_state(prev@, buffer@, pieces_view(pieces@)))
                    == Ok::<Seq<RawEntry>, CDTextError>(
                    walk_finish(held_state(prev@, buffer@, pieces_view(pieces@)), i as int - 1),
                ),
            decreases
                    n - i + (if broke {
                        0int
                    } else {
                        1int
                    }),
        {
            let ghost st0 = held_state(prev@, buffer@, pieces_view(pieces@));
            proof {
                assert(18 * (data@.len() as int / 18) <= data@.len() as int);
            }
            let w = read_window(data, i);
            let cur = match self.parse_pack(w.as_slice()) {
                Some(p) => p,
                None => {
                    proof {
                        assert(walk(self@, i as int, st0) == Err::<Seq<RawEntry>, CDTextError>(
                            CDTextError::UnknownCategory { pack_index: i },
                        ));
                    }
                    return Err(CDTextError::UnknownCategory { pack_index: i });
                },
            };
            if !is_text_pack_type(cur.pack_type) {
                proof {
                    assert(walk(self@, i as int, st0) == Ok::<Seq<RawEntry>, CDTextError>(
                        walk_finish(st0, i as int - 1),
                    ));
                }
                broke = true;
            } else {
                let ghost curv = cur@;
                let cp = cur.character_position;
                let index: usize = if cp >= 12 {
                    0
                } else {
                    (12 - cp) as usize
                };
                let prev_payload: &[u8] = prev.payload.as_slice();
                proof {
                    assert(prev_payload@.len() == 12);
                    assert(index as int == split_index(curv.character_position));
                }
                let ghost before0 = st0.prev.payload.subrange(
                    0,
                    split_index(curv.character_position),
                );
                let ghost after = st0.prev.payload.subrange(index as int, 12);

                let mut before: Vec<u8> = Vec::new();
                push_range(&mut before, prev_payload, 0, index);
                proof {
                    assert(before@ =~= before0);
                }
                let terminal = index > 0 && before[index - 1] == 0;
                proof {
                    assert(terminal == (before0.len() > 0 && before0.last() == 0));
                }
                let two = nul_count(before.as_slice()) == 2;
                let mut track: CDTextTrackNumber = prev.track_number;
                let ghost flushed_track = if two {
                    crate::pack::spec_next_track(st0.prev.track_number)
                } else {
                    st0.prev.track_number
                };
                let ghost out1 = if two {
                    st0.out.push(
                        RawEntry {
                            track: st0.prev.track_number,
                            category: st0.prev.pack_type,
                            text: st0.buf + before0.subrange(0, first_nul(before0)),
                            at: i as int,
                        },
                    )
                } else {
                    st0.out
                };
                let ghost buf1: Seq<u8> = if two {
                    Seq::empty()
                } else {
                    st0.buf
                };
                let ghost before1 = if two {
                    before0.subrange(first_nul(before0) + 1, before0.len() as int)
                } else {
                    before0
                };

                if two {
                    proof {
                        lemma_first_nul_bounds(before@);
                        lemma_count_nuls_zero(before@);
                        assert(first_nul(before@) < before@.len()) by {
                            if first_nul(before@) == before@.len() {
                                assert(forall|k: int|
                                    0 <= k < before@.len() ==> before@[k] != 0);
                            }
                        }
                    }
                    let p = first_nul_pos(before.as_slice());
                    push_range(&mut buffer, before.as_slice(), 0, p);
                    let ghost pieces0 = pieces@;
                    pieces.push(
                        RawPiece { track, category: prev.pack_type, text: buffer, at: i },
                    );
                    buffer = Vec::new();
                    proof {
                        lemma_pieces_view_push(pieces0, pieces@.last());
                        assert(pieces@.drop_last() =~= pieces0);
                        assert(pieces@ =~= pieces0.push(pieces@.last()));
                        assert(pieces@.last()@.text =~= st0.buf + before0.subrange(
                            0,
                            first_nul(before0),
                        ));
                        assert(pieces_view(pieces@) =~= out1);
                    }
                    track = next_track(track);
                    let mut reduced: Vec<u8> = Vec::new();
                    let bl = before.len();
                    push_range(&mut reduced, before.as_slice(), p + 1, bl);
                    before = reduced;
                    proof {
                        assert(before@ =~= before1);
                    }
                }
                proof {
                    assert(buffer@ =~= buf1);
                    assert(before@ == before1);
                    assert(track == flushed_track);
                }
                let ghost buf2 = buf1 + (if terminal {
                    trim_nul_tail(before1)
                } else {
                    before1
                });

                if terminal {
                    let k = nul_tail_start(before.as_slice());
                    let bl = before.len();
                    if k == 0 {
                        push_range(&mut buffer, before.as_slice(), 0, bl);
                        proof {
                            assert(trim_nul_tail(before1) == before1);
                        }
                    } else {
                        push_range(&mut buffer, before.as_slice(), 0, k);
                        proof {
                            assert(strip_nul_tail(before1).len() > 0);
                            assert(trim_nul_tail(before1) == before@.subrange(0, k as int));
                        }
                    }
                    proof {
                        assert(buffer@ =~= buf2);
                    }
                    let k2 = nul_tail_start(buffer.as_slice());
                    buffer.truncate(k2);
                    proof {
                        assert(buffer@ =~= strip_nul_tail(buf2));
                    }
                    let ghost pieces1 = pieces@;
                    pieces.push(
                        RawPiece { track, category: prev.pack_type, text: buffer, at: i },
                    );
                    buffer = Vec::new();
                    proof {
                        lemma_pieces_view_push(pieces1, pieces@.last());
                        assert(pieces@ =~= pieces1.push(pieces@.last()));
                        assert(pieces_view(pieces@) =~= out1.push(
                            RawEntry {
                                track: flushed_track,
                                category: st0.prev.pack_type,
                                text: strip_nul_tail(buf2),
                                at: i as int,
                            },
                        ));
                    }
                } else {
                    let bl = before.len();
                    push_range(&mut buffer, before.as_slice(), 0, bl);
                    proof {
                        assert(buffer@ =~= buf2);
                    }
                }
                push_range(&mut buffer, prev_payload, index, 12);
                prev = cur;
                proof {
                    let st1 = held_state(prev@, buffer@, pieces_view(pieces@));
                    if terminal {
                        assert(buffer@ =~= after);
                    } else {
                        assert(buffer@ =~= buf2 + after);
                    }
                    assert(st1 =~= walk_step(st0, curv, i as int));
                    assert(walk(self@, i as int, st0) == walk(self@, i as int + 1, st1));
                }
                i = i + 1;
            }
        }

        let ghost st_end = held_state(prev@, buffer@, pieces_view(pieces@));
        proof {
            if !broke {
                assert(i == n);
                assert(walk(self@, i as int, st_end) == Ok::<Seq<RawEntry>, CDTextError>(
                    walk_finish(st_end, i as int - 1),
                ));
            }
            assert(spec_reassemble(self@) == Ok::<Seq<RawEntry>, CDTextError>(
                walk_finish(st_end, i as int - 1),
            ));
        }

        let prev_payload: &[u8] = prev.payload.as_slice();
        if is_text_pack_type(prev.pack_type) {
            let p = first_nul_pos(prev_payload);
            push_range(&mut buffer, prev_payload, 0, p);
            proof {
                assert(buffer@ =~= st_end.buf + take_until_nul(st_end.prev.payload));
            }
        } else {
            push_range(&mut buffer, prev_payload, 0, 12);
            proof {
                assert(buffer@ =~= st_end.buf + st_end.prev.payload);
            }
        }
        if buffer.len() > 0 || pieces.len() == 0 {
            let ghost pieces2 = pieces@;
            pieces.push(
                RawPiece {
                    track: prev.track_number,
                    category: prev.pack_type,
                    text: buffer,
                    at: i - 1,
                },
            );
            proof {
                lemma_pieces_view_push(pieces2, pieces@.last());
                assert(pieces@ =~= pieces2.push(pieces@.last()));
                assert(pieces_view(pieces@) =~= walk_finish(st_end, i as int - 1));
            }
        } else {
            proof {
                assert(pieces_view(pieces@) =~= walk_finish(st_end, i as int - 1));
            }
        }

        let ghost raws = pieces_view(pieces@);
        proof {
            assert(spec_reassemble(self@) == Ok::<Seq<RawEntry>, CDTextError>(raws));
        }

        let mut entries: Vec<CDTextEntry> = Vec::new();
        let mut j: usize = 0;
        while j < pieces.len()
            invariant
                j <= pieces@.len(),
                raws == pieces_view(pieces@),
                spec_reassemble(self@) == Ok::<Seq<RawEntry>, CDTextError>(raws),
                first_invalid_text(raws, 0) == first_invalid_text(raws, j as int),
                entries@.len() == j,
                forall|k: int| 0 <= k < j ==> entry_matches_at(entries@, raws, k),
            decreases pieces@.len() - j,
        {
            let piece = &pieces[j];
            proof {
                assert(piece@ == raws[j as int]);
            }
            let ghost entries0 = entries@;
            if is_text_pack_type(piece.category) {
                match bytes_to_string(&piece.text) {
                    None => {
                        proof {
                            assert(first_invalid_text(raws, j as int) == Some(j as int));
                        }
                        return Err(CDTextError::InvalidText { pack_index: piece.at });
                    },
                    Some(s) => {
                        entries.push(
                            CDTextEntry {
                                track_number: piece.track,
                                entry_type: piece.category,
                                data: CDTextEntryDataType::String(s),
                            },
                        );
                    },
                }
            } else {
                let mut raw_data: Vec<u8> = Vec::new();
                let tl = piece.text.len();
                push_range(&mut raw_data, piece.text.as_slice(), 0, tl);
                proof {
                    assert(raw_data@ =~= piece.text@);
                }
                entries.push(
                    CDTextEntry {
                        track_number: piece.track,
                        entry_type: piece.category,
                        data: CDTextEntryDataType::Data(raw_data),
                    },
                );
            }
            proof {
                assert(first_invalid_text(raws, j as int) == first_invalid_text(
                    raws,
                    j as int + 1,
                ));
                assert(entries@ == entries0.push(entries@.last()));
                assert(entry_matches_at(entries@, raws, j as int));
                assert forall|k: int| 0 <= k < j + 1 implies entry_matches_at(
                    entries@,
                    raws,
                    k,
                ) by {
                    if k < j {
                        assert(entry_matches_at(entries0, raws, k));
                        assert(entries@[k] == entries0[k]);
                    }
                }
            }
            j = j + 1;
        }
        proof {
            assert(first_invalid_text(raws, j as int) is None);
            assert forall|k: int| 0 <= k < entries@.len() implies crate::reassemble::entry_matches(
                #[trigger] entries@[k],
                raws[k],
            ) by {
                assert(entry_matches_at(entries@, raws, k));
            }
            assert(entries_match(entries@, raws));
        }
        Ok(entries)
    }
}

/// The entry at index `k` realises the model entry at the same index.
spec fn entry_matches_at(es: Seq<CDTextEntry>, raws: Seq<RawEntry>, k: int) -> bool {
    crate::reassemble::entry_matches(es[k], raws[k])
}

} // verus!
