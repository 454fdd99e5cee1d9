//! General properties of the reassembly algorithm, stated and proved over
//! the model that `parse`'s contract pins its result to.

use vstd::prelude::*;

use crate::bytes::count_nuls;
use crate::bytes::first_nul;
use crate::bytes::lemma_count_nuls_padded;
use crate::bytes::lemma_count_nuls_zero;
use crate::bytes::lemma_first_nul_bounds;
use crate::bytes::lemma_strip_last_nonzero;
use crate::bytes::lemma_strip_take;
use crate::bytes::strip_nul_tail;
use crate::bytes::take_until_nul;
use crate::bytes::trim_nul_tail;
use crate::entry::CDTextEntry;
use crate::entry::CDTextEntryDataType;
use crate::entry::RawEntry;
use crate::pack::is_text_category;
use crate::pack::spec_next_track;
use crate::pack::spec_parse_pack;
use crate::pack::CDTextTrackNumber;
use crate::pack::PackModel;
use crate::reassemble::entries_match;
use crate::reassemble::entry_matches;
use crate::reassemble::num_packs;
use crate::reassemble::pack_window;
use crate::reassemble::spec_parse;
use crate::reassemble::spec_reassemble;
use crate::reassemble::split_index;
use crate::reassemble::step_segment;
use crate::reassemble::walk;
use crate::reassemble::walk_finish;
use crate::reassemble::walk_step;
use crate::reassemble::WalkState;

verus! {

/// A segment that holds exactly two NUL bytes and ends in one closes two
/// strings at once: the step emits two entries, the first under the walk's
/// current track reference and the second under its successor — the whole
/// album is followed by track 1, and track n by track n + 1.
pub proof fn lemma_double_nul_two_entries(st: WalkState, cur: PackModel, i: int)
    requires
        is_text_category(cur.pack_type),
        count_nuls(step_segment(st, cur)) == 2,
        step_segment(st, cur).len() > 0,
        step_segment(st, cur).last() == 0,
    ensures
        walk_step(st, cur, i).out.len() == st.out.len() + 2,
        forall|k: int| 0 <= k < st.out.len() ==> #[trigger] walk_step(st, cur, i).out[k]
            == st.out[k],
        walk_step(st, cur, i).out[st.out.len() as int].track == st.prev.track_number,
        walk_step(st, cur, i).out[st.out.len() as int].category == st.prev.pack_type,
        walk_step(st, cur, i).out[st.out.len() as int].text == st.buf + step_segment(
            st,
            cur,
        ).subrange(0, first_nul(step_segment(st, cur))),
        walk_step(st, cur, i).out[st.out.len() as int + 1].track == spec_next_track(
            st.prev.track_number,
        ),
        walk_step(st, cur, i).out[st.out.len() as int + 1].category == st.prev.pack_type,
        spec_next_track(CDTextTrackNumber::WholeAlbum) == CDTextTrackNumber::Track(1),
        forall|n: u8|
            n < 255 ==> spec_next_track(CDTextTrackNumber::Track(n)) == CDTextTrackNumber::Track(
                (n + 1) as u8,
            ),
{
    let seg = step_segment(st, cur);
    lemma_first_nul_bounds(seg);
}

/// A segment that holds exactly two NUL bytes but does not end in one closes
/// only the first of the two strings: the step emits one entry — the
/// accumulation plus the segment up to its first NUL, under the walk's
/// current track and category — and carries the second string's opening
/// bytes forward, where a later pack completes it.
pub proof fn lemma_double_nul_carry(st: WalkState, cur: PackModel, i: int)
    requires
        is_text_category(cur.pack_type),
        count_nuls(step_segment(st, cur)) == 2,
        step_segment(st, cur).last() != 0,
    ensures
        walk_step(st, cur, i).prev == cur,
        walk_step(st, cur, i).out == st.out.push(
            RawEntry {
                track: st.prev.track_number,
                category: st.prev.pack_type,
                text: st.buf + step_segment(st, cur).subrange(
                    0,
                    first_nul(step_segment(st, cur)),
                ),
                at: i,
            },
        ),
        walk_step(st, cur, i).buf == step_segment(st, cur).subrange(
            first_nul(step_segment(st, cur)) + 1,
            step_segment(st, cur).len() as int,
        ) + st.prev.payload.subrange(
            split_index(cur.character_position),
            st.prev.payload.len() as int,
        ),
{
    let seg = step_segment(st, cur);
    lemma_first_nul_bounds(seg);
    lemma_count_nuls_zero(seg);
    assert(seg.len() > 0);
    assert(first_nul(seg) < seg.len()) by {
        if first_nul(seg) == seg.len() {
            assert(forall|k: int| 0 <= k < seg.len() ==> seg[k] != 0);
        }
    }
    let before1 = seg.subrange(first_nul(seg) + 1, seg.len() as int);
    let after = st.prev.payload.subrange(
        split_index(cur.character_position),
        st.prev.payload.len() as int,
    );
    assert(walk_step(st, cur, i).buf =~= before1 + after);
}

/// While a string is still open — the previous payload holds no NUL — the
/// step emits nothing and carries the whole payload forward: over the packs
/// a string spans, the accumulation buffer grows into the concatenation of
/// every contributing fragment.
pub proof fn lemma_nul_free_payload_carries(st: WalkState, cur: PackModel, i: int)
    requires
        is_text_category(cur.pack_type),
        st.prev.payload.len() == 12,
        count_nuls(st.prev.payload) == 0,
    ensures
        walk_step(st, cur, i) == (WalkState {
            prev: cur,
            buf: st.buf + st.prev.payload,
            out: st.out,
        }),
{
    let index = split_index(cur.character_position);
    let before0 = st.prev.payload.subrange(0, index);
    let after = st.prev.payload.subrange(index, st.prev.payload.len() as int);
    lemma_count_nuls_zero(st.prev.payload);
    lemma_count_nuls_zero(before0);
    assert(walk_step(st, cur, i).buf =~= st.buf + st.prev.payload);
    assert(walk_step(st, cur, i) =~= WalkState {
        prev: cur,
        buf: st.buf + st.prev.payload,
        out: st.out,
    });
}

/// A segment that ends in a NUL run and is not the double-NUL case closes
/// the running string: the step flushes one entry — the accumulation plus
/// the segment with its trailing NULs stripped, under the previous pack's
/// track and category — and the bytes past the split index open the next
/// string.  With `lemma_nul_free_payload_carries` this reassembles a string
/// spanning any number of packs, wherever in the stream it lies.
pub proof fn lemma_terminal_segment_flushes(st: WalkState, cur: PackModel, i: int)
    requires
        is_text_category(cur.pack_type),
        step_segment(st, cur).len() > 0,
        step_segment(st, cur).last() == 0,
        strip_nul_tail(step_segment(st, cur)).len() > 0,
        count_nuls(step_segment(st, cur)) != 2,
    ensures
        walk_step(st, cur, i) == (WalkState {
            prev: cur,
            buf: st.prev.payload.subrange(
                split_index(cur.character_position),
                st.prev.payload.len() as int,
            ),
            out: st.out.push(
                RawEntry {
                    track: st.prev.track_number,
                    category: st.prev.pack_type,
                    text: st.buf + strip_nul_tail(step_segment(st, cur)),
                    at: i,
                },
            ),
        }),
{
    let seg = step_segment(st, cur);
    lemma_strip_last_nonzero(seg);
    assert(trim_nul_tail(seg) == strip_nul_tail(seg));
    let buf2 = st.buf + trim_nul_tail(seg);
    assert(buf2.last() == strip_nul_tail(seg).last());
    assert(strip_nul_tail(buf2) == buf2);
    assert(walk_step(st, cur, i) =~= WalkState {
        prev: cur,
        buf: st.prev.payload.subrange(
            split_index(cur.character_position),
            st.prev.payload.len() as int,
        ),
        out: st.out.push(
            RawEntry {
                track: st.prev.track_number,
                category: st.prev.pack_type,
                text: st.buf + strip_nul_tail(seg),
                at: i,
            },
        ),
    });
}

/// Reassembly is a function of the buffer alone: two entry lists that both
/// realise the parse of the same untouched buffer agree entry by entry.
pub proof fn lemma_parse_deterministic(
    data: Seq<u8>,
    es1: Seq<CDTextEntry>,
    es2: Seq<CDTextEntry>,
)
    requires
        spec_parse(data) matches Ok(raws) && entries_match(es1, raws) && entries_match(es2, raws),
    ensures
        es1.len() == es2.len(),
        forall|k: int|
            0 <= k < es1.len() ==> #[trigger] es1[k].track_number == es2[k].track_number
                && es1[k].entry_type == es2[k].entry_type,
        forall|k: int|
            0 <= k < es1.len() ==> ((#[trigger] es1[k]).data matches CDTextEntryDataType::String(
                s1,
            ) ==> (es2[k].data matches CDTextEntryDataType::String(s2) && s1@ == s2@)),
        forall|k: int|
            0 <= k < es1.len() ==> ((#[trigger] es1[k]).data matches CDTextEntryDataType::Data(d1)
                ==> (es2[k].data matches CDTextEntryDataType::Data(d2) && d1@ == d2@)),
{
    let raws = spec_parse(data)->Ok_0;
    assert forall|k: int| 0 <= k < es1.len() implies ((#[trigger] es1[k]).data matches
    CDTextEntryDataType::String(s1) ==> (es2[k].data matches CDTextEntryDataType::String(s2) && s1@
        == s2@)) by {
        assert(entry_matches(es1[k], raws[k]));
        assert(entry_matches(es2[k], raws[k]));
    }
    assert forall|k: int| 0 <= k < es1.len() implies ((#[trigger] es1[k]).data matches
    CDTextEntryDataType::Data(d1) ==> (es2[k].data matches CDTextEntryDataType::Data(d2) && d1@
        == d2@)) by {
        assert(entry_matches(es1[k], raws[k]));
        assert(entry_matches(es2[k], raws[k]));
    }
    assert forall|k: int| 0 <= k < es1.len() implies #[trigger] es1[k].track_number
        == es2[k].track_number && es1[k].entry_type == es2[k].entry_type by {
        assert(entry_matches(es1[k], raws[k]));
        assert(entry_matches(es2[k], raws[k]));
    }
}

/// The walk never looks past the last whole pack.
proof fn lemma_walk_whole_packs(data: Seq<u8>, i: int, st: WalkState)
    ensures
        walk(data, i, st) == walk(data.take(18 * num_packs(data)), i, st),
    decreases num_packs(data) - i,
{
    let np = num_packs(data);
    assert(18 * (data.len() as int / 18) <= data.len() as int);
    let d2 = data.take(18 * np);
    assert(d2.len() == 18 * np);
    assert(18 * np / 18 == np) by (nonlinear_arith);
    assert(num_packs(d2) == np);
    if 1 <= i < np {
        assert(pack_window(d2, i) =~= pack_window(data, i));
        match spec_parse_pack(pack_window(data, i)) {
            None => {},
            Some(cur) => {
                if is_text_category(cur.pack_type) {
                    lemma_walk_whole_packs(data, i + 1, walk_step(st, cur, i));
                }
            },
        }
    }
}

/// A trailing fragment shorter than one pack does not change the result:
/// parsing the buffer equals parsing it truncated to whole packs.
pub proof fn lemma_partial_tail_ignored(data: Seq<u8>)
    ensures
        spec_parse(data) == spec_parse(data.take(18 * num_packs(data))),
{
    let np = num_packs(data);
    assert(18 * (data.len() as int / 18) <= data.len() as int);
    let d2 = data.take(18 * np);
    assert(18 * np / 18 == np) by (nonlinear_arith);
    assert(num_packs(d2) == np);
    if np > 0 {
        assert(pack_window(d2, 0) =~= pack_window(data, 0));
        match spec_parse_pack(pack_window(data, 0)) {
            None => {},
            Some(first) => {
                lemma_walk_whole_packs(
                    data,
                    1,
                    WalkState { prev: first, buf: Seq::empty(), out: Seq::empty() },
                );
            },
        }
    }
}

/// A string that spans two consecutive packs — the first pack's payload
/// holds no NUL, the second pack's slice supplies the terminator — is
/// reassembled as one entry: the concatenation of the first payload and the
/// second payload's prefix up to its first NUL.
pub proof fn lemma_cross_pack_span(data: Seq<u8>, p0: PackModel, p1: PackModel)
    requires
        num_packs(data) == 2,
        spec_parse_pack(pack_window(data, 0)) == Some(p0),
        spec_parse_pack(pack_window(data, 1)) == Some(p1),
        is_text_category(p1.pack_type),
        count_nuls(p0.payload) == 0,
    ensures
        spec_reassemble(data) matches Ok(es) && es.len() == 1 && es[0].track == p1.track_number
            && es[0].category == p1.pack_type && es[0].text == p0.payload + take_until_nul(
            p1.payload,
        ),
{
    assert(p0.payload.len() == 12);
    let st0 = WalkState { prev: p0, buf: Seq::empty(), out: Seq::empty() };
    let index = split_index(p1.character_position);
    let before0 = p0.payload.subrange(0, index);
    let after = p0.payload.subrange(index, 12);
    lemma_count_nuls_zero(p0.payload);
    lemma_count_nuls_zero(before0);
    assert(count_nuls(before0) == 0);
    assert(!(before0.len() > 0 && before0.last() == 0));
    let st1 = walk_step(st0, p1, 1);
    assert(st1.buf =~= p0.payload);
    assert(st1.out =~= Seq::<RawEntry>::empty());
    assert(walk(data, 1, st0) == walk(data, 2, st1));
    assert(walk(data, 2, st1) == Ok::<Seq<RawEntry>, crate::entry::CDTextError>(
        walk_finish(st1, 1),
    ));
    let text = st1.buf + take_until_nul(st1.prev.payload);
    assert(text.len() >= 12);
}

/// A pack whose payload is one whole string, already NUL-terminated: some
/// non-NUL content, then NUL padding alone, starting at character position
/// 0.  The content is not empty (an empty last string would be dropped as
/// an empty final flush) and not ten bytes long (its two-byte NUL padding
/// would read as a double-NUL segment, which is a different case).
pub open spec fn single_string_pack(p: PackModel) -> bool {
    &&& is_text_category(p.pack_type)
    &&& p.character_position == 0
    &&& p.payload.len() == 12
    &&& 1 <= first_nul(p.payload) <= 11
    &&& first_nul(p.payload) != 10
    &&& forall|k: int| first_nul(p.payload) <= k < 12 ==> p.payload[k] == 0
}

/// The pack decoded from window `i`.
pub open spec fn decoded_pack(data: Seq<u8>, i: int) -> PackModel {
    spec_parse_pack(pack_window(data, i))->Some_0
}

proof fn lemma_single_walk(data: Seq<u8>, i: int, out: Seq<RawEntry>)
    requires
        1 <= i <= num_packs(data),
        forall|k: int|
            0 <= k < num_packs(data) ==> (#[trigger] spec_parse_pack(pack_window(data, k)))
                is Some && single_string_pack(decoded_pack(data, k)),
    ensures
        walk(data, i, WalkState { prev: decoded_pack(data, i - 1), buf: Seq::empty(), out })
            matches Ok(es) && es.len() == out.len() + (num_packs(data) - i + 1) && (forall|k: int|
            0 <= k < out.len() ==> #[trigger] es[k] == out[k]) && (forall|k: int|
            0 <= k < num_packs(data) - i + 1 ==> (#[trigger] es[out.len() + k]).track
                == decoded_pack(data, i - 1 + k).track_number && es[out.len() + k].category
                == decoded_pack(data, i - 1 + k).pack_type && es[out.len() + k].text
                == take_until_nul(decoded_pack(data, i - 1 + k).payload)),
    decreases num_packs(data) - i,
{
    let prev = decoded_pack(data, i - 1);
    let q = prev.payload;
    let st = WalkState { prev, buf: Seq::empty(), out };
    assert(spec_parse_pack(pack_window(data, i - 1)) is Some);
    assert(single_string_pack(prev));
    let c = first_nul(q);
    lemma_first_nul_bounds(q);
    lemma_count_nuls_padded(q, c);
    lemma_strip_take(q, c);
    assert(take_until_nul(q) =~= q.take(c));
    if i == num_packs(data) {
        let text = st.buf + take_until_nul(q);
        assert(text =~= q.take(c));
        assert(text.len() == c);
        let es = walk_finish(st, i - 1);
        assert(walk(data, i, st) == Ok::<Seq<RawEntry>, crate::entry::CDTextError>(es));
        assert(es == out.push(
            RawEntry { track: prev.track_number, category: prev.pack_type, text, at: i - 1 },
        ));
    } else {
        let cur = decoded_pack(data, i);
        assert(spec_parse_pack(pack_window(data, i)) is Some);
        assert(single_string_pack(cur));
        let index = split_index(cur.character_position);
        assert(index == 12);
        let before0 = q.subrange(0, 12);
        assert(before0 =~= q);
        let after = q.subrange(12, 12);
        assert(after =~= Seq::<u8>::empty());
        assert(before0.len() > 0 && before0.last() == 0);
        assert(count_nuls(before0) == 12 - c);
        assert(count_nuls(before0) != 2);
        assert(strip_nul_tail(before0) == q.take(c));
        assert(trim_nul_tail(before0) == q.take(c));
        let buf2 = st.buf + trim_nul_tail(before0);
        assert(buf2 =~= q.take(c));
        assert(buf2.last() == q[c - 1]);
        assert(strip_nul_tail(buf2) == buf2);
        let e = RawEntry {
            track: prev.track_number,
            category: prev.pack_type,
            text: strip_nul_tail(buf2),
            at: i,
        };
        let st1 = walk_step(st, cur, i);
        assert(st1 =~= WalkState { prev: cur, buf: Seq::empty(), out: out.push(e) });
        assert(walk(data, i, st) == walk(data, i + 1, st1));
        lemma_single_walk(data, i + 1, out.push(e));
        let es = walk(data, i + 1, st1)->Ok_0;
        assert(e.text =~= take_until_nul(q));
        assert forall|k: int| 0 <= k < num_packs(data) - i + 1 implies (#[trigger] es[out.len()
            + k]).track == decoded_pack(data, i - 1 + k).track_number && es[out.len() + k].category
            == decoded_pack(data, i - 1 + k).pack_type && es[out.len() + k].text == take_until_nul(
            decoded_pack(data, i - 1 + k).payload,
        ) by {
            if k == 0 {
                assert(es[out.len() as int] == out.push(e)[out.len() as int]);
            } else {
                assert(es[out.len() + k] == es[(out.push(e).len()) + (k - 1)]);
            }
        }
    }
}

/// A buffer of single-pack, already NUL-terminated strings — every pack
/// carries its own string, none spans a boundary, none holds two NULs —
/// parses to one entry per pack: the payload up to its first NUL, under the
/// pack's own track reference and category.
pub proof fn lemma_single_pack_strings(data: Seq<u8>)
    requires
        num_packs(data) >= 1,
        forall|k: int|
            0 <= k < num_packs(data) ==> (#[trigger] spec_parse_pack(pack_window(data, k)))
                is Some && single_string_pack(decoded_pack(data, k)),
    ensures
        spec_reassemble(data) matches Ok(es) && es.len() == num_packs(data) && (forall|k: int|
            0 <= k < num_packs(data) ==> (#[trigger] es[k]).track == decoded_pack(
                data,
                k,
            ).track_number && es[k].category == decoded_pack(data, k).pack_type && es[k].text
                == take_until_nul(decoded_pack(data, k).payload)),
{
    assert(spec_parse_pack(pack_window(data, 0)) is Some);
    let first = decoded_pack(data, 0);
    lemma_single_walk(data, 1, Seq::empty());
    let out = Seq::<RawEntry>::empty();
    let st0 = WalkState { prev: first, buf: Seq::empty(), out };
    assert(spec_reassemble(data) == walk(data, 1, st0));
    let es = walk(data, 1, st0)->Ok_0;
    assert forall|k: int| 0 <= k < num_packs(data) implies (#[trigger] es[k]).track
        == decoded_pack(data, k).track_number && es[k].category == decoded_pack(
        data,
        k,
    ).pack_type && es[k].text == take_until_nul(decoded_pack(data, k).payload) by {
        assert(es[out.len() + k].track == decoded_pack(data, 1 - 1 + k).track_number);
        assert(es[out.len() + k].category == decoded_pack(data, 1 - 1 + k).pack_type);
        assert(es[out.len() + k].text == take_until_nul(decoded_pack(data, 1 - 1 + k).payload));
        assert(es[out.len() + k] == es[k]);
    }
}

} // verus!
