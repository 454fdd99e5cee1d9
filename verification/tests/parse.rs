use cdtext::CDText;
use cdtext::CDTextEntry;
use cdtext::CDTextEntryDataType;
use cdtext::CDTextError;
use cdtext::CDTextPackType;
use cdtext::CDTextTrackNumber;

/// Builds one 18-byte pack from its fields; the payload may be shorter than
/// 12 bytes and is padded with NULs.
fn pack(tag: u8, track: u8, seq: u8, pos: u8, payload: &[u8]) -> Vec<u8> {
    assert!(payload.len() <= 12);
    let mut v = vec![tag, track, seq, pos];
    v.extend_from_slice(payload);
    for _ in payload.len()..12 {
        v.push(0);
    }
    v.push(0);
    v.push(0);
    v
}

fn text_entry(track: CDTextTrackNumber, kind: CDTextPackType, s: &str) -> CDTextEntry {
    CDTextEntry {
        track_number: track,
        entry_type: kind,
        data: CDTextEntryDataType::String(s.to_string()),
    }
}

#[test]
fn single_pack_strings_one_entry_each() {
    let mut data = pack(0x80, 0, 0, 0, b"AB\0");
    data.extend_from_slice(&pack(0x80, 1, 1, 0, b"CD\0"));
    data.extend_from_slice(&pack(0x80, 2, 2, 0, b"EF\0"));
    let entries = CDText::from_data(&data).parse().unwrap();
    assert_eq!(
        entries,
        vec![
            text_entry(CDTextTrackNumber::WholeAlbum, CDTextPackType::Title, "AB"),
            text_entry(CDTextTrackNumber::Track(1), CDTextPackType::Title, "CD"),
            text_entry(CDTextTrackNumber::Track(2), CDTextPackType::Title, "EF"),
        ]
    );
}

#[test]
fn full_payload_strings_one_entry_each() {
    // Each payload is eleven non-NUL bytes and one final NUL.
    let mut data = pack(0x80, 0, 0, 0, b"ELEVENBYTES\0");
    data.extend_from_slice(&pack(0x80, 1, 1, 0, b"MOREELEVENS\0"));
    let entries = CDText::from_data(&data).parse().unwrap();
    assert_eq!(
        entries,
        vec![
            text_entry(CDTextTrackNumber::WholeAlbum, CDTextPackType::Title, "ELEVENBYTES"),
            text_entry(CDTextTrackNumber::Track(1), CDTextPackType::Title, "MOREELEVENS"),
        ]
    );
}

#[test]
fn string_spanning_two_packs() {
    let mut data = pack(0x81, 1, 0, 0, b"ABCDEFGHIJKL");
    data.extend_from_slice(&pack(0x81, 1, 1, 12, b"MNO\0"));
    let entries = CDText::from_data(&data).parse().unwrap();
    assert_eq!(
        entries,
        vec![text_entry(
            CDTextTrackNumber::Track(1),
            CDTextPackType::Performers,
            "ABCDEFGHIJKLMNO"
        )]
    );
}

#[test]
fn double_nul_segment_emits_two_entries() {
    let mut data = pack(0x80, 0, 0, 0, b"SHORT\0EXTRA\0");
    data.extend_from_slice(&pack(0x80, 1, 1, 0, b"LAST\0"));
    let entries = CDText::from_data(&data).parse().unwrap();
    assert_eq!(
        entries,
        vec![
            text_entry(CDTextTrackNumber::WholeAlbum, CDTextPackType::Title, "SHORT"),
            text_entry(CDTextTrackNumber::Track(1), CDTextPackType::Title, "EXTRA"),
            text_entry(CDTextTrackNumber::Track(1), CDTextPackType::Title, "LAST"),
        ]
    );
}

#[test]
fn double_nul_segment_increments_track() {
    let mut data = pack(0x80, 5, 0, 0, b"AAAA\0BBBBBB\0");
    data.extend_from_slice(&pack(0x80, 6, 1, 0, b"LAST\0"));
    let entries = CDText::from_data(&data).parse().unwrap();
    assert_eq!(entries[0], text_entry(CDTextTrackNumber::Track(5), CDTextPackType::Title, "AAAA"));
    assert_eq!(
        entries[1],
        text_entry(CDTextTrackNumber::Track(6), CDTextPackType::Title, "BBBBBB")
    );
}

#[test]
fn track_increment_saturates_at_largest_byte() {
    let mut data = pack(0x80, 255, 0, 0, b"AAAA\0BBBBBB\0");
    data.extend_from_slice(&pack(0x80, 255, 1, 0, b"LAST\0"));
    let entries = CDText::from_data(&data).parse().unwrap();
    assert_eq!(
        entries[0],
        text_entry(CDTextTrackNumber::Track(255), CDTextPackType::Title, "AAAA")
    );
    assert_eq!(
        entries[1],
        text_entry(CDTextTrackNumber::Track(255), CDTextPackType::Title, "BBBBBB")
    );
}

#[test]
fn all_nul_payload_flushes_an_empty_string_mid_stream() {
    let mut data = pack(0x80, 0, 0, 0, b"");
    data.extend_from_slice(&pack(0x80, 1, 1, 0, b"X\0"));
    let entries = CDText::from_data(&data).parse().unwrap();
    assert_eq!(
        entries,
        vec![
            text_entry(CDTextTrackNumber::WholeAlbum, CDTextPackType::Title, ""),
            text_entry(CDTextTrackNumber::Track(1), CDTextPackType::Title, "X"),
        ]
    );
}

#[test]
fn parse_twice_yields_identical_entries() {
    let mut data = pack(0x80, 0, 0, 0, b"SHORT\0EXTRA\0");
    data.extend_from_slice(&pack(0x80, 1, 1, 0, b"LAST\0"));
    let parser = CDText::from_data(&data);
    let once = parser.parse().unwrap();
    let twice = parser.parse().unwrap();
    assert_eq!(once, twice);
}

#[test]
fn partial_trailing_pack_is_dropped() {
    let whole = pack(0x80, 0, 0, 0, b"HELLO\0");
    let mut padded = whole.clone();
    padded.extend_from_slice(&[0x80, 1, 2, 3, 4, 5, 6]);
    let from_whole = CDText::from_data(&whole).parse().unwrap();
    let from_padded = CDText::from_data(&padded).parse().unwrap();
    assert_eq!(from_whole, from_padded);
    assert_eq!(
        from_whole,
        vec![text_entry(CDTextTrackNumber::WholeAlbum, CDTextPackType::Title, "HELLO")]
    );
}

#[test]
fn header_stripped_end_to_end() {
    let mut data = vec![0x00, 0x20, 0x00, 0x00];
    data.extend_from_slice(&pack(0x80, 0, 0, 0, b"ALBUM TITLE\0"));
    data.extend_from_slice(&pack(0x80, 0, 1, 0, b""));
    let parser = CDText::from_data_with_length(&data).unwrap();
    let entries = parser.parse().unwrap();
    assert_eq!(
        entries,
        vec![text_entry(CDTextTrackNumber::WholeAlbum, CDTextPackType::Title, "ALBUM TITLE")]
    );
}

#[test]
fn header_needs_four_bytes() {
    let data = [0x00, 0x20, 0x00];
    assert_eq!(
        CDText::from_data_with_length(&data).err(),
        Some(CDTextError::BufferUnderrun)
    );
}

#[test]
fn empty_buffer_is_underrun() {
    let data: Vec<u8> = vec![];
    assert_eq!(
        CDText::from_data(&data).parse(),
        Err(CDTextError::BufferUnderrun)
    );
}

#[test]
fn short_buffer_is_underrun() {
    let data = [0x80u8, 0, 0, 0, 65, 66, 67];
    assert_eq!(
        CDText::from_data(&data).parse(),
        Err(CDTextError::BufferUnderrun)
    );
}

#[test]
fn unknown_tag_on_first_pack() {
    let data = pack(0x00, 0, 0, 0, b"HELLO\0");
    assert_eq!(
        CDText::from_data(&data).parse(),
        Err(CDTextError::UnknownCategory { pack_index: 0 })
    );
}

#[test]
fn unknown_tag_mid_stream() {
    let mut data = pack(0x80, 0, 0, 0, b"HELLO\0");
    data.extend_from_slice(&pack(0xff, 0, 1, 0, b"WORLD\0"));
    assert_eq!(
        CDText::from_data(&data).parse(),
        Err(CDTextError::UnknownCategory { pack_index: 1 })
    );
}

#[test]
fn invalid_utf8_is_reported_with_its_pack() {
    let data = pack(0x80, 0, 0, 0, &[b'A', 0xff, b'B', 0]);
    assert_eq!(
        CDText::from_data(&data).parse(),
        Err(CDTextError::InvalidText { pack_index: 0 })
    );
}

#[test]
fn non_text_category_ends_the_walk() {
    let mut data = pack(0x80, 0, 0, 0, b"HELLO\0");
    data.extend_from_slice(&pack(0x88, 0, 1, 0, b"\x01\x02\x03"));
    // A third window that would not even decode: the walk never reaches it.
    data.extend_from_slice(&pack(0x12, 0, 2, 0, b"JUNK"));
    let entries = CDText::from_data(&data).parse().unwrap();
    assert_eq!(
        entries,
        vec![text_entry(CDTextTrackNumber::WholeAlbum, CDTextPackType::Title, "HELLO")]
    );
}

#[test]
fn non_text_first_pack_exposes_raw_payload() {
    let mut data = pack(0x86, 0, 0, 0, b"DISCID12\0");
    data.extend_from_slice(&pack(0x88, 0, 1, 0, b"\x01"));
    let entries = CDText::from_data(&data).parse().unwrap();
    assert_eq!(
        entries,
        vec![CDTextEntry {
            track_number: CDTextTrackNumber::WholeAlbum,
            entry_type: CDTextPackType::DiscID,
            data: CDTextEntryDataType::Data(b"DISCID12\0\0\0\0".to_vec()),
        }]
    );
}

#[test]
fn non_text_binary_payload_is_not_text_checked() {
    // Bytes that are not valid UTF-8 pass through raw for a non-text
    // category instead of aborting the parse.
    let data = pack(0x88, 0, 0, 0, &[0xff, 0xfe, 0x01, 0x02]);
    let entries = CDText::from_data(&data).parse().unwrap();
    assert_eq!(
        entries,
        vec![CDTextEntry {
            track_number: CDTextTrackNumber::WholeAlbum,
            entry_type: CDTextPackType::TOC,
            data: CDTextEntryDataType::Data(vec![0xff, 0xfe, 1, 2, 0, 0, 0, 0, 0, 0, 0, 0]),
        }]
    );
}

#[test]
fn lone_all_nul_pack_still_flushes_once() {
    // The final flush occurs even when it is empty, as long as nothing was
    // emitted before it: the result is never empty for a decodable buffer.
    let data = pack(0x80, 0, 0, 0, b"");
    let entries = CDText::from_data(&data).parse().unwrap();
    assert_eq!(
        entries,
        vec![text_entry(CDTextTrackNumber::WholeAlbum, CDTextPackType::Title, "")]
    );
}
