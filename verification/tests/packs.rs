use cdtext::CDText;
use cdtext::CDTextPackType;
use cdtext::CDTextTrackNumber;

/// Builds one 18-byte pack with an explicit checksum.
fn pack_with_crc(tag: u8, track: u8, seq: u8, pos: u8, payload: &[u8], crc: [u8; 2]) -> Vec<u8> {
    assert!(payload.len() <= 12);
    let mut v = vec![tag, track, seq, pos];
    v.extend_from_slice(payload);
    for _ in payload.len()..12 {
        v.push(0);
    }
    v.extend_from_slice(&crc);
    v
}

#[test]
fn pack_fields_are_extracted_bit_exactly() {
    // position 5, block 3, double-byte flag set: 1_011_0101.
    let data = pack_with_crc(0x82, 3, 7, 0b1011_0101, b"SONGWRITER\0", [0xab, 0xcd]);
    let chunks = CDText::from_data(&data).iter_pack_chunks();
    assert_eq!(chunks.len(), 1);
    let p = chunks[0].as_ref().unwrap();
    assert_eq!(p.pack_type, CDTextPackType::Songwriters);
    assert_eq!(p.track_number, CDTextTrackNumber::Track(3));
    assert_eq!(p.seq_counter, 7);
    assert_eq!(p.character_position, 5);
    assert_eq!(p.block_number, 3);
    assert!(p.is_double_byte_characters);
    assert_eq!(&p.payload, b"SONGWRITER\0\0");
    assert_eq!(p.crc, 0xabcd);
}

#[test]
fn zero_track_byte_means_whole_album() {
    let data = pack_with_crc(0x80, 0, 0, 0, b"X\0", [0, 0]);
    let chunks = CDText::from_data(&data).iter_pack_chunks();
    let p = chunks[0].as_ref().unwrap();
    assert_eq!(p.track_number, CDTextTrackNumber::WholeAlbum);
}

#[test]
fn every_known_tag_decodes_to_its_category() {
    let cases: [(u8, CDTextPackType); 13] = [
        (0x80, CDTextPackType::Title),
        (0x81, CDTextPackType::Performers),
        (0x82, CDTextPackType::Songwriters),
        (0x83, CDTextPackType::Composers),
        (0x84, CDTextPackType::Arrangers),
        (0x85, CDTextPackType::Message),
        (0x86, CDTextPackType::DiscID),
        (0x87, CDTextPackType::Genre),
        (0x88, CDTextPackType::TOC),
        (0x89, CDTextPackType::AdditionalTOC),
        (0x8d, CDTextPackType::ClosedInfo),
        (0x8e, CDTextPackType::Code),
        (0x8f, CDTextPackType::BlockSizeInfo),
    ];
    for (tag, expected) in cases {
        let data = pack_with_crc(tag, 1, 0, 0, b"X\0", [0, 0]);
        let chunks = CDText::from_data(&data).iter_pack_chunks();
        assert_eq!(chunks[0].as_ref().unwrap().pack_type, expected);
    }
}

#[test]
fn unknown_tag_yields_none_chunk() {
    let mut data = pack_with_crc(0x80, 0, 0, 0, b"X\0", [0, 0]);
    data.extend_from_slice(&pack_with_crc(0x8a, 0, 1, 0, b"Y\0", [0, 0]));
    let chunks = CDText::from_data(&data).iter_pack_chunks();
    assert_eq!(chunks.len(), 2);
    assert!(chunks[0].is_some());
    assert!(chunks[1].is_none());
}

#[test]
fn chunk_count_is_whole_packs_only() {
    let mut data = pack_with_crc(0x80, 0, 0, 0, b"X\0", [0, 0]);
    data.extend_from_slice(&[1, 2, 3, 4, 5]);
    let chunks = CDText::from_data(&data).iter_pack_chunks();
    assert_eq!(chunks.len(), 1);
}

#[test]
fn header_length_field_is_stripped_not_trusted() {
    // The length field claims less data than the two packs that follow; it
    // is stored and otherwise ignored.
    let mut data = vec![0x00, 0x05, 0xee, 0xee];
    data.extend_from_slice(&pack_with_crc(0x80, 0, 0, 0, b"A\0", [0, 0]));
    data.extend_from_slice(&pack_with_crc(0x80, 1, 1, 0, b"B\0", [0, 0]));
    let parser = CDText::from_data_with_length(&data).unwrap();
    assert_eq!(parser.iter_pack_chunks().len(), 2);
}
