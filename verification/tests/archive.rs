use barotool::error::{invalid_data, Error, ErrorKind};
use barotool::extract::{list, unpack, wants};
use barotool::format::Entry;
use barotool::reader::ArchiveReader;
use barotool::selection::Selection;
use barotool::writer::{name_field, pack, size_field, ArchiveWriter};
use std::io::{Read, Write};

fn entry(name: &str, data: &[u8]) -> Entry {
    Entry { name: name.to_string(), data: data.to_vec() }
}

fn gzip(raw: &[u8]) -> Vec<u8> {
    let mut encoder = libflate::gzip::Encoder::new(Vec::new()).unwrap();
    encoder.write_all(raw).unwrap();
    encoder.finish().into_result().unwrap()
}

fn gunzip(compressed: &[u8]) -> Vec<u8> {
    let mut decoder = libflate::gzip::Decoder::new(compressed).unwrap();
    let mut raw = Vec::new();
    decoder.read_to_end(&mut raw).unwrap();
    raw
}

/// The bytes of one member, written out by hand.
fn member_bytes(name: &str, body: &[u8]) -> Vec<u8> {
    let units: Vec<u16> = name.encode_utf16().collect();
    let mut raw = Vec::new();
    raw.extend_from_slice(&(units.len() as u32).to_le_bytes());
    for unit in units {
        raw.extend_from_slice(&unit.to_le_bytes());
    }
    raw.extend_from_slice(&(body.len() as u32).to_le_bytes());
    raw.extend_from_slice(body);
    raw
}

fn names_and_sizes(archive: Vec<u8>) -> Result<Vec<(String, usize)>, Error> {
    let mut reader = ArchiveReader::open(archive)?;
    let headers = list(&mut reader)?;
    Ok(headers.into_iter().map(|h| (h.name, h.size)).collect())
}

fn select(names: &[&str]) -> Selection {
    let mut selection = Selection::new();
    for name in names {
        selection.insert(name.to_string());
    }
    selection
}

#[test]
fn pack_then_list_gives_names_and_sizes_in_order() {
    let members = vec![entry("a.xml", b"alpha"), entry("b.bin", &[0u8; 5000]), entry("c", b"")];
    let archive = pack(&members).unwrap();
    assert_eq!(
        names_and_sizes(archive).unwrap(),
        vec![("a.xml".to_string(), 5), ("b.bin".to_string(), 5000), ("c".to_string(), 0)]
    );
}

#[test]
fn pack_then_unpack_everything_gives_the_same_bytes() {
    let big: Vec<u8> = (0..20000u32).map(|i| (i % 251) as u8).collect();
    let members = vec![entry("first", b"hello"), entry("second", &big), entry("third", b"!")];
    let archive = pack(&members).unwrap();
    let mut reader = ArchiveReader::open(archive).unwrap();
    let mut selection = Selection::new();
    let entries = unpack(&mut reader, &mut selection).unwrap();
    assert_eq!(entries.len(), 3);
    assert_eq!(entries[0].name, "first");
    assert_eq!(entries[0].data, b"hello");
    assert_eq!(entries[1].name, "second");
    assert_eq!(entries[1].data, big);
    assert_eq!(entries[2].name, "third");
    assert_eq!(entries[2].data, b"!");
    assert!(selection.is_empty());
}

#[test]
fn pack_writes_the_framing_byte_for_byte() {
    let members = vec![entry("hi", b"xyz"), entry("", b"")];
    let raw = gunzip(&pack(&members).unwrap());
    assert_eq!(
        raw,
        vec![
            2, 0, 0, 0, b'h', 0, b'i', 0, 3, 0, 0, 0, b'x', b'y', b'z', // "hi"
            0, 0, 0, 0, 0, 0, 0, 0, // the member with no name and no body
        ]
    );
}

#[test]
fn pack_of_nothing_is_an_archive_without_members() {
    let archive = pack(&[]).unwrap();
    assert_eq!(gunzip(&archive), Vec::<u8>::new());
    assert_eq!(names_and_sizes(archive).unwrap(), vec![]);
}

#[test]
fn writer_adds_members_one_by_one() {
    let mut writer = ArchiveWriter::new().unwrap();
    writer.add("one", b"1").unwrap();
    writer.add("two", b"22").unwrap();
    let archive = writer.finish().unwrap();
    let mut expected = member_bytes("one", b"1");
    expected.extend_from_slice(&member_bytes("two", b"22"));
    assert_eq!(gunzip(&archive), expected);
}

#[test]
fn name_field_counts_code_units_and_writes_them_low_byte_first() {
    assert_eq!(name_field("hi").unwrap(), vec![2, 0, 0, 0, 0x68, 0, 0x69, 0]);
    assert_eq!(name_field("").unwrap(), vec![0, 0, 0, 0]);
    // U+00E9 is one unit, U+1F600 is the surrogate pair D83D DE00.
    assert_eq!(
        name_field("\u{e9}\u{1F600}").unwrap(),
        vec![3, 0, 0, 0, 0xE9, 0x00, 0x3D, 0xD8, 0x00, 0xDE]
    );
    // The highest character of the basic plane and the lowest and highest beyond it.
    assert_eq!(
        name_field("\u{FFFF}\u{10000}\u{10FFFF}").unwrap(),
        vec![5, 0, 0, 0, 0xFF, 0xFF, 0x00, 0xD8, 0x00, 0xDC, 0xFF, 0xDB, 0xFF, 0xDF]
    );
}

#[test]
fn size_field_writes_the_length_low_byte_first() {
    assert_eq!(size_field(0).unwrap(), vec![0, 0, 0, 0]);
    assert_eq!(size_field(0x0102_0304).unwrap(), vec![4, 3, 2, 1]);
    assert_eq!(size_field(0xFFFF_FFFF).unwrap(), vec![0xFF, 0xFF, 0xFF, 0xFF]);
}

#[test]
fn size_field_refuses_a_length_beyond_32_bits() {
    if let Some(too_large) = 0xFFFF_FFFFusize.checked_add(1) {
        let error = size_field(too_large).unwrap_err();
        assert_eq!(error.kind(), ErrorKind::BodyTooLarge);
        assert_eq!(error.message(), "Member too large");
    }
}

#[test]
fn selective_extraction_takes_the_named_members_only() {
    let members = vec![entry("A", b"aaa"), entry("B", b"bbbb"), entry("C", b"c")];
    let mut reader = ArchiveReader::open(pack(&members).unwrap()).unwrap();
    let mut selection = select(&["A", "C"]);
    let entries = unpack(&mut reader, &mut selection).unwrap();
    let got: Vec<(String, Vec<u8>)> = entries.into_iter().map(|e| (e.name, e.data)).collect();
    assert_eq!(got, vec![("A".to_string(), b"aaa".to_vec()), ("C".to_string(), b"c".to_vec())]);
    assert!(selection.is_empty());
    assert!(selection.names().is_empty());
}

#[test]
fn selection_of_an_absent_name_extracts_nothing_and_keeps_the_name() {
    let members = vec![entry("A", b"aaa"), entry("B", b"bbbb")];
    let mut reader = ArchiveReader::open(pack(&members).unwrap()).unwrap();
    let mut selection = select(&["Z"]);
    let entries = unpack(&mut reader, &mut selection).unwrap();
    assert!(entries.is_empty());
    assert!(!selection.is_empty());
    assert_eq!(selection.names(), vec!["Z".to_string()]);
}

#[test]
fn selection_keeps_what_was_not_found_and_drops_what_was() {
    let members = vec![entry("A", b"1"), entry("B", b"2"), entry("C", b"3")];
    let mut reader = ArchiveReader::open(pack(&members).unwrap()).unwrap();
    let mut selection = select(&["X", "B", "Y"]);
    let entries = unpack(&mut reader, &mut selection).unwrap();
    assert_eq!(entries.len(), 1);
    assert_eq!(entries[0].name, "B");
    assert_eq!(entries[0].data, b"2");
    assert_eq!(selection.names(), vec!["X".to_string(), "Y".to_string()]);
}

#[test]
fn a_selected_name_is_extracted_once_where_the_archive_holds_it_twice() {
    let members = vec![entry("A", b"first"), entry("B", b"b"), entry("A", b"second")];
    let archive = pack(&members).unwrap();

    let mut reader = ArchiveReader::open(archive.clone()).unwrap();
    let mut selection = select(&["A"]);
    let entries = unpack(&mut reader, &mut selection).unwrap();
    assert_eq!(entries.len(), 1);
    assert_eq!(entries[0].data, b"first");
    assert!(selection.is_empty());

    let mut reader = ArchiveReader::open(archive).unwrap();
    let mut everything = Selection::new();
    let entries = unpack(&mut reader, &mut everything).unwrap();
    assert_eq!(entries.len(), 3);
    assert_eq!(entries[2].name, "A");
    assert_eq!(entries[2].data, b"second");
}

#[test]
fn listing_passes_over_bodies_that_nobody_reads() {
    let members =
        vec![entry("one", &[1u8; 10]), entry("two", &[2u8; 9000]), entry("three", &[3u8; 7])];
    let archive = pack(&members).unwrap();
    assert_eq!(
        names_and_sizes(archive).unwrap(),
        vec![("one".to_string(), 10), ("two".to_string(), 9000), ("three".to_string(), 7)]
    );
}

#[test]
fn next_passes_over_what_a_dropped_member_left_unread() {
    let body: Vec<u8> = (0..10000u32).map(|i| (i % 7) as u8).collect();
    let members = vec![entry("big", &body), entry("small", b"tail")];
    let mut reader = ArchiveReader::open(pack(&members).unwrap()).unwrap();
    {
        let mut member = reader.next().unwrap().unwrap();
        assert_eq!(member.name(), "big");
        assert_eq!(member.size(), 10000);
        let mut buffer = [0u8; 100];
        let n = member.read(&mut buffer).unwrap();
        assert!(1 <= n && n <= 100);
        assert_eq!(&buffer[..n], &body[..n]);
    }
    {
        let mut member = reader.next().unwrap().unwrap();
        assert_eq!(member.name(), "small");
        assert_eq!(member.size(), 4);
        assert_eq!(member.read_to_end().unwrap(), b"tail");
    }
    assert!(reader.next().unwrap().is_none());
    assert!(reader.next().unwrap().is_none());
}

#[test]
fn read_hands_out_the_body_in_pieces_and_then_nothing() {
    let body: Vec<u8> = (0..5000u32).map(|i| (i % 253) as u8).collect();
    let members = vec![entry("m", &body), entry("after", b"zzz")];
    let mut reader = ArchiveReader::open(pack(&members).unwrap()).unwrap();
    let mut member = reader.next().unwrap().unwrap();
    let mut got = Vec::new();
    let mut buffer = [0u8; 333];
    loop {
        let n = member.read(&mut buffer).unwrap();
        if n == 0 {
            break;
        }
        got.extend_from_slice(&buffer[..n]);
    }
    assert_eq!(got, body);
    // The body is at its end: no byte of the next member is handed out.
    assert_eq!(member.read(&mut buffer).unwrap(), 0);
}

#[test]
fn read_with_an_empty_buffer_reads_nothing_and_ends_nothing() {
    let members = vec![entry("m", b"abcdef")];
    let mut reader = ArchiveReader::open(pack(&members).unwrap()).unwrap();
    let mut member = reader.next().unwrap().unwrap();
    let mut empty = [0u8; 0];
    assert_eq!(member.read(&mut empty).unwrap(), 0);
    assert_eq!(member.read(&mut empty).unwrap(), 0);
    assert_eq!(member.read_to_end().unwrap(), b"abcdef");
}

#[test]
fn truncated_body_is_an_error_for_the_reader_of_the_body() {
    let mut raw = member_bytes("ok", b"12345");
    raw.extend_from_slice(&member_bytes("cut", &[9u8; 100])[..8 + 6 + 40]);
    let mut reader = ArchiveReader::open(gzip(&raw)).unwrap();
    assert_eq!(reader.next().unwrap().unwrap().name(), "ok");
    let mut member = reader.next().unwrap().unwrap();
    assert_eq!(member.name(), "cut");
    assert_eq!(member.size(), 100);
    let mut buffer = [0u8; 64];
    let first = member.read(&mut buffer).unwrap();
    assert!(1 <= first && first <= 40);
    let mut seen = first;
    let error = loop {
        match member.read(&mut buffer) {
            Ok(n) => {
                assert!(n >= 1, "a silent empty read");
                seen += n;
            }
            Err(e) => break e,
        }
    };
    assert_eq!(seen, 40);
    assert_eq!(error.kind(), ErrorKind::Truncated);
    assert_eq!(error.message(), "EOF within archive member");
}

#[test]
fn truncated_body_is_an_error_for_read_to_end_and_for_unpack() {
    let mut raw = member_bytes("ok", b"12345");
    raw.extend_from_slice(&member_bytes("cut", &[9u8; 100])[..8 + 6 + 99]);
    let archive = gzip(&raw);

    let mut reader = ArchiveReader::open(archive.clone()).unwrap();
    reader.next().unwrap().unwrap();
    let mut member = reader.next().unwrap().unwrap();
    assert_eq!(member.read_to_end().unwrap_err().kind(), ErrorKind::Truncated);

    let mut reader = ArchiveReader::open(archive).unwrap();
    let mut everything = Selection::new();
    assert_eq!(unpack(&mut reader, &mut everything).unwrap_err().kind(), ErrorKind::Truncated);
}

#[test]
fn truncated_body_is_an_error_for_the_skip_to_the_next_header() {
    let mut raw = member_bytes("ok", b"12345");
    raw.extend_from_slice(&member_bytes("cut", &[9u8; 5000])[..8 + 6 + 4999]);
    let archive = gzip(&raw);
    assert_eq!(names_and_sizes(archive.clone()).unwrap_err().kind(), ErrorKind::Truncated);

    // A selection that passes over the short member meets the same error.
    let mut reader = ArchiveReader::open(archive).unwrap();
    let mut selection = select(&["ok"]);
    assert_eq!(unpack(&mut reader, &mut selection).unwrap_err().kind(), ErrorKind::Truncated);
}

#[test]
fn stream_that_ends_inside_a_header_is_truncated() {
    let whole = member_bytes("name", b"body");
    // Inside the name length, inside the name, before and inside the body length.
    for cut in [1, 2, 3, 4, 5, 11, 12, 13, 15] {
        let archive = gzip(&whole[..cut]);
        let mut reader = ArchiveReader::open(archive).unwrap();
        let error = match reader.next() {
            Err(e) => e,
            Ok(_) => panic!("a header of {} bytes was taken for a whole one", cut),
        };
        assert_eq!(error.kind(), ErrorKind::Truncated, "cut at {}", cut);
    }
    // With all sixteen bytes of the header the member is there, and its body is short.
    let mut reader = ArchiveReader::open(gzip(&whole[..16])).unwrap();
    let mut member = reader.next().unwrap().unwrap();
    assert_eq!(member.size(), 4);
    assert_eq!(member.read_to_end().unwrap_err().kind(), ErrorKind::Truncated);
}

#[test]
fn stream_that_ends_before_a_header_is_the_end_of_the_archive() {
    let mut reader = ArchiveReader::open(gzip(&[])).unwrap();
    assert!(reader.next().unwrap().is_none());
    assert_eq!(names_and_sizes(gzip(&[])).unwrap(), vec![]);

    let mut reader = ArchiveReader::open(gzip(&[])).unwrap();
    let mut selection = select(&["wanted"]);
    assert!(unpack(&mut reader, &mut selection).unwrap().is_empty());
    assert_eq!(selection.names(), vec!["wanted".to_string()]);
}

#[test]
fn names_of_every_plane_come_back_as_they_went_in() {
    let names = [
        "plain.txt",
        "caf\u{e9}",
        "\u{65e5}\u{672c}\u{8a9e}.sub",
        "\u{1F600}",
        "a\u{1F600}b\u{10FFFF}c\u{10000}",
        "\u{D7FF}\u{E000}\u{FFFF}",
        "",
    ];
    let members: Vec<Entry> = names.iter().map(|n| entry(n, n.as_bytes())).collect();
    let archive = pack(&members).unwrap();
    let listed = names_and_sizes(archive.clone()).unwrap();
    assert_eq!(listed.len(), names.len());
    for (i, name) in names.iter().enumerate() {
        assert_eq!(listed[i].0, *name);
        assert_eq!(listed[i].1, name.len());
    }
    let mut reader = ArchiveReader::open(archive).unwrap();
    let mut selection = select(&["\u{1F600}"]);
    let entries = unpack(&mut reader, &mut selection).unwrap();
    assert_eq!(entries.len(), 1);
    assert_eq!(entries[0].name, "\u{1F600}");
    assert_eq!(entries[0].data, "\u{1F600}".as_bytes());
}

#[test]
fn reader_decodes_surrogate_pairs_written_by_hand() {
    // One unit for U+00E9, then the pair D83D DE00 for U+1F600.
    let raw = vec![3, 0, 0, 0, 0xE9, 0x00, 0x3D, 0xD8, 0x00, 0xDE, 1, 0, 0, 0, 0x7F];
    let mut reader = ArchiveReader::open(gzip(&raw)).unwrap();
    let mut member = reader.next().unwrap().unwrap();
    assert_eq!(member.name(), "\u{e9}\u{1F600}");
    assert_eq!(member.size(), 1);
    assert_eq!(member.read_to_end().unwrap(), vec![0x7F]);
}

#[test]
fn reader_reads_length_fields_low_byte_first() {
    let mut raw = vec![1, 0, 0, 0, b'n', 0, 0x02, 0x01, 0, 0];
    raw.extend_from_slice(&[5u8; 0x0102]);
    let mut reader = ArchiveReader::open(gzip(&raw)).unwrap();
    let member = reader.next().unwrap().unwrap();
    assert_eq!(member.name(), "n");
    assert_eq!(member.size(), 0x0102);
    assert_eq!(member.header.size, 258);
}

#[test]
fn name_with_a_lone_surrogate_is_invalid_data() {
    // A high surrogate with nothing behind it, and a low one on its own.
    for unit in [[0x3D, 0xD8], [0x00, 0xDE]] {
        let raw = vec![1, 0, 0, 0, unit[0], unit[1], 0, 0, 0, 0];
        let mut reader = ArchiveReader::open(gzip(&raw)).unwrap();
        let error = match reader.next() {
            Err(e) => e,
            Ok(_) => panic!("a lone surrogate was taken for a name"),
        };
        assert_eq!(error.kind(), ErrorKind::InvalidData);
        assert!(matches!(error, Error::InvalidData(_)));
        // The text is the one that the standard library gives for this unit.
        let lone = u16::from_le_bytes(unit);
        assert_eq!(error.message(), String::from_utf16(&[lone]).unwrap_err().to_string());
    }
    let raw = vec![1, 0, 0, 0, 0x3D, 0xD8, 0, 0, 0, 0];
    assert_eq!(names_and_sizes(gzip(&raw)).unwrap_err().kind(), ErrorKind::InvalidData);
}

#[test]
fn bytes_that_are_no_gzip_stream_are_refused_at_the_start() {
    let error = match ArchiveReader::open(b"this is not gzip".to_vec()) {
        Err(e) => e,
        Ok(_) => panic!("plain text was taken for a gzip stream"),
    };
    assert_eq!(error.kind(), ErrorKind::Io);
    assert!(matches!(error, Error::Io(_)));
    assert!(!error.message().is_empty());
    assert!(ArchiveReader::open(Vec::new()).is_err());
}

#[test]
fn failure_of_the_compression_layer_is_handed_on() {
    let members = vec![entry("a", &[7u8; 300]), entry("b", b"x")];
    let mut archive = pack(&members).unwrap();
    // The last eight bytes are the checksum and the length: spoil the checksum.
    let n = archive.len();
    archive[n - 8] ^= 0xFF;
    let error = names_and_sizes(archive.clone()).unwrap_err();
    assert_eq!(error.kind(), ErrorKind::Io);

    // A compressed stream that is cut off fails as well, and is not taken for a short archive.
    let cut = archive[..n - 12].to_vec();
    let mut reader = ArchiveReader::open(cut).unwrap();
    let mut everything = Selection::new();
    assert_eq!(unpack(&mut reader, &mut everything).unwrap_err().kind(), ErrorKind::Io);
}

#[test]
fn selection_is_a_set_of_names() {
    let mut selection = Selection::new();
    assert!(selection.is_empty());
    assert!(selection.insert("a".to_string()));
    assert!(selection.insert("b".to_string()));
    assert!(!selection.insert("a".to_string()));
    assert!(selection.contains("a"));
    assert!(!selection.contains("A"));
    assert_eq!(selection.names(), vec!["a".to_string(), "b".to_string()]);
    assert!(selection.remove("a"));
    assert!(!selection.remove("a"));
    assert!(!selection.contains("a"));
    assert_eq!(selection.names(), vec!["b".to_string()]);
    assert!(selection.remove("b"));
    assert!(selection.is_empty());
}

#[test]
fn errors_tell_their_kind_and_their_text() {
    assert_eq!(Error::Truncated.kind(), ErrorKind::Truncated);
    assert_eq!(Error::Truncated.message(), "EOF within archive member");
    assert_eq!(Error::NameTooLong.kind(), ErrorKind::NameTooLong);
    assert_eq!(Error::NameTooLong.message(), "Member name too long");
    assert_eq!(Error::BodyTooLarge.kind(), ErrorKind::BodyTooLarge);
    assert_eq!(Error::BodyTooLarge.message(), "Member too large");
    assert_eq!(Error::Unsupported.kind(), ErrorKind::Unsupported);
    assert_eq!(Error::Unsupported.message(), "Unimplemented");
    let inner = std::io::Error::new(std::io::ErrorKind::Other, "disk on fire");
    let outer = Error::Io(inner);
    assert_eq!(outer.kind(), ErrorKind::Io);
    assert_eq!(outer.message(), "disk on fire");
}

#[test]
fn invalid_data_carries_its_message() {
    let error = invalid_data("Expected something else");
    assert_eq!(error.kind(), ErrorKind::InvalidData);
    assert_eq!(error.message(), "Expected something else");
    match error {
        Error::InvalidData(message) => assert_eq!(message, "Expected something else"),
        _ => panic!("another kind of error"),
    }
}

#[test]
fn writer_takes_a_member_in_two_steps() {
    let mut writer = ArchiveWriter::new().unwrap();
    writer.add_name("one").unwrap();
    writer.add_body(b"1").unwrap();
    writer.add_name("\u{1F600}").unwrap();
    writer.add_body(&[]).unwrap();
    let archive = writer.finish().unwrap();
    let mut expected = member_bytes("one", b"1");
    expected.extend_from_slice(&member_bytes("\u{1F600}", b""));
    assert_eq!(gunzip(&archive), expected);
    assert_eq!(
        names_and_sizes(archive).unwrap(),
        vec![("one".to_string(), 1), ("\u{1F600}".to_string(), 0)]
    );
}

#[test]
fn wants_picks_every_member_or_the_named_ones() {
    let mut selection = select(&["a", "b"]);
    assert!(wants(false, &mut selection, "a"));
    assert!(!wants(false, &mut selection, "a"));
    assert!(!wants(false, &mut selection, "c"));
    assert_eq!(selection.names(), vec!["b".to_string()]);

    // With everything asked for, the set is left alone.
    assert!(wants(true, &mut selection, "b"));
    assert!(wants(true, &mut selection, "zzz"));
    assert_eq!(selection.names(), vec!["b".to_string()]);
}

#[test]
fn failed_extraction_has_taken_out_the_names_it_met_and_no_other() {
    let mut raw = member_bytes("A", b"aaa");
    raw.extend_from_slice(&member_bytes("B", b"bb"));
    raw.extend_from_slice(&member_bytes("C", &[9u8; 100])[..8 + 2 + 10]);
    let archive = gzip(&raw);

    // "C" is met and its body is short; "D" is never met.
    let mut reader = ArchiveReader::open(archive.clone()).unwrap();
    let mut selection = select(&["A", "C", "D"]);
    assert_eq!(unpack(&mut reader, &mut selection).unwrap_err().kind(), ErrorKind::Truncated);
    assert_eq!(selection.names(), vec!["D".to_string()]);

    // "C" is not asked for: the walk fails behind it, and "D" is still wanted.
    let mut reader = ArchiveReader::open(archive).unwrap();
    let mut selection = select(&["D", "B"]);
    assert_eq!(unpack(&mut reader, &mut selection).unwrap_err().kind(), ErrorKind::Truncated);
    assert_eq!(selection.names(), vec!["D".to_string()]);
}

#[test]
fn read_leaves_the_buffer_behind_the_bytes_read_as_it_was() {
    let members = vec![entry("m", b"abc"), entry("n", b"xyz")];
    let mut reader = ArchiveReader::open(pack(&members).unwrap()).unwrap();
    let mut member = reader.next().unwrap().unwrap();
    let mut buffer = [0x55u8; 8];
    let n = member.read(&mut buffer).unwrap();
    assert!(1 <= n && n <= 3);
    assert_eq!(&buffer[..n], &b"abc"[..n]);
    assert_eq!(&buffer[n..], &[0x55u8; 8][n..]);
    let rest = member.read_to_end().unwrap();
    assert_eq!(rest, &b"abc"[n..]);
    // The body is at its end: nothing is read and nothing is written.
    let mut buffer = [0x55u8; 8];
    assert_eq!(member.read(&mut buffer).unwrap(), 0);
    assert_eq!(buffer, [0x55u8; 8]);
}
