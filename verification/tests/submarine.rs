use barotool::error::ErrorKind;
use barotool::submarine::{
    clear_containers, list_containers, load_document, save_document, CapitalBool,
};
use std::io::{Read, Write};
use std::str::FromStr;

fn compress(raw: &[u8]) -> Vec<u8> {
    let mut encoder = libflate::gzip::Encoder::new(Vec::new()).unwrap();
    encoder.write_all(raw).unwrap();
    encoder.finish().into_result().unwrap()
}

fn decompress(compressed: &[u8]) -> Vec<u8> {
    let mut decoder = libflate::gzip::Decoder::new(compressed).unwrap();
    let mut raw = Vec::new();
    decoder.read_to_end(&mut raw).unwrap();
    raw
}

#[test]
fn capital_bool_reads_true_and_false_with_a_capital() {
    assert_eq!(CapitalBool::parse("True").unwrap(), CapitalBool(true));
    assert_eq!(CapitalBool::parse("False").unwrap(), CapitalBool(false));
    assert_eq!(CapitalBool::from_str("True").unwrap(), CapitalBool(true));
    assert_eq!("False".parse::<CapitalBool>().unwrap(), CapitalBool(false));
}

#[test]
fn capital_bool_refuses_everything_else() {
    for text in ["true", "false", "TRUE", "", "True ", " False", "1", "Truee"] {
        let error = CapitalBool::parse(text).unwrap_err();
        assert_eq!(error.kind(), ErrorKind::InvalidData);
        assert_eq!(error.message(), format!("Invalid CapitalBool value {}", text));
    }
}

#[test]
fn capital_bool_writes_true_and_false_with_a_capital() {
    assert_eq!(CapitalBool(true).as_str(), "True");
    assert_eq!(CapitalBool(false).as_str(), "False");
    for value in [true, false] {
        assert_eq!(CapitalBool::parse(CapitalBool(value).as_str()).unwrap(), CapitalBool(value));
    }
}

#[test]
fn saved_document_is_the_mark_and_the_text() {
    let compressed = save_document("<Submarine name=\"x\"/>").unwrap();
    let mut expected = vec![0xEF, 0xBB, 0xBF];
    expected.extend_from_slice(b"<Submarine name=\"x\"/>");
    assert_eq!(decompress(&compressed), expected);
}

#[test]
fn saved_document_loads_again() {
    for text in ["", "<Submarine/>", "<Submarine name=\"caf\u{e9} \u{1F600}\"/>\n"] {
        assert_eq!(load_document(save_document(text).unwrap()).unwrap(), text);
    }
}

#[test]
fn document_without_the_mark_is_invalid_data() {
    let error = load_document(compress(b"<Submarine/>")).unwrap_err();
    assert_eq!(error.kind(), ErrorKind::InvalidData);
    assert_eq!(error.message(), "Expected UTF-8 BOM");
    let error = load_document(compress(&[0xEF, 0xBB, 0xBE, b'<'])).unwrap_err();
    assert_eq!(error.kind(), ErrorKind::InvalidData);
}

#[test]
fn document_shorter_than_the_mark_is_truncated() {
    for raw in [&[][..], &[0xEF][..], &[0xEF, 0xBB][..]] {
        assert_eq!(load_document(compress(raw)).unwrap_err().kind(), ErrorKind::Truncated);
    }
    assert_eq!(load_document(compress(&[0xEF, 0xBB, 0xBF])).unwrap(), "");
}

#[test]
fn document_that_is_not_utf8_is_invalid_data() {
    let error = load_document(compress(&[0xEF, 0xBB, 0xBF, b'a', 0xFF, b'b'])).unwrap_err();
    assert_eq!(error.kind(), ErrorKind::InvalidData);
    // The text is the one that the standard library gives for these bytes.
    let expected = String::from_utf8(vec![b'a', 0xFF, b'b']).unwrap_err().to_string();
    assert_eq!(error.message(), expected);
    // A character that is cut off in its middle.
    let error = load_document(compress(&[0xEF, 0xBB, 0xBF, 0xC3])).unwrap_err();
    assert_eq!(error.kind(), ErrorKind::InvalidData);
}

#[test]
fn document_in_a_broken_stream_is_an_io_error() {
    assert_eq!(load_document(b"no gzip here".to_vec()).unwrap_err().kind(), ErrorKind::Io);
    let mut compressed = save_document("<Submarine/>").unwrap();
    let n = compressed.len();
    compressed[n - 8] ^= 0xFF;
    assert_eq!(load_document(compressed).unwrap_err().kind(), ErrorKind::Io);
}

#[test]
fn container_commands_are_not_available() {
    let error = clear_containers("no/such/file.sub", false).unwrap_err();
    assert_eq!(error.kind(), ErrorKind::Unsupported);
    assert_eq!(error.message(), "Unimplemented");
    let error = list_containers("no/such/file.sub", true).unwrap_err();
    assert_eq!(error.kind(), ErrorKind::Unsupported);
    assert_eq!(error.message(), "Unimplemented");
}
