//! Submarine files: a gzip stream that holds a byte-order mark and then an
//! XML document in UTF-8. This module frames and checks the bytes; reading
//! the document's elements is left to the caller.

use crate::error::{invalid_data, Error, ErrorKind};
use crate::gzip::{Sink, Source};
use crate::reader::stop_kind;
use crate::stream::gzip_decoded;
use vstd::prelude::*;
use vstd::utf8::{decode_utf8, encode_utf8, valid_utf8};

verus! {

/// Lets a `std::string::FromUtf8Error` travel through verified code as an
/// opaque value.
#[verifier::external_type_specification]
#[verifier::external_body]
pub struct ExFromUtf8Error(std::string::FromUtf8Error);

/// `String::from_utf8`: the text whose UTF-8 encoding the bytes are, or an
/// error where the bytes are not valid UTF-8.
#[verifier::external_body]
fn string_from_utf8(bytes: Vec<u8>) -> (r: Result<String, std::string::FromUtf8Error>)
    ensures
        match r {
            Ok(s) => encode_utf8(s@) == bytes@,
            Err(_) => !valid_utf8(bytes@),
        },
{
    String::from_utf8(bytes)
}

/// `ToString::to_string` of `std::string::FromUtf8Error`: the text that
/// the error displays. Nothing is claimed of the text.
#[verifier::external_body]
fn utf8_error_text(e: &std::string::FromUtf8Error) -> String {
    e.to_string()
}

/// A boolean that is written with a leading capital letter.
#[derive(Clone, Copy, Debug, PartialEq, Eq, Structural)]
pub struct CapitalBool(pub bool);

impl CapitalBool {
    /// How a value is written: `True` or `False`.
    pub open spec fn text(value: bool) -> Seq<char> {
        if value {
            "True"@
        } else {
            "False"@
        }
    }

    /// Reads `True` or `False`. Any other text, also one that differs only
    /// in the case of a letter, is refused with `InvalidData`.
    pub fn parse(s: &str) -> (r: Result<CapitalBool, Error>)
        ensures
            match r {
                Ok(b) => s@ == Self::text(b.0),
                Err(e) => s@ != "True"@ && s@ != "False"@ && e.kind() == ErrorKind::InvalidData,
            },
    {
        let given = s.to_owned();
        if given == "True".to_owned() {
            Ok(CapitalBool(true))
        } else if given == "False".to_owned() {
            Ok(CapitalBool(false))
        } else {
            Err(Error::InvalidData("Invalid CapitalBool value ".to_owned().concat(s)))
        }
    }

    /// How this value is written: `True` or `False`.
    pub fn as_str(&self) -> (s: &'static str)
        ensures
            s@ == Self::text(self.0),
    {
        if self.0 {
            "True"
        } else {
            "False"
        }
    }
}

impl std::str::FromStr for CapitalBool {
    type Err = Error;

    /// Reads `True` or `False`, as `CapitalBool::parse` does.
    fn from_str(s: &str) -> (r: Result<CapitalBool, Error>)
        ensures
            match r {
                Ok(b) => s@ == CapitalBool::text(b.0),
                Err(e) => s@ != "True"@ && s@ != "False"@ && e.kind() == ErrorKind::InvalidData,
            },
    {
        CapitalBool::parse(s)
    }
}

/// The byte-order mark that opens a submarine document.
pub open spec fn bom() -> Seq<u8> {
    seq![0xEFu8, 0xBBu8, 0xBFu8]
}

/// What reading a document from a stream comes to: the document's text, or
/// the kind of the first error on the way. The mark is read and checked
/// before anything behind it is looked at.
pub open spec fn document_outcome(pending: Seq<u8>, fails: bool) -> Result<Seq<char>, ErrorKind> {
    if pending.len() < 3 {
        Err(stop_kind(fails))
    } else if pending.take(3) != bom() {
        Err(ErrorKind::InvalidData)
    } else if fails {
        Err(ErrorKind::Io)
    } else if !valid_utf8(pending.skip(3)) {
        Err(ErrorKind::InvalidData)
    } else {
        Ok(decode_utf8(pending.skip(3)))
    }
}

/// Reads a document from a stream of decoded bytes: the byte-order mark,
/// then UTF-8 text up to the end of the stream.
pub fn read_document(source: &mut Source) -> (r: Result<String, Error>)
    ensures
        match document_outcome(old(source).pending(), old(source).fails()) {
            Ok(text) => r matches Ok(s) && s@ == text,
            Err(kind) => r matches Err(e) && e.kind() == kind,
        },
{
    let mut mark = [0u8;3];
    match source.fill(&mut mark) {
        Ok(k) => {
            if k < 3 {
                return Err(Error::Truncated);
            }
        },
        Err(e) => {
            return Err(Error::Io(e));
        },
    }
    assert(mark@ =~= mark@.take(3));
    if mark[0] != 0xEF || mark[1] != 0xBB || mark[2] != 0xBF {
        return Err(invalid_data("Expected UTF-8 BOM"));
    }
    assert(mark@ =~= bom());
    let bytes = match source.read_to_end() {
        Ok(bytes) => bytes,
        Err(e) => {
            return Err(Error::Io(e));
        },
    };
    match string_from_utf8(bytes) {
        Ok(text) => {
            proof {
                vstd::utf8::encode_utf8_valid_utf8(text@);
                vstd::utf8::encode_utf8_decode_utf8(text@);
            }
            Ok(text)
        },
        Err(e) => Err(Error::InvalidData(utf8_error_text(&e))),
    }
}

/// Writes a document to a stream of bytes to be compressed: the byte-order
/// mark, then the text in UTF-8.
pub fn write_document(sink: &mut Sink, text: &str) -> (r: Result<(), Error>)
    ensures
        match r {
            Ok(()) => final(sink).written() == old(sink).written() + bom() + encode_utf8(text@),
            Err(e) => e.kind() == ErrorKind::Io,
        },
{
    let mark = [0xEFu8, 0xBBu8, 0xBFu8];
    assert(mark@ =~= bom());
    match sink.write_all(&mark) {
        Ok(()) => {},
        Err(e) => {
            return Err(Error::Io(e));
        },
    }
    match sink.write_all(text.as_bytes()) {
        Ok(()) => Ok(()),
        Err(e) => Err(Error::Io(e)),
    }
}

/// A document comes back from the bytes that `write_document` writes for
/// it: read from a stream that holds them and ends in order, it is the
/// same text.
pub proof fn law_document_round_trip(text: Seq<char>)
    ensures
        document_outcome(bom() + encode_utf8(text), false) == Ok::<Seq<char>, ErrorKind>(text),
{
    let bytes = bom() + encode_utf8(text);
    assert(bytes.take(3) =~= bom());
    assert(bytes.skip(3) =~= encode_utf8(text));
    vstd::utf8::encode_utf8_valid_utf8(text);
    vstd::utf8::encode_utf8_decode_utf8(text);
}

/// What loading a document from compressed bytes comes to: `Io` where the
/// compression layer rejects the start of the bytes, else what reading the
/// document from the decoded stream comes to.
pub open spec fn load_outcome(compressed: Seq<u8>) -> Result<Seq<char>, ErrorKind> {
    match gzip_decoded(compressed) {
        None => Err(ErrorKind::Io),
        Some((pending, fails)) => document_outcome(pending, fails),
    }
}

/// Opens the gzip stream that `compressed` holds and reads the document in
/// it, as `read_document` says. Fails with `Io` where the compression layer
/// rejects the start of the stream.
pub fn load_document(compressed: Vec<u8>) -> (r: Result<String, Error>)
    ensures
        match load_outcome(compressed@) {
            Ok(text) => r matches Ok(s) && s@ == text,
            Err(kind) => r matches Err(e) && e.kind() == kind,
        },
{
    let mut source = match Source::open(compressed) {
        Ok(source) => source,
        Err(e) => {
            return Err(Error::Io(e));
        },
    };
    read_document(&mut source)
}

/// Writes a document into a new gzip stream, as `write_document` says, and
/// returns the stream: one that the compression layer decodes, without
/// failure, to the byte-order mark and the text in UTF-8. Nothing but the
/// compression layer can fail.
pub fn save_document(text: &str) -> (r: Result<Vec<u8>, Error>)
    ensures
        match r {
            Ok(out) => gzip_decoded(out@) == Some((bom() + encode_utf8(text@), false)),
            Err(e) => e.kind() == ErrorKind::Io,
        },
{
    let mut sink = match Sink::new() {
        Ok(sink) => sink,
        Err(e) => {
            return Err(Error::Io(e));
        },
    };
    match write_document(&mut sink, text) {
        Ok(()) => {},
        Err(e) => {
            return Err(e);
        },
    }
    assert(Seq::<u8>::empty() + bom() + encode_utf8(text@) =~= bom() + encode_utf8(text@));
    match sink.finish() {
        Ok(compressed) => Ok(compressed),
        Err(e) => Err(Error::Io(e)),
    }
}

/// Removes all items from inside all containers of the submarine file of
/// this name. Not available: every call is refused with `Unsupported`, and
/// the file is not looked at.
pub fn clear_containers(filename: &str, verbose: bool) -> (r: Result<(), Error>)
    ensures
        r matches Err(e) && e.kind() == ErrorKind::Unsupported,
{
    Err(Error::Unsupported)
}

/// Summarises the containers of the submarine file of this name. Not
/// available: every call is refused with `Unsupported`, and the file is not
/// looked at.
pub fn list_containers(filename: &str, verbose: bool) -> (r: Result<(), Error>)
    ensures
        r matches Err(e) && e.kind() == ErrorKind::Unsupported,
{
    Err(Error::Unsupported)
}

} // verus!
