//! The archive reader: a forward-only cursor over the decoded byte stream of
//! an archive, which hands out one member at a time.
//!
//! The contracts speak of the reader through three spec functions:
//! `pending`, the decoded bytes that have not been consumed yet; `fails`,
//! whether the stream breaks off with a failure of the compression layer
//! after those bytes rather than ending in order; and `bytes_left`, the part
//! of the current member's body that is still unread.

use crate::error::{Error, ErrorKind};
use crate::gzip::Source;
use crate::stream::gzip_decoded;
use crate::utf16;
use crate::utf16::{string_from_utf16, utf16_error_text};
use crate::wire::{le_read_u16, le_read_u32, u16_from_le, u32_from_le, units_from_le};
use vstd::prelude::*;

verus! {

/// What stands at the front of a byte sequence that is read as a member header.
pub enum Parsed {
    /// The sequence is empty: no header, and none was begun.
    End,
    /// The sequence breaks off inside the header.
    Short,
    /// The name field is not UTF-16.
    BadName,
    /// A whole header, and the number of bytes that it takes.
    Header { name: Seq<char>, size: nat, consumed: nat },
}

/// Reads the front of `s` as a member header: a name length in code units,
/// the name in UTF-16, and the length of the body, all little-endian.
#[verifier::opaque]
pub open spec fn parse_header(s: Seq<u8>) -> Parsed {
    if s.len() == 0 {
        Parsed::End
    } else if s.len() < 4 {
        Parsed::Short
    } else {
        let n = u32_from_le(s.take(4));
        if s.len() < 4 + 2 * n {
            Parsed::Short
        } else {
            let units = units_from_le(s.subrange(4, 4 + 2 * n));
            if !utf16::is_valid(units) {
                Parsed::BadName
            } else if s.len() < 8 + 2 * n {
                Parsed::Short
            } else {
                Parsed::Header {
                    name: utf16::decode(units),
                    size: u32_from_le(s.subrange(4 + 2 * n, 8 + 2 * n)) as nat,
                    consumed: (8 + 2 * n) as nat,
                }
            }
        }
    }
}

/// A header takes at least the eight bytes of its two length fields, and
/// no more bytes than there are; and only of an empty sequence is there
/// nothing to read.
pub proof fn lemma_header_takes_bytes(s: Seq<u8>)
    ensures
        parse_header(s) matches Parsed::Header { consumed, .. } ==> 8 <= consumed <= s.len(),
        parse_header(s) is End <==> s.len() == 0,
{
    reveal(parse_header);
}

/// What a step to the next member comes to.
pub enum Step {
    /// The step fails with an error of this kind.
    Fail(ErrorKind),
    /// The archive has no further member.
    Done,
    /// The next member, and the pending bytes that begin with its body.
    Member { name: Seq<char>, size: nat, rest: Seq<u8> },
}

/// The kind of error that a stream gives where it stops too early: the
/// failure of the compression layer where there is one, truncation where
/// the stream simply ends.
pub open spec fn stop_kind(fails: bool) -> ErrorKind {
    if fails {
        ErrorKind::Io
    } else {
        ErrorKind::Truncated
    }
}

/// The step to the next member from a state of the reader: the unread rest
/// of the current body is passed over, then a header is read.
pub open spec fn next_step(pending: Seq<u8>, fails: bool, left: nat) -> Step {
    if pending.len() < left {
        Step::Fail(stop_kind(fails))
    } else {
        let s = pending.skip(left as int);
        match parse_header(s) {
            Parsed::End => if fails {
                Step::Fail(ErrorKind::Io)
            } else {
                Step::Done
            },
            Parsed::Short => Step::Fail(stop_kind(fails)),
            Parsed::BadName => Step::Fail(ErrorKind::InvalidData),
            Parsed::Header { name, size, consumed } => Step::Member {
                name,
                size,
                rest: s.skip(consumed as int),
            },
        }
    }
}

/// The name and the declared size of a member.
#[derive(Debug, PartialEq, Eq)]
pub struct Header {
    /// The member's name.
    pub name: String,
    /// The length of the member's body in bytes; it fits in 32 bits.
    pub size: usize,
}

/// A reader of an archive.
#[derive(Debug)]
pub struct ArchiveReader {
    /// The stream of the archive's decoded bytes.
    source: Source,
    /// The number of bytes of the current member's body that are still unread.
    member_bytes_left: usize,
}

/// A member of an archive, as a cursor into the reader that found it. While
/// a `Member` lives, the reader is borrowed: it can neither be advanced nor
/// read by any other way. Dropping the member early is in order; the reader
/// passes over what was left unread.
#[derive(Debug)]
pub struct Member<'a> {
    /// The member's name and declared size.
    pub header: Header,
    /// The reader, positioned inside this member's body.
    pub container: &'a mut ArchiveReader,
}

impl ArchiveReader {
    /// The decoded bytes that have not been consumed yet.
    pub closed spec fn pending(&self) -> Seq<u8> {
        self.source.pending()
    }

    /// Whether the stream fails after its pending bytes instead of ending.
    pub closed spec fn fails(&self) -> bool {
        self.source.fails()
    }

    /// The number of bytes of the current member's body that are still unread.
    pub closed spec fn bytes_left(&self) -> nat {
        self.member_bytes_left as nat
    }

    /// A reader of the archive that `compressed` holds as a gzip stream,
    /// positioned before the first member: what it has pending is what the
    /// compression layer makes of these bytes. Fails with `Io` where the
    /// compression layer rejects the start of the stream, and only there.
    pub fn open(compressed: Vec<u8>) -> (r: Result<ArchiveReader, Error>)
        ensures
            match r {
                Ok(reader) => {
                    &&& gzip_decoded(compressed@) == Some((reader.pending(), reader.fails()))
                    &&& reader.bytes_left() == 0
                },
                Err(e) => gzip_decoded(compressed@) is None && e.kind() == ErrorKind::Io,
            },
    {
        match Source::open(compressed) {
            Ok(source) => Ok(ArchiveReader { source, member_bytes_left: 0 }),
            Err(e) => Err(Error::Io(e)),
        }
    }

    /// Reads one 32-bit length field. At the very end of the stream there
    /// is no field, and the answer is `None`.
    fn read_u32(&mut self) -> (r: Result<Option<u32>, Error>)
        ensures
            final(self).bytes_left() == old(self).bytes_left(),
            match r {
                Ok(Some(n)) => {
                    &&& old(self).pending().len() >= 4
                    &&& n as int == u32_from_le(old(self).pending().take(4))
                    &&& final(self).pending() == old(self).pending().skip(4)
                    &&& final(self).fails() == old(self).fails()
                },
                Ok(None) => {
                    &&& old(self).pending().len() == 0
                    &&& !old(self).fails()
                    &&& final(self).pending() == old(self).pending()
                    &&& !final(self).fails()
                },
                Err(e) => {
                    &&& old(self).pending().len() < 4
                    &&& e.kind() == if old(self).pending().len() == 0 {
                        ErrorKind::Io
                    } else {
                        stop_kind(old(self).fails())
                    }
                    &&& old(self).pending().len() == 0 ==> old(self).fails()
                },
            },
    {
        let mut buffer = [0u8;4];
        match self.source.fill(&mut buffer) {
            Ok(k) => {
                if k == 0 {
                    assert(old(self).pending().skip(0) =~= old(self).pending());
                    Ok(None)
                } else if k < 4 {
                    Err(Error::Truncated)
                } else {
                    assert(buffer@ =~= buffer@.take(4));
                    Ok(Some(le_read_u32(&buffer)))
                }
            },
            Err(e) => Err(Error::Io(e)),
        }
    }

    /// Reads one UTF-16 code unit of a name.
    fn read_unit(&mut self) -> (r: Result<u16, Error>)
        ensures
            final(self).bytes_left() == old(self).bytes_left(),
            match r {
                Ok(u) => {
                    &&& old(self).pending().len() >= 2
                    &&& u == u16_from_le(old(self).pending().take(2))
                    &&& final(self).pending() == old(self).pending().skip(2)
                    &&& final(self).fails() == old(self).fails()
                },
                Err(e) => {
                    &&& old(self).pending().len() < 2
                    &&& e.kind() == stop_kind(old(self).fails())
                },
            },
    {
        let mut buffer = [0u8;2];
        match self.source.fill(&mut buffer) {
            Ok(k) => {
                if k < 2 {
                    Err(Error::Truncated)
                } else {
                    assert(buffer@ =~= buffer@.take(2));
                    Ok(le_read_u16(&buffer))
                }
            },
            Err(e) => Err(Error::Io(e)),
        }
    }

    /// Passes over what is left unread of the current member's body, in
    /// pieces of bounded size.
    fn finish_current_member(&mut self) -> (r: Result<(), Error>)
        ensures
            match r {
                Ok(()) => {
                    &&& old(self).bytes_left() <= old(self).pending().len()
                    &&& final(self).pending() == old(self).pending().skip(
                        old(self).bytes_left() as int,
                    )
                    &&& final(self).fails() == old(self).fails()
                    &&& final(self).bytes_left() == 0
                },
                Err(e) => {
                    &&& old(self).pending().len() < old(self).bytes_left()
                    &&& e.kind() == stop_kind(old(self).fails())
                },
            },
    {
        let mut buffer = [0u8;4096];
        let ghost start = self.pending();
        let ghost total = self.member_bytes_left;
        assert(start.skip(0) =~= start);
        while self.member_bytes_left != 0
            invariant
                buffer@.len() == 4096,
                start == old(self).pending(),
                total == old(self).bytes_left(),
                self.member_bytes_left <= total,
                total - self.member_bytes_left <= start.len(),
                self.pending() == start.skip(total - self.member_bytes_left),
                self.fails() == old(self).fails(),
            decreases self.member_bytes_left,
        {
            let to_read: usize = if self.member_bytes_left < 4096 {
                self.member_bytes_left
            } else {
                4096
            };
            match self.source.read(&mut buffer, 0, to_read) {
                Ok(k) => {
                    if k == 0 {
                        return Err(Error::Truncated);
                    }
                    assert(start.skip(total - self.member_bytes_left).skip(k as int)
                        =~= start.skip(total - self.member_bytes_left + k));
                    self.member_bytes_left = self.member_bytes_left - k;
                },
                Err(e) => {
                    return Err(Error::Io(e));
                },
            }
        }
        Ok(())
    }

    /// Reads the `count` code units of a name.
    fn read_name_units(&mut self, count: u32) -> (r: Result<Vec<u16>, Error>)
        ensures
            final(self).bytes_left() == old(self).bytes_left(),
            match r {
                Ok(units) => {
                    &&& old(self).pending().len() >= 2 * count
                    &&& units@ == units_from_le(old(self).pending().take(2 * count))
                    &&& final(self).pending() == old(self).pending().skip(2 * count)
                    &&& final(self).fails() == old(self).fails()
                },
                Err(e) => {
                    &&& old(self).pending().len() < 2 * count
                    &&& e.kind() == stop_kind(old(self).fails())
                },
            },
    {
        let mut units: Vec<u16> = Vec::new();
        let mut i: u32 = 0;
        let ghost start = self.pending();
        assert(start.skip(0) =~= start);
        assert(units@ =~= units_from_le(start.take(0)));
        while i < count
            invariant
                i <= count,
                start == old(self).pending(),
                2 * i <= start.len(),
                units@ == units_from_le(start.take(2 * i)),
                self.pending() == start.skip(2 * i),
                self.fails() == old(self).fails(),
                self.bytes_left() == old(self).bytes_left(),
            decreases count - i,
        {
            match self.read_unit() {
                Ok(u) => {
                    proof {
                        let a = start.take(2 * i);
                        let b = start.take(2 * i + 2);
                        assert(start.skip(2 * i).skip(2) =~= start.skip(2 * i + 2));
                        assert(start.skip(2 * i).take(2) =~= b.subrange(2 * i, 2 * i + 2));
                        assert forall|j: int| 0 <= j < i implies #[trigger] units_from_le(b)[j]
                            == units_from_le(a)[j] by {
                            assert(b.subrange(2 * j, 2 * j + 2) =~= a.subrange(2 * j, 2 * j + 2));
                        }
                        assert(units@.push(u) =~= units_from_le(b));
                    }
                    units.push(u);
                    i = i + 1;
                },
                Err(e) => {
                    return Err(e);
                },
            }
        }
        Ok(units)
    }

    /// Returns the next member of the archive, or `None` where there is
    /// none left.
    ///
    /// What the previous member's handle left unread of its body is passed
    /// over first. Then a header is read: the stream may end in order before
    /// its first byte, and nowhere else. A stream that stops inside the
    /// passed-over body or inside the header gives `Truncated`, or `Io` where
    /// the compression layer fails there; a name that is not UTF-16 gives
    /// `InvalidData`. After an error the reader is of no further use.
    pub fn next(&mut self) -> (r: Result<Option<Member<'_>>, Error>)
        ensures
            match next_step(old(self).pending(), old(self).fails(), old(self).bytes_left()) {
                Step::Fail(kind) => r matches Err(e) && e.kind() == kind,
                Step::Done => {
                    &&& r matches Ok(None)
                    &&& final(self).pending().len() == 0
                    &&& !final(self).fails()
                    &&& final(self).bytes_left() == 0
                },
                Step::Member { name, size, rest } => {
                    &&& r matches Ok(Some(member))
                    &&& member.header.name@ == name
                    &&& member.header.size == size
                    &&& member.container.pending() == rest
                    &&& member.container.fails() == old(self).fails()
                    &&& member.container.bytes_left() == size
                    &&& *final(self) == *final(member.container)
                },
            },
    {
        let ghost p0 = self.pending();
        let ghost left = self.bytes_left();
        proof {
            reveal(parse_header);
        }
        if self.member_bytes_left != 0 {
            match self.finish_current_member() {
                Ok(()) => {},
                Err(e) => {
                    return Err(e);
                },
            }
        } else {
            assert(p0.skip(0) =~= p0);
        }
        let ghost p1 = self.pending();
        assert(p1 == p0.skip(left as int));
        let name_length = match self.read_u32() {
            Ok(Some(n)) => n,
            Ok(None) => {
                return Ok(None);
            },
            Err(e) => {
                return Err(e);
            },
        };
        let ghost p2 = self.pending();
        let units = match self.read_name_units(name_length) {
            Ok(units) => units,
            Err(e) => {
                return Err(e);
            },
        };
        let ghost p3 = self.pending();
        proof {
            assert(p2.take(2 * name_length) =~= p1.subrange(4, 4 + 2 * name_length));
            assert(p3 =~= p1.skip(4 + 2 * name_length));
        }
        let name = match string_from_utf16(units.as_slice()) {
            Ok(name) => name,
            Err(e) => {
                return Err(Error::InvalidData(utf16_error_text(&e)));
            },
        };
        proof {
            assert(utf16::is_valid(units@));
            utf16::lemma_encode_injective(utf16::decode(units@), name@);
        }
        let size = match self.read_u32() {
            Ok(Some(n)) => n as usize,
            Ok(None) => {
                return Err(Error::Truncated);
            },
            Err(e) => {
                return Err(e);
            },
        };
        proof {
            assert(p3.take(4) =~= p1.subrange(4 + 2 * name_length, 8 + 2 * name_length));
            assert(p3.skip(4) =~= p1.skip(8 + 2 * name_length));
        }
        self.member_bytes_left = size;
        Ok(Some(Member { header: Header { name, size }, container: self }))
    }
}

impl<'a> Member<'a> {
    /// The member's name.
    pub fn name(&self) -> (name: &str)
        ensures
            name@ == self.header.name@,
    {
        self.header.name.as_str()
    }

    /// The declared length of the member's body in bytes.
    pub fn size(&self) -> (size: usize)
        ensures
            size == self.header.size,
    {
        self.header.size
    }

    /// Reads bytes of the member's body into the front of `buffer`, and
    /// returns how many it read: at least one, and no more than `buffer`
    /// holds or the body has left.
    ///
    /// With an empty `buffer`, or with the body read to its end, the answer
    /// is `Ok(0)` and nothing is asked of the stream. A stream that has
    /// nothing to give while the body has bytes left stops inside the
    /// member: that is `Truncated`, or `Io` where the compression layer fails.
    /// Of `buffer` only the bytes read are written: what stands behind them
    /// is as it was, and so is all of `buffer` after an error.
    pub fn read(&mut self, buffer: &mut [u8]) -> (r: Result<usize, Error>)
        ensures
            final(buffer)@.len() == old(buffer)@.len(),
            final(self).header == old(self).header,
            *final(final(self).container) == *final(old(self).container),
            match r {
                Ok(k) => {
                    &&& k <= old(buffer)@.len()
                    &&& k <= old(self).container.bytes_left()
                    &&& k <= old(self).container.pending().len()
                    &&& k == 0 <==> old(buffer)@.len() == 0 || old(self).container.bytes_left()
                        == 0
                    &&& final(buffer)@.take(k as int) == old(self).container.pending().take(
                        k as int,
                    )
                    &&& final(buffer)@.skip(k as int) == old(buffer)@.skip(k as int)
                    &&& k == 0 ==> final(buffer)@ == old(buffer)@
                    &&& final(self).container.pending() == old(self).container.pending().skip(
                        k as int,
                    )
                    &&& final(self).container.fails() == old(self).container.fails()
                    &&& final(self).container.bytes_left() == old(self).container.bytes_left() - k
                },
                Err(e) => {
                    &&& old(buffer)@.len() > 0
                    &&& old(self).container.bytes_left() > 0
                    &&& old(self).container.pending().len() == 0
                    &&& e.kind() == stop_kind(old(self).container.fails())
                    &&& final(buffer)@ == old(buffer)@
                },
            },
    {
        let to_read: usize = if buffer.len() < self.container.member_bytes_left {
            buffer.len()
        } else {
            self.container.member_bytes_left
        };
        if to_read == 0 {
            assert(self.container.pending().skip(0) =~= self.container.pending());
            assert(buffer@.take(0) =~= self.container.pending().take(0));
            assert(buffer@.skip(0) =~= buffer@);
            return Ok(0);
        }
        match self.container.source.read(buffer, 0, to_read) {
            Ok(k) => {
                if k == 0 {
                    assert(buffer@ =~= buffer@.skip(0));
                    assert(old(buffer)@ =~= old(buffer)@.skip(0));
                    return Err(Error::Truncated);
                }
                assert(buffer@.take(k as int) =~= buffer@.subrange(0, k as int));
                self.container.member_bytes_left = self.container.member_bytes_left - k;
                Ok(k)
            },
            Err(e) => Err(Error::Io(e)),
        }
    }

    /// Reads what is left of the member's body, to its end.
    ///
    /// A stream that stops before the body's end gives `Truncated`, or `Io`
    /// where the compression layer fails there.
    pub fn read_to_end(&mut self) -> (r: Result<Vec<u8>, Error>)
        ensures
            final(self).header == old(self).header,
            *final(final(self).container) == *final(old(self).container),
            match r {
                Ok(body) => {
                    &&& old(self).container.bytes_left() <= old(self).container.pending().len()
                    &&& body@ == old(self).container.pending().take(
                        old(self).container.bytes_left() as int,
                    )
                    &&& final(self).container.pending() == old(self).container.pending().skip(
                        old(self).container.bytes_left() as int,
                    )
                    &&& final(self).container.fails() == old(self).container.fails()
                    &&& final(self).container.bytes_left() == 0
                },
                Err(e) => {
                    &&& old(self).container.pending().len() < old(self).container.bytes_left()
                    &&& e.kind() == stop_kind(old(self).container.fails())
                },
            },
    {
        let mut buffer = [0u8;4096];
        let mut body: Vec<u8> = Vec::new();
        let ghost start = self.container.pending();
        let ghost total = self.container.bytes_left();
        assert(start.skip(0) =~= start);
        assert(body@ =~= start.take(0));
        loop
            invariant
                buffer@.len() == 4096,
                self.header == old(self).header,
                *final(self.container) == *final(old(self).container),
                start == old(self).container.pending(),
                total == old(self).container.bytes_left(),
                self.container.bytes_left() <= total,
                body@.len() == total - self.container.bytes_left(),
                body@.len() <= start.len(),
                body@ == start.take(body@.len() as int),
                self.container.pending() == start.skip(body@.len() as int),
                self.container.fails() == old(self).container.fails(),
            ensures
                self.container.bytes_left() == 0,
            decreases self.container.bytes_left(),
        {
            let k = match self.read(&mut buffer) {
                Ok(k) => k,
                Err(e) => {
                    return Err(e);
                },
            };
            if k == 0 {
                break ;
            }
            let ghost before = body@;
            let piece = vstd::slice::slice_subrange(&buffer, 0, k);
            body.extend_from_slice(piece);
            proof {
                let n = before.len() as int;
                assert(piece@ =~= buffer@.take(k as int));
                assert(body@ =~= before + piece@);
                assert(start.take(n + k) =~= start.take(n) + start.skip(n).take(k as int));
                assert(start.skip(n).skip(k as int) =~= start.skip(n + k));
            }
        }
        Ok(body)
    }
}

} // verus!
