//! The archive writer: members go in one by one, are framed as the format
//! says, and are handed to the compression layer.

use crate::error::{Error, ErrorKind};
use crate::format::{
    all_fit, body_fits, encode_archive, encode_member, encode_name, entries_model,
    lemma_encode_archive_push, name_fits, Entry,
};
use crate::gzip::Sink;
use crate::stream::gzip_decoded;
use crate::utf16;
use crate::utf16::str_encode_utf16;
use crate::wire::{
    le_write_u16, le_write_u32, lemma_units_to_le_push, u32_to_le, units_to_le, FIELD_MAX,
};
use vstd::prelude::*;

verus! {

/// The name field of a member: the number of UTF-16 code units of `name`,
/// then the units. A name with more units than 32 bits can count is refused
/// with `NameTooLong`.
pub fn name_field(name: &str) -> (r: Result<Vec<u8>, Error>)
    ensures
        match r {
            Ok(bytes) => name_fits(name@) && bytes@ == encode_name(name@),
            Err(e) => !name_fits(name@) && e.kind() == ErrorKind::NameTooLong,
        },
{
    let units = str_encode_utf16(name);
    if units.len() > FIELD_MAX {
        return Err(Error::NameTooLong);
    }
    let mut bytes: Vec<u8> = Vec::new();
    let mut field = [0u8;4];
    le_write_u32(&mut field, units.len() as u32);
    bytes.extend_from_slice(&field);
    assert(bytes@ =~= u32_to_le(units@.len() as int) + units_to_le(units@.take(0)));
    let mut i: usize = 0;
    while i < units.len()
        invariant
            i <= units.len(),
            bytes@ == u32_to_le(units@.len() as int) + units_to_le(units@.take(i as int)),
        decreases units.len() - i,
    {
        let mut pair = [0u8;2];
        le_write_u16(&mut pair, units[i]);
        let ghost before = bytes@;
        bytes.extend_from_slice(&pair);
        proof {
            lemma_units_to_le_push(units@.take(i as int), units[i as int]);
            assert(units@.take(i as int).push(units[i as int]) =~= units@.take(i + 1));
            assert(bytes@ =~= before + pair@);
            assert(bytes@ =~= u32_to_le(units@.len() as int) + units_to_le(units@.take(i + 1)));
        }
        i = i + 1;
    }
    assert(units@.take(units.len() as int) =~= units@);
    Ok(bytes)
}

/// The size field of a member whose body has `len` bytes. A length that
/// 32 bits cannot hold is refused with `BodyTooLarge`.
pub fn size_field(len: usize) -> (r: Result<Vec<u8>, Error>)
    ensures
        match r {
            Ok(bytes) => len <= 0xFFFF_FFFF && bytes@ == u32_to_le(len as int),
            Err(e) => len > 0xFFFF_FFFF && e.kind() == ErrorKind::BodyTooLarge,
        },
{
    if len > FIELD_MAX {
        return Err(Error::BodyTooLarge);
    }
    let mut bytes: Vec<u8> = Vec::new();
    let mut field = [0u8;4];
    le_write_u32(&mut field, len as u32);
    bytes.extend_from_slice(&field);
    assert(bytes@ =~= field@);
    Ok(bytes)
}

/// Whether member `i` of a list is the first that does not fit the
/// format's length fields.
pub open spec fn is_first_misfit(members: Seq<(Seq<char>, Seq<u8>)>, i: int) -> bool {
    &&& 0 <= i < members.len()
    &&& !(name_fits(members[i].0) && body_fits(members[i].1))
    &&& all_fit(members.take(i))
}

/// The kind of error that a member which does not fit is refused with. The
/// name is looked at first.
pub open spec fn misfit_kind(member: (Seq<char>, Seq<u8>)) -> ErrorKind {
    if !name_fits(member.0) {
        ErrorKind::NameTooLong
    } else {
        ErrorKind::BodyTooLarge
    }
}

/// What of a member that does not fit has gone to the stream when it is
/// refused: nothing where the name is too long, the name field where only
/// the body is too large.
pub open spec fn misfit_written(member: (Seq<char>, Seq<u8>)) -> Seq<u8> {
    if !name_fits(member.0) {
        Seq::empty()
    } else {
        encode_name(member.0)
    }
}

/// A writer of an archive. What it is given goes through a gzip encoder
/// into memory; `finish` hands out the compressed archive.
pub struct ArchiveWriter {
    /// The stream that takes the archive's bytes.
    sink: Sink,
}

impl ArchiveWriter {
    /// The bytes of the archive that have been handed to the compression
    /// layer so far.
    pub closed spec fn written(&self) -> Seq<u8> {
        self.sink.written()
    }

    /// A writer of a new, empty archive.
    pub fn new() -> (r: Result<ArchiveWriter, Error>)
        ensures
            match r {
                Ok(writer) => writer.written() == Seq::<u8>::empty(),
                Err(e) => e.kind() == ErrorKind::Io,
            },
    {
        match Sink::new() {
            Ok(sink) => Ok(ArchiveWriter { sink }),
            Err(e) => Err(Error::Io(e)),
        }
    }

    /// Hands `bytes` to the compression layer.
    fn write_all(&mut self, bytes: &[u8]) -> (r: Result<(), Error>)
        ensures
            match r {
                Ok(()) => final(self).written() == old(self).written() + bytes@,
                Err(e) => e.kind() == ErrorKind::Io,
            },
    {
        match self.sink.write_all(bytes) {
            Ok(()) => Ok(()),
            Err(e) => Err(Error::Io(e)),
        }
    }

    /// Begins a member: writes its name field.
    ///
    /// A name that is too long is refused with `NameTooLong` before
    /// anything is written or asked of the compression layer. The body is
    /// owed next, by `add_body`.
    pub fn add_name(&mut self, name: &str) -> (r: Result<(), Error>)
        ensures
            !name_fits(name@) ==> (r matches Err(e) && e.kind() == ErrorKind::NameTooLong
                && final(self).written() == old(self).written()),
            match r {
                Ok(()) => {
                    &&& name_fits(name@)
                    &&& final(self).written() == old(self).written() + encode_name(name@)
                },
                Err(e) => e.kind() == ErrorKind::Io && name_fits(name@) || {
                    &&& !name_fits(name@)
                    &&& e.kind() == ErrorKind::NameTooLong
                    &&& final(self).written() == old(self).written()
                },
            },
    {
        let name_bytes = match name_field(name) {
            Ok(bytes) => bytes,
            Err(e) => {
                return Err(e);
            },
        };
        self.write_all(name_bytes.as_slice())
    }

    /// Ends a member that `add_name` began: writes the length of its body,
    /// then the body.
    ///
    /// A body that is too large is refused with `BodyTooLarge` before
    /// anything is written or asked of the compression layer.
    pub fn add_body(&mut self, data: &[u8]) -> (r: Result<(), Error>)
        ensures
            !body_fits(data@) ==> (r matches Err(e) && e.kind() == ErrorKind::BodyTooLarge
                && final(self).written() == old(self).written()),
            match r {
                Ok(()) => {
                    &&& body_fits(data@)
                    &&& final(self).written() == old(self).written() + u32_to_le(
                        data@.len() as int,
                    ) + data@
                },
                Err(e) => e.kind() == ErrorKind::Io && body_fits(data@) || {
                    &&& !body_fits(data@)
                    &&& e.kind() == ErrorKind::BodyTooLarge
                    &&& final(self).written() == old(self).written()
                },
            },
    {
        let size_bytes = match size_field(data.len()) {
            Ok(bytes) => bytes,
            Err(e) => {
                return Err(e);
            },
        };
        match self.write_all(size_bytes.as_slice()) {
            Ok(()) => {},
            Err(e) => {
                return Err(e);
            },
        }
        self.write_all(data)
    }

    /// Adds one member to the archive: its name field, then the length of
    /// its body, then the body.
    ///
    /// A name that is too long is refused before anything is written or
    /// asked of the compression layer. A body that is too large is refused
    /// when the name field has been written. A member that fits is written
    /// whole, unless the compression layer fails.
    pub fn add(&mut self, name: &str, data: &[u8]) -> (r: Result<(), Error>)
        ensures
            !name_fits(name@) ==> (r matches Err(e) && e.kind() == ErrorKind::NameTooLong
                && final(self).written() == old(self).written()),
            match r {
                Ok(()) => {
                    &&& name_fits(name@)
                    &&& body_fits(data@)
                    &&& final(self).written() == old(self).written() + encode_member(name@, data@)
                },
                Err(e) => e.kind() == ErrorKind::Io && name_fits(name@) || {
                    &&& !(name_fits(name@) && body_fits(data@))
                    &&& e.kind() == misfit_kind((name@, data@))
                    &&& final(self).written() == old(self).written() + misfit_written(
                        (name@, data@),
                    )
                },
            },
    {
        match self.add_name(name) {
            Ok(()) => {},
            Err(e) => {
                assert(self.written() + Seq::<u8>::empty() =~= self.written());
                return Err(e);
            },
        }
        match self.add_body(data) {
            Ok(()) => {},
            Err(e) => {
                return Err(e);
            },
        }
        assert(self.written() =~= old(self).written() + encode_member(name@, data@));
        Ok(())
    }

    /// Adds the members of a list to the archive, in the list's order.
    ///
    /// The first member that does not fit ends the work with its error; the
    /// members before it stay written. An empty list is always added, and a
    /// list whose first name is too long is always refused with
    /// `NameTooLong`: the compression layer has no say in either.
    pub fn add_all(&mut self, members: &[Entry]) -> (r: Result<(), Error>)
        ensures
            members@.len() == 0 ==> r is Ok,
            members@.len() > 0 && !name_fits(members@[0].name@) ==> (r matches Err(e) && e.kind()
                == ErrorKind::NameTooLong && final(self).written() == old(self).written()),
            match r {
                Ok(()) => {
                    &&& all_fit(entries_model(members@))
                    &&& final(self).written() == old(self).written() + encode_archive(
                        entries_model(members@),
                    )
                },
                Err(e) => e.kind() == ErrorKind::Io || exists|i: int|
                    {
                        &&& #[trigger] is_first_misfit(entries_model(members@), i)
                        &&& e.kind() == misfit_kind(entries_model(members@)[i])
                        &&& final(self).written() == old(self).written() + encode_archive(
                            entries_model(members@).take(i),
                        ) + misfit_written(entries_model(members@)[i])
                    },
            },
    {
        let ghost model = entries_model(members@);
        let mut i: usize = 0;
        assert(model.take(0) =~= Seq::<(Seq<char>, Seq<u8>)>::empty());
        assert(self.written() + encode_archive(model.take(0)) =~= self.written());
        while i < members.len()
            invariant
                i <= members.len(),
                model == entries_model(members@),
                all_fit(model.take(i as int)),
                self.written() == old(self).written() + encode_archive(model.take(i as int)),
                i == 0 ==> self.written() == old(self).written(),
            decreases members.len() - i,
        {
            let ghost before = self.written();
            let entry = &members[i];
            assert(model[i as int] == (entry.name@, entry.data@));
            match self.add(entry.name.as_str(), entry.data.as_slice()) {
                Ok(()) => {
                    proof {
                        lemma_encode_archive_push(model.take(i as int), model[i as int]);
                        assert(model.take(i as int).push(model[i as int]) =~= model.take(i + 1));
                    }
                },
                Err(e) => {
                    proof {
                        if e.kind() != ErrorKind::Io {
                            assert(is_first_misfit(model, i as int));
                        }
                    }
                    return Err(e);
                },
            }
            i = i + 1;
        }
        assert(model.take(members.len() as int) =~= model);
        Ok(())
    }

    /// Closes the archive and returns it compressed: the compression layer
    /// writes what it still holds, and its trailer. The returned stream is
    /// one that the compression layer decodes, without failure, to what was
    /// written.
    pub fn finish(self) -> (r: Result<Vec<u8>, Error>)
        ensures
            match r {
                Ok(out) => gzip_decoded(out@) == Some((self.written(), false)),
                Err(e) => e.kind() == ErrorKind::Io,
            },
    {
        match self.sink.finish() {
            Ok(compressed) => Ok(compressed),
            Err(e) => Err(Error::Io(e)),
        }
    }
}

/// Packs a list of members into a new archive and returns it compressed.
///
/// The members are written in the list's order. On success the returned
/// bytes are a gzip stream that the compression layer decodes, without
/// failure, to the members' archive. The first member that does not fit the
/// format's length fields ends the work with `NameTooLong` or
/// `BodyTooLarge`; nothing else but a failure of the compression layer does.
pub fn pack(members: &[Entry]) -> (r: Result<Vec<u8>, Error>)
    ensures
        match r {
            Ok(out) => {
                &&& all_fit(entries_model(members@))
                &&& gzip_decoded(out@) == Some((encode_archive(entries_model(members@)), false))
            },
            Err(e) => e.kind() == ErrorKind::Io || exists|i: int|
                {
                    &&& #[trigger] is_first_misfit(entries_model(members@), i)
                    &&& e.kind() == misfit_kind(entries_model(members@)[i])
                },
        },
{
    let mut writer = match ArchiveWriter::new() {
        Ok(writer) => writer,
        Err(e) => {
            return Err(e);
        },
    };
    match writer.add_all(members) {
        Ok(()) => {},
        Err(e) => {
            return Err(e);
        },
    }
    assert(Seq::<u8>::empty() + encode_archive(entries_model(members@)) =~= encode_archive(
        entries_model(members@),
    ));
    writer.finish()
}

} // verus!
