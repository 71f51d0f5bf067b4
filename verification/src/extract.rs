//! Walking an archive from its first member to its last: listing what it
//! holds, and extracting the members that are asked for.

use crate::error::{Error, ErrorKind};
use crate::format::{entries_model, Entry};
use crate::reader::{
    lemma_header_takes_bytes, next_step, stop_kind, ArchiveReader, Header, Step,
};
use crate::selection::Selection;
use vstd::prelude::*;

verus! {

/// A list of headers as a sequence of pairs of a name and a size.
pub open spec fn headers_model(headers: Seq<Header>) -> Seq<(Seq<char>, nat)> {
    headers.map_values(|h: Header| (h.name@, h.size as nat))
}

/// What listing comes to, from a state of the reader: the names and sizes of
/// the members that remain, in the archive's order, or the kind of the first
/// error on the way.
pub open spec fn list_outcome(pending: Seq<u8>, fails: bool, left: nat) -> Result<
    Seq<(Seq<char>, nat)>,
    ErrorKind,
>
    decreases pending.len(),
{
    proof {
        lemma_header_takes_bytes(pending.skip(left as int));
    }
    match next_step(pending, fails, left) {
        Step::Fail(kind) => Err(kind),
        Step::Done => Ok(Seq::empty()),
        Step::Member { name, size, rest } => match list_outcome(rest, fails, size) {
            Ok(others) => Ok(seq![(name, size)] + others),
            Err(kind) => Err(kind),
        },
    }
}

/// What an extraction comes to, from a state of the reader and a set of
/// wanted names: the extracted members in the archive's order together with
/// the names that were wanted and not found, or the kind of the first error
/// on the way.
///
/// With `all` set, every member is extracted. Otherwise a member is
/// extracted where its name is wanted, and the name is then wanted no more:
/// a later member of the same name is passed over.
pub open spec fn unpack_outcome(
    pending: Seq<u8>,
    fails: bool,
    left: nat,
    wanted: Set<Seq<char>>,
    all: bool,
) -> Result<(Seq<(Seq<char>, Seq<u8>)>, Set<Seq<char>>), ErrorKind>
    decreases pending.len(),
{
    proof {
        lemma_header_takes_bytes(pending.skip(left as int));
    }
    match next_step(pending, fails, left) {
        Step::Fail(kind) => Err(kind),
        Step::Done => Ok((Seq::empty(), wanted)),
        Step::Member { name, size, rest } => if all || wanted.contains(name) {
            if rest.len() < size {
                Err(stop_kind(fails))
            } else {
                match unpack_outcome(rest.skip(size as int), fails, 0, wanted.remove(name), all) {
                    Ok((others, missing)) => Ok((seq![(name, rest.take(size as int))] + others, missing)),
                    Err(kind) => Err(kind),
                }
            }
        } else {
            unpack_outcome(rest, fails, size, wanted, all)
        },
    }
}

/// The names that are still wanted when an extraction ends, be it at the
/// end of the archive or at an error. A name is taken out of the set when a
/// member of that name is picked, before its body is read, and at no
/// other time.
pub open spec fn unpack_left(
    pending: Seq<u8>,
    fails: bool,
    left: nat,
    wanted: Set<Seq<char>>,
    all: bool,
) -> Set<Seq<char>>
    decreases pending.len(),
{
    proof {
        lemma_header_takes_bytes(pending.skip(left as int));
    }
    match next_step(pending, fails, left) {
        Step::Fail(_) => wanted,
        Step::Done => wanted,
        Step::Member { name, size, rest } => if all || wanted.contains(name) {
            if rest.len() < size {
                wanted.remove(name)
            } else {
                unpack_left(rest.skip(size as int), fails, 0, wanted.remove(name), all)
            }
        } else {
            unpack_left(rest, fails, size, wanted, all)
        },
    }
}

/// Where an extraction succeeds, the names that are still wanted at its end
/// are the names that it reports as not found.
pub proof fn lemma_left_is_missing(
    pending: Seq<u8>,
    fails: bool,
    left: nat,
    wanted: Set<Seq<char>>,
    all: bool,
)
    ensures
        unpack_outcome(pending, fails, left, wanted, all) matches Ok((_, missing)) ==> unpack_left(
            pending,
            fails,
            left,
            wanted,
            all,
        ) == missing,
        unpack_left(pending, fails, left, wanted, all).subset_of(wanted),
    decreases pending.len(),
{
    lemma_header_takes_bytes(pending.skip(left as int));
    match next_step(pending, fails, left) {
        Step::Member { name, size, rest } => {
            if all || wanted.contains(name) {
                if rest.len() >= size {
                    lemma_left_is_missing(rest.skip(size as int), fails, 0, wanted.remove(name), all);
                }
            } else {
                lemma_left_is_missing(rest, fails, size, wanted, all);
            }
        },
        _ => {},
    }
}

/// The outcome of a walk that has already gathered `done` and goes on to `rest`.
pub open spec fn after_listed(
    done: Seq<(Seq<char>, nat)>,
    rest: Result<Seq<(Seq<char>, nat)>, ErrorKind>,
) -> Result<Seq<(Seq<char>, nat)>, ErrorKind> {
    match rest {
        Ok(others) => Ok(done + others),
        Err(kind) => Err(kind),
    }
}

/// The outcome of an extraction that has already gathered `done` and goes on
/// to `rest`.
pub open spec fn after_unpacked(
    done: Seq<(Seq<char>, Seq<u8>)>,
    rest: Result<(Seq<(Seq<char>, Seq<u8>)>, Set<Seq<char>>), ErrorKind>,
) -> Result<(Seq<(Seq<char>, Seq<u8>)>, Set<Seq<char>>), ErrorKind> {
    match rest {
        Ok((others, missing)) => Ok((done + others, missing)),
        Err(kind) => Err(kind),
    }
}

/// Lists the members that remain in an archive: the name and the declared
/// size of each, in the archive's order.
///
/// No body is read: the reader passes over each on its way to the next
/// header. On success the reader stands at the end of the archive.
pub fn list(reader: &mut ArchiveReader) -> (r: Result<Vec<Header>, Error>)
    ensures
        match list_outcome(old(reader).pending(), old(reader).fails(), old(reader).bytes_left()) {
            Ok(members) => {
                &&& r matches Ok(headers)
                &&& headers_model(headers@) == members
                &&& final(reader).pending().len() == 0
                &&& !final(reader).fails()
                &&& final(reader).bytes_left() == 0
            },
            Err(kind) => r matches Err(e) && e.kind() == kind,
        },
{
    let mut headers: Vec<Header> = Vec::new();
    let ghost whole = list_outcome(reader.pending(), reader.fails(), reader.bytes_left());
    assert(headers_model(headers@) + Seq::<(Seq<char>, nat)>::empty() =~= headers_model(headers@));
    assert(headers_model(headers@) =~= Seq::<(Seq<char>, nat)>::empty());
    loop
        invariant
            whole == list_outcome(
                old(reader).pending(),
                old(reader).fails(),
                old(reader).bytes_left(),
            ),
            whole == after_listed(
                headers_model(headers@),
                list_outcome(reader.pending(), reader.fails(), reader.bytes_left()),
            ),
        ensures
            whole == Ok::<Seq<(Seq<char>, nat)>, ErrorKind>(headers_model(headers@)),
            reader.pending().len() == 0,
            !reader.fails(),
            reader.bytes_left() == 0,
        decreases reader.pending().len(),
    {
        let ghost before = headers_model(headers@);
        let ghost step = next_step(reader.pending(), reader.fails(), reader.bytes_left());
        let ghost length = reader.pending().len();
        proof {
            lemma_header_takes_bytes(reader.pending().skip(reader.bytes_left() as int));
        }
        match reader.next() {
            Ok(Some(member)) => {
                let header = Header { name: member.header.name.clone(), size: member.header.size };
                proof {
                    let pair = (header.name@, header.size as nat);
                    assert(headers_model(headers@.push(header)) =~= before.push(pair));
                    assert(step matches Step::Member { name, size, rest } && rest.len() < length);
                    match list_outcome(
                        member.container.pending(),
                        member.container.fails(),
                        member.container.bytes_left(),
                    ) {
                        Ok(others) => {
                            assert(before.push(pair) + others =~= before + (seq![pair] + others));
                        },
                        Err(_) => {},
                    }
                }
                headers.push(header);
            },
            Ok(None) => {
                proof {
                    lemma_header_takes_bytes(reader.pending().skip(0));
                    assert(before + Seq::<(Seq<char>, nat)>::empty() =~= before);
                }
                break ;
            },
            Err(e) => {
                return Err(e);
            },
        }
    }
    Ok(headers)
}

/// Decides whether the member of this name is extracted. With `extract_all`
/// set every member is, and the set is left alone; otherwise a member is
/// extracted where the set holds its name, and the name is taken out.
pub fn wants(extract_all: bool, members: &mut Selection, name: &str) -> (chosen: bool)
    ensures
        chosen == (extract_all || old(members)@.contains(name@)),
        final(members)@ == if extract_all {
            old(members)@
        } else {
            old(members)@.remove(name@)
        },
{
    if extract_all {
        true
    } else {
        members.remove(name)
    }
}

/// Extracts members from what remains of an archive, each with its whole body.
///
/// With `members` empty on entry, every member is extracted. Otherwise a
/// member is extracted where `members` holds its name, and the name is taken
/// out of the set; every other member is passed over without reading its
/// body. On success the extracted members come back in the archive's order,
/// `members` holds the names that were asked for and never met, and the
/// reader stands at the end of the archive. That a name is left over is no
/// error. Where the walk fails, `members` has lost the names of the members
/// that were picked up to there, and no other.
pub fn unpack(reader: &mut ArchiveReader, members: &mut Selection) -> (r: Result<Vec<Entry>, Error>)
    ensures
        final(members)@.subset_of(old(members)@),
        final(members)@ == unpack_left(
            old(reader).pending(),
            old(reader).fails(),
            old(reader).bytes_left(),
            old(members)@,
            old(members)@ == Set::<Seq<char>>::empty(),
        ),
        match unpack_outcome(
            old(reader).pending(),
            old(reader).fails(),
            old(reader).bytes_left(),
            old(members)@,
            old(members)@ == Set::<Seq<char>>::empty(),
        ) {
            Ok((extracted, missing)) => {
                &&& r matches Ok(entries)
                &&& entries_model(entries@) == extracted
                &&& final(members)@ == missing
                &&& final(reader).pending().len() == 0
                &&& !final(reader).fails()
                &&& final(reader).bytes_left() == 0
            },
            Err(kind) => r matches Err(e) && e.kind() == kind,
        },
{
    let extract_all = members.is_empty();
    let mut entries: Vec<Entry> = Vec::new();
    let ghost whole = unpack_outcome(
        reader.pending(),
        reader.fails(),
        reader.bytes_left(),
        members@,
        extract_all,
    );
    assert(entries_model(entries@) =~= Seq::<(Seq<char>, Seq<u8>)>::empty());
    assert(entries_model(entries@) + Seq::<(Seq<char>, Seq<u8>)>::empty() =~= entries_model(
        entries@,
    ));
    loop
        invariant
            extract_all == (old(members)@ == Set::<Seq<char>>::empty()),
            whole == unpack_outcome(
                old(reader).pending(),
                old(reader).fails(),
                old(reader).bytes_left(),
                old(members)@,
                extract_all,
            ),
            members@.subset_of(old(members)@),
            unpack_left(
                old(reader).pending(),
                old(reader).fails(),
                old(reader).bytes_left(),
                old(members)@,
                extract_all,
            ) == unpack_left(
                reader.pending(),
                reader.fails(),
                reader.bytes_left(),
                members@,
                extract_all,
            ),
            whole == after_unpacked(
                entries_model(entries@),
                unpack_outcome(
                    reader.pending(),
                    reader.fails(),
                    reader.bytes_left(),
                    members@,
                    extract_all,
                ),
            ),
        ensures
            whole == Ok::<(Seq<(Seq<char>, Seq<u8>)>, Set<Seq<char>>), ErrorKind>(
                (entries_model(entries@), members@),
            ),
            members@.subset_of(old(members)@),
            members@ == unpack_left(
                old(reader).pending(),
                old(reader).fails(),
                old(reader).bytes_left(),
                old(members)@,
                extract_all,
            ),
            reader.pending().len() == 0,
            !reader.fails(),
            reader.bytes_left() == 0,
        decreases reader.pending().len(),
    {
        let ghost before = entries_model(entries@);
        let ghost step = next_step(reader.pending(), reader.fails(), reader.bytes_left());
        let ghost length = reader.pending().len();
        let ghost wanted = members@;
        proof {
            lemma_header_takes_bytes(reader.pending().skip(reader.bytes_left() as int));
        }
        match reader.next() {
            Ok(Some(mut member)) => {
                assert(step matches Step::Member { name, size, rest } && rest.len() < length);
                let chosen = wants(extract_all, members, member.name());
                proof {
                    if extract_all {
                        assert(wanted.remove(member.header.name@) =~= wanted);
                    } else if !chosen {
                        assert(members@ =~= wanted);
                    }
                }
                if chosen {
                    let ghost rest = member.container.pending();
                    let ghost size = member.container.bytes_left();
                    let data = match member.read_to_end() {
                        Ok(data) => data,
                        Err(e) => {
                            return Err(e);
                        },
                    };
                    let entry = Entry { name: member.header.name.clone(), data };
                    proof {
                        let pair = (entry.name@, entry.data@);
                        assert(entries_model(entries@.push(entry)) =~= before.push(pair));
                        match unpack_outcome(
                            rest.skip(size as int),
                            member.container.fails(),
                            0,
                            members@,
                            extract_all,
                        ) {
                            Ok((others, missing)) => {
                                assert(before.push(pair) + others =~= before + (seq![pair]
                                    + others));
                            },
                            Err(_) => {},
                        }
                    }
                    entries.push(entry);
                }
            },
            Ok(None) => {
                proof {
                    lemma_header_takes_bytes(reader.pending().skip(0));
                    assert(before + Seq::<(Seq<char>, Seq<u8>)>::empty() =~= before);
                }
                break ;
            },
            Err(e) => {
                return Err(e);
            },
        }
    }
    Ok(entries)
}

} // verus!
