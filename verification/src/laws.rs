//! What holds of writing and reading together: an archive that is written
//! member by member and then read gives back what went in.
//!
//! The laws speak of the archive as the sequence of bytes that the writer
//! hands to the compression layer and that the reader takes from it. None
//! of them rests on what the compression layer does. That a finished
//! stream decodes to what was written is stated where the stream is
//! finished, and `ArchiveReader::open` states that the reader has pending
//! what the stream decodes to: with the two, what the laws say of the
//! bytes holds of a packed archive that is opened again.

use crate::error::ErrorKind;
use crate::extract::{after_listed, after_unpacked, list_outcome, unpack_outcome};
use crate::format::{all_fit, body_fits, encode_archive, encode_header, encode_member, name_fits};
use crate::reader::{lemma_header_takes_bytes, next_step, parse_header, Parsed, Step};
use crate::utf16;
use crate::wire::{
    lemma_u32_le_round_trip, lemma_units_le_round_trip, u32_to_le, units_from_le, units_to_le,
};
use vstd::prelude::*;

verus! {

/// The names and body lengths of a list of members.
pub open spec fn sizes_of(members: Seq<(Seq<char>, Seq<u8>)>) -> Seq<(Seq<char>, nat)> {
    members.map_values(|m: (Seq<char>, Seq<u8>)| (m.0, m.1.len()))
}

/// The names that occur in a list of members.
pub open spec fn names_of(members: Seq<(Seq<char>, Seq<u8>)>) -> Set<Seq<char>> {
    Set::new(|name: Seq<char>| exists|i: int| 0 <= i < members.len() && members[i].0 == name)
}

/// The members that an extraction picks from a list: all of them with `all`
/// set, else each member whose name is wanted when its turn comes. A name
/// is wanted until a member of that name has been picked.
pub open spec fn selected(
    members: Seq<(Seq<char>, Seq<u8>)>,
    wanted: Set<Seq<char>>,
    all: bool,
) -> Seq<(Seq<char>, Seq<u8>)>
    decreases members.len(),
{
    if members.len() == 0 {
        Seq::empty()
    } else if all || wanted.contains(members.first().0) {
        seq![members.first()] + selected(
            members.drop_first(),
            wanted.remove(members.first().0),
            all,
        )
    } else {
        selected(members.drop_first(), wanted, all)
    }
}

/// A name comes back from the bytes of its name field: written as UTF-16
/// code units in little-endian order and read again, it is the same text,
/// character for character, whatever planes its characters are of.
pub proof fn law_name_round_trip(name: Seq<char>)
    ensures
        utf16::is_valid(units_from_le(units_to_le(utf16::encode(name)))),
        utf16::decode(units_from_le(units_to_le(utf16::encode(name)))) == name,
{
    lemma_units_le_round_trip(utf16::encode(name));
    utf16::lemma_round_trip(name);
}

/// A member's header is read back from its bytes, whatever follows them:
/// the name, the size, and as many bytes taken as the header has.
pub proof fn lemma_header_round_trip(name: Seq<char>, size: nat, tail: Seq<u8>)
    requires
        name_fits(name),
        size <= 0xFFFF_FFFF,
    ensures
        parse_header(encode_header(name, size) + tail) == (Parsed::Header {
            name,
            size,
            consumed: encode_header(name, size).len(),
        }),
        encode_header(name, size).len() == 8 + 2 * utf16::encode(name).len(),
{
    reveal(parse_header);
    let units = utf16::encode(name);
    let n = units.len() as int;
    let s = encode_header(name, size) + tail;
    lemma_u32_le_round_trip(n);
    lemma_u32_le_round_trip(size as int);
    lemma_units_le_round_trip(units);
    utf16::lemma_round_trip(name);
    assert(encode_header(name, size).len() == 8 + 2 * n);
    assert(s.take(4) =~= u32_to_le(n));
    assert(s.subrange(4, 4 + 2 * n) =~= units_to_le(units));
    assert(s.subrange(4 + 2 * n, 8 + 2 * n) =~= u32_to_le(size as int));
}

/// The step to the next member, taken where a member's bytes begin, finds
/// that member and stands at the start of its body.
pub proof fn lemma_next_step_finds_member(
    name: Seq<char>,
    body: Seq<u8>,
    tail: Seq<u8>,
    fails: bool,
)
    requires
        name_fits(name),
        body_fits(body),
    ensures
        next_step(encode_member(name, body) + tail, fails, 0) == (Step::Member {
            name,
            size: body.len(),
            rest: body + tail,
        }),
{
    let header = encode_header(name, body.len());
    let s = encode_member(name, body) + tail;
    lemma_header_round_trip(name, body.len(), body + tail);
    assert(s =~= header + (body + tail));
    assert(s.skip(0) =~= s);
    assert(s.skip(header.len() as int) =~= body + tail);
}

/// A body that was not read is passed over: the step to the next member
/// from the start of an unread body is the step from the body's end.
pub proof fn law_unread_body_is_passed_over(body: Seq<u8>, rest: Seq<u8>, fails: bool)
    ensures
        next_step(body + rest, fails, body.len()) == next_step(rest, fails, 0),
        list_outcome(body + rest, fails, body.len()) == list_outcome(rest, fails, 0),
{
    assert((body + rest).skip(body.len() as int) =~= rest);
    assert(rest.skip(0) =~= rest);
}

/// A body that the stream cuts short cannot be passed over: where fewer
/// bytes are pending than the current body has left, the step to the next
/// member fails with `Truncated`, and so does every walk that begins there.
pub proof fn law_cut_body_is_truncated(pending: Seq<u8>, left: nat)
    requires
        pending.len() < left,
    ensures
        next_step(pending, false, left) == Step::Fail(ErrorKind::Truncated),
        list_outcome(pending, false, left) == Err::<Seq<(Seq<char>, nat)>, ErrorKind>(
            ErrorKind::Truncated,
        ),
{
}

/// Listing goes through the members of an archive one by one, whatever
/// stands before them as an unread body and whatever follows them.
pub proof fn lemma_list_through(
    body: Seq<u8>,
    members: Seq<(Seq<char>, Seq<u8>)>,
    tail: Seq<u8>,
    fails: bool,
)
    requires
        all_fit(members),
    ensures
        list_outcome(body + encode_archive(members) + tail, fails, body.len()) == after_listed(
            sizes_of(members),
            list_outcome(tail, fails, 0),
        ),
    decreases members.len(),
{
    let pending = body + encode_archive(members) + tail;
    if members.len() == 0 {
        assert(pending =~= body + tail);
        law_unread_body_is_passed_over(body, tail, fails);
        match list_outcome(tail, fails, 0) {
            Ok(others) => {
                assert(sizes_of(members) + others =~= others);
            },
            Err(_) => {},
        }
    } else {
        let first = members.first();
        let others = members.drop_first();
        let after = first.1 + encode_archive(others) + tail;
        assert(name_fits(first.0) && body_fits(first.1));
        assert forall|i: int| 0 <= i < others.len() implies name_fits(#[trigger] others[i].0)
            && body_fits(others[i].1) by {
            assert(others[i] == members[i + 1]);
        }
        assert(pending =~= body + (encode_member(first.0, first.1) + (encode_archive(others)
            + tail)));
        law_unread_body_is_passed_over(
            body,
            encode_member(first.0, first.1) + (encode_archive(others) + tail),
            fails,
        );
        lemma_next_step_finds_member(first.0, first.1, encode_archive(others) + tail, fails);
        assert(first.1 + (encode_archive(others) + tail) =~= after);
        assert(next_step(pending, fails, body.len()) == (Step::Member {
            name: first.0,
            size: first.1.len(),
            rest: after,
        }));
        lemma_list_through(first.1, others, tail, fails);
        assert(sizes_of(members) =~= seq![(first.0, first.1.len())] + sizes_of(others));
        match list_outcome(tail, fails, 0) {
            Ok(last) => {
                assert(seq![(first.0, first.1.len())] + (sizes_of(others) + last) =~= sizes_of(
                    members,
                ) + last);
            },
            Err(_) => {},
        }
    }
}

/// Listing an archive that was written from a list of members gives the
/// names and the body lengths of those members, in the same order.
pub proof fn law_list_round_trip(members: Seq<(Seq<char>, Seq<u8>)>)
    requires
        all_fit(members),
    ensures
        list_outcome(encode_archive(members), false, 0) == Ok::<Seq<(Seq<char>, nat)>, ErrorKind>(
            sizes_of(members),
        ),
{
    let none = Seq::<u8>::empty();
    lemma_list_through(none, members, none, false);
    lemma_header_takes_bytes(none.skip(0));
    assert(none + encode_archive(members) + none =~= encode_archive(members));
    assert(sizes_of(members) + Seq::<(Seq<char>, nat)>::empty() =~= sizes_of(members));
}

/// An extraction goes through the members of an archive one by one,
/// whatever stands before them as an unread body and whatever follows
/// them: it picks its members, and goes on behind the last with the names
/// that are still wanted.
pub proof fn lemma_unpack_through(
    body: Seq<u8>,
    members: Seq<(Seq<char>, Seq<u8>)>,
    tail: Seq<u8>,
    fails: bool,
    wanted: Set<Seq<char>>,
    all: bool,
)
    requires
        all_fit(members),
    ensures
        unpack_outcome(body + encode_archive(members) + tail, fails, body.len(), wanted, all)
            == after_unpacked(
            selected(members, wanted, all),
            unpack_outcome(tail, fails, 0, wanted.difference(names_of(members)), all),
        ),
    decreases members.len(),
{
    let pending = body + encode_archive(members) + tail;
    if members.len() == 0 {
        assert(pending =~= body + tail);
        law_unread_body_is_passed_over(body, tail, fails);
        assert(wanted.difference(names_of(members)) =~= wanted);
        match unpack_outcome(tail, fails, 0, wanted, all) {
            Ok((others, missing)) => {
                assert(selected(members, wanted, all) + others =~= others);
            },
            Err(_) => {},
        }
    } else {
        let first = members.first();
        let others = members.drop_first();
        let behind = encode_archive(others) + tail;
        let after = first.1 + behind;
        assert(name_fits(first.0) && body_fits(first.1));
        assert forall|i: int| 0 <= i < others.len() implies name_fits(#[trigger] others[i].0)
            && body_fits(others[i].1) by {
            assert(others[i] == members[i + 1]);
        }
        assert(pending =~= body + (encode_member(first.0, first.1) + behind));
        law_unread_body_is_passed_over(body, encode_member(first.0, first.1) + behind, fails);
        lemma_next_step_finds_member(first.0, first.1, behind, fails);
        assert(next_step(pending, fails, body.len()) == (Step::Member {
            name: first.0,
            size: first.1.len(),
            rest: after,
        }));
        let none = Seq::<u8>::empty();
        assert forall|name: Seq<char>| names_of(members).contains(name) <==> (name == first.0
            || names_of(others).contains(name)) by {
            if names_of(members).contains(name) {
                let i = choose|i: int| 0 <= i < members.len() && members[i].0 == name;
                if i > 0 {
                    assert(others[i - 1].0 == name);
                }
            }
            if names_of(others).contains(name) {
                let i = choose|i: int| 0 <= i < others.len() && others[i].0 == name;
                assert(members[i + 1].0 == name);
            }
            if name == first.0 {
                assert(members[0].0 == name);
            }
        }
        if all || wanted.contains(first.0) {
            let fewer = wanted.remove(first.0);
            assert(after.take(first.1.len() as int) =~= first.1);
            assert(after.skip(first.1.len() as int) =~= none + encode_archive(others) + tail);
            lemma_unpack_through(none, others, tail, fails, fewer, all);
            assert(fewer.difference(names_of(others)) =~= wanted.difference(names_of(members)));
            match unpack_outcome(tail, fails, 0, wanted.difference(names_of(members)), all) {
                Ok((last, missing)) => {
                    assert(seq![first] + (selected(others, fewer, all) + last) =~= selected(
                        members,
                        wanted,
                        all,
                    ) + last);
                },
                Err(_) => {},
            }
        } else {
            assert(after =~= first.1 + encode_archive(others) + tail);
            lemma_unpack_through(first.1, others, tail, fails, wanted, all);
            assert(wanted.difference(names_of(others)) =~= wanted.difference(names_of(members)));
        }
    }
}

/// With every member picked, the pick is the whole list.
pub proof fn lemma_selected_all(members: Seq<(Seq<char>, Seq<u8>)>, wanted: Set<Seq<char>>)
    ensures
        selected(members, wanted, true) == members,
    decreases members.len(),
{
    if members.len() == 0 {
        assert(selected(members, wanted, true) =~= members);
    } else {
        lemma_selected_all(members.drop_first(), wanted.remove(members.first().0));
        assert(seq![members.first()] + members.drop_first() =~= members);
    }
}

/// Extracting everything from an archive that was written from a list of
/// members gives those members back, each body byte for byte, in the same
/// order.
pub proof fn law_unpack_round_trip(members: Seq<(Seq<char>, Seq<u8>)>)
    requires
        all_fit(members),
    ensures
        unpack_outcome(encode_archive(members), false, 0, Set::<Seq<char>>::empty(), true) == Ok::<
            (Seq<(Seq<char>, Seq<u8>)>, Set<Seq<char>>),
            ErrorKind,
        >((members, Set::<Seq<char>>::empty())),
{
    let none = Seq::<u8>::empty();
    let nothing = Set::<Seq<char>>::empty();
    lemma_unpack_through(none, members, none, false, nothing, true);
    lemma_selected_all(members, nothing);
    lemma_header_takes_bytes(none.skip(0));
    assert(none + encode_archive(members) + none =~= encode_archive(members));
    assert(nothing.difference(names_of(members)) =~= nothing);
    assert(members + Seq::<(Seq<char>, Seq<u8>)>::empty() =~= members);
}

/// Extracting a selection from an archive that was written from a list of
/// members gives the members that the selection picks and no others, and
/// leaves of the selection the names that the archive does not hold.
pub proof fn law_unpack_selection(members: Seq<(Seq<char>, Seq<u8>)>, wanted: Set<Seq<char>>)
    requires
        all_fit(members),
    ensures
        unpack_outcome(encode_archive(members), false, 0, wanted, false) == Ok::<
            (Seq<(Seq<char>, Seq<u8>)>, Set<Seq<char>>),
            ErrorKind,
        >((selected(members, wanted, false), wanted.difference(names_of(members)))),
{
    let none = Seq::<u8>::empty();
    lemma_unpack_through(none, members, none, false, wanted, false);
    lemma_header_takes_bytes(none.skip(0));
    assert(none + encode_archive(members) + none =~= encode_archive(members));
    assert(selected(members, wanted, false) + Seq::<(Seq<char>, Seq<u8>)>::empty() =~= selected(
        members,
        wanted,
        false,
    ));
}

/// A header that declares more body than follows it: the walk finds the
/// member, and fails with `Truncated` when it goes on.
proof fn lemma_truncated_member(name: Seq<char>, size: nat, partial: Seq<u8>)
    requires
        name_fits(name),
        size <= 0xFFFF_FFFF,
        partial.len() < size,
    ensures
        list_outcome(encode_header(name, size) + partial, false, 0) == Err::<
            Seq<(Seq<char>, nat)>,
            ErrorKind,
        >(ErrorKind::Truncated),
        unpack_outcome(
            encode_header(name, size) + partial,
            false,
            0,
            Set::<Seq<char>>::empty(),
            true,
        ) == Err::<(Seq<(Seq<char>, Seq<u8>)>, Set<Seq<char>>), ErrorKind>(ErrorKind::Truncated),
{
    let header = encode_header(name, size);
    let tail = header + partial;
    lemma_header_round_trip(name, size, partial);
    assert(tail.skip(0) =~= tail);
    assert(tail.skip(header.len() as int) =~= partial);
    assert(next_step(tail, false, 0) == (Step::Member { name, size, rest: partial }));
    assert(next_step(partial, false, size) == Step::Fail(ErrorKind::Truncated));
    assert(list_outcome(partial, false, size) == Err::<Seq<(Seq<char>, nat)>, ErrorKind>(
        ErrorKind::Truncated,
    ));
}

/// An archive whose last member declares more body than the stream holds
/// is truncated: listing it fails with `Truncated`, and so does extracting
/// everything from it. Neither takes the short body for a whole one.
pub proof fn law_truncated_body(
    members: Seq<(Seq<char>, Seq<u8>)>,
    name: Seq<char>,
    size: nat,
    partial: Seq<u8>,
)
    requires
        all_fit(members),
        name_fits(name),
        size <= 0xFFFF_FFFF,
        partial.len() < size,
    ensures
        list_outcome(encode_archive(members) + encode_header(name, size) + partial, false, 0)
            == Err::<Seq<(Seq<char>, nat)>, ErrorKind>(ErrorKind::Truncated),
        unpack_outcome(
            encode_archive(members) + encode_header(name, size) + partial,
            false,
            0,
            Set::<Seq<char>>::empty(),
            true,
        ) == Err::<(Seq<(Seq<char>, Seq<u8>)>, Set<Seq<char>>), ErrorKind>(ErrorKind::Truncated),
{
    let none = Seq::<u8>::empty();
    let nothing = Set::<Seq<char>>::empty();
    let tail = encode_header(name, size) + partial;
    assert(encode_archive(members) + encode_header(name, size) + partial =~= none
        + encode_archive(members) + tail);
    lemma_truncated_member(name, size, partial);
    lemma_list_through(none, members, tail, false);
    lemma_unpack_through(none, members, tail, false, nothing, true);
    assert(nothing.difference(names_of(members)) =~= nothing);
}

} // verus!
