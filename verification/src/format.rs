//! The archive format, written down as functions from members to bytes.
//!
//! ```text
//! Archive := Member*
//! Member  := NameLen:u32 NameUTF16LE[NameLen] BodyLen:u32 Body[BodyLen]
//! ```
//!
//! All integers are little-endian; `NameLen` counts UTF-16 code units.

use crate::utf16;
use crate::wire::{u32_to_le, units_to_le};
use vstd::prelude::*;

verus! {

/// A member with its whole body: what goes into an archive, and what an
/// extraction gives back.
#[derive(Debug, PartialEq, Eq)]
pub struct Entry {
    /// The member's name.
    pub name: String,
    /// The member's body.
    pub data: Vec<u8>,
}

impl Entry {
    /// The entry as a pair of a name and a body.
    pub open spec fn model(&self) -> (Seq<char>, Seq<u8>) {
        (self.name@, self.data@)
    }
}

/// A list of entries as a sequence of pairs of a name and a body.
pub open spec fn entries_model(entries: Seq<Entry>) -> Seq<(Seq<char>, Seq<u8>)> {
    entries.map_values(|e: Entry| e.model())
}

/// Whether a name's UTF-16 length fits the 32-bit length field.
pub open spec fn name_fits(name: Seq<char>) -> bool {
    utf16::encode(name).len() <= 0xFFFF_FFFF
}

/// Whether a body's length fits the 32-bit length field.
pub open spec fn body_fits(body: Seq<u8>) -> bool {
    body.len() <= 0xFFFF_FFFF
}

/// The name field of a member: the number of UTF-16 code units, then the units.
pub open spec fn encode_name(name: Seq<char>) -> Seq<u8> {
    u32_to_le(utf16::encode(name).len() as int) + units_to_le(utf16::encode(name))
}

/// The header of a member: the name field, then the length of the body.
pub open spec fn encode_header(name: Seq<char>, size: nat) -> Seq<u8> {
    encode_name(name) + u32_to_le(size as int)
}

/// A whole member: the header, then the body as it is.
pub open spec fn encode_member(name: Seq<char>, body: Seq<u8>) -> Seq<u8> {
    encode_header(name, body.len()) + body
}

/// A whole archive: its members one after the other, with nothing between
/// them and nothing after the last.
pub open spec fn encode_archive(members: Seq<(Seq<char>, Seq<u8>)>) -> Seq<u8>
    decreases members.len(),
{
    if members.len() == 0 {
        Seq::empty()
    } else {
        encode_member(members.first().0, members.first().1) + encode_archive(members.drop_first())
    }
}

/// Whether every member of a list fits the format's length fields.
pub open spec fn all_fit(members: Seq<(Seq<char>, Seq<u8>)>) -> bool {
    forall|i: int|
        0 <= i < members.len() ==> name_fits(#[trigger] members[i].0) && body_fits(members[i].1)
}

/// The archive of two lists of members joined is the two archives joined.
pub proof fn lemma_encode_archive_concat(
    a: Seq<(Seq<char>, Seq<u8>)>,
    b: Seq<(Seq<char>, Seq<u8>)>,
)
    ensures
        encode_archive(a + b) == encode_archive(a) + encode_archive(b),
    decreases a.len(),
{
    if a.len() == 0 {
        assert(a + b =~= b);
        assert(encode_archive(a) + encode_archive(b) =~= encode_archive(b));
    } else {
        assert((a + b).first() == a.first());
        assert((a + b).drop_first() =~= a.drop_first() + b);
        lemma_encode_archive_concat(a.drop_first(), b);
        assert(encode_archive(a + b) =~= encode_archive(a) + encode_archive(b));
    }
}

/// The archive of a list with one more member at its end.
pub proof fn lemma_encode_archive_push(
    members: Seq<(Seq<char>, Seq<u8>)>,
    last: (Seq<char>, Seq<u8>),
)
    ensures
        encode_archive(members.push(last)) == encode_archive(members) + encode_member(
            last.0,
            last.1,
        ),
{
    let one = seq![last];
    assert(members.push(last) =~= members + one);
    lemma_encode_archive_concat(members, one);
    assert(one.drop_first() =~= Seq::<(Seq<char>, Seq<u8>)>::empty());
    assert(encode_archive(one.drop_first()) =~= Seq::<u8>::empty());
    assert(encode_archive(one) =~= encode_member(last.0, last.1));
}

} // verus!
