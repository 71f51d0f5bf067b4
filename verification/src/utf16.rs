//! UTF-16 as the archive format uses it for member names: the encoding as a
//! mathematical function, the proof that it loses nothing, and the two
//! conversions of the standard library that perform it.

use vstd::prelude::*;

verus! {

/// Lets a `std::string::FromUtf16Error` travel through verified code as an
/// opaque value.
#[verifier::external_type_specification]
#[verifier::external_body]
pub struct ExFromUtf16Error(std::string::FromUtf16Error);

/// The UTF-16 code units of one character: the character itself below
/// `0x10000`, a high and a low surrogate from there on.
pub open spec fn units_of_char(c: char) -> Seq<u16> {
    let v = c as u32 as int;
    if v < 0x1_0000 {
        seq![v as u16]
    } else {
        seq![(0xD800 + (v - 0x1_0000) / 0x400) as u16, (0xDC00 + (v - 0x1_0000) % 0x400) as u16]
    }
}

/// The UTF-16 code units of a text.
pub open spec fn encode(s: Seq<char>) -> Seq<u16>
    decreases s.len(),
{
    if s.len() == 0 {
        Seq::empty()
    } else {
        units_of_char(s.first()) + encode(s.drop_first())
    }
}

/// Whether a sequence of code units is the encoding of some text.
pub open spec fn is_valid(units: Seq<u16>) -> bool {
    exists|s: Seq<char>| encode(s) == units
}

/// The text that a valid sequence of code units encodes.
pub open spec fn decode(units: Seq<u16>) -> Seq<char>
    recommends
        is_valid(units),
{
    choose|s: Seq<char>| encode(s) == units
}

/// The shape of one character's code units: a single unit outside the
/// surrogate range, or a high surrogate followed by a low one, and in both
/// cases units from which the character's number can be told.
pub proof fn lemma_units_of_char(c: char)
    ensures
        ({
            let v = c as u32 as int;
            let u = units_of_char(c);
            if v < 0x1_0000 {
                &&& u.len() == 1
                &&& u[0] as int == v
                &&& !(0xD800 <= u[0] <= 0xDFFF)
            } else {
                &&& u.len() == 2
                &&& 0xD800 <= u[0] <= 0xDBFF
                &&& 0xDC00 <= u[1] <= 0xDFFF
                &&& v == 0x1_0000 + (u[0] - 0xD800) * 0x400 + (u[1] - 0xDC00)
            }
        }),
{
    vstd::utf8::char_is_scalar(c);
}

/// Two texts with the same code units are the same text.
pub proof fn lemma_encode_injective(a: Seq<char>, b: Seq<char>)
    requires
        encode(a) == encode(b),
    ensures
        a == b,
    decreases a.len(),
{
    if a.len() == 0 {
        if b.len() != 0 {
            assert(encode(b).len() >= units_of_char(b.first()).len());
        }
        assert(a =~= b);
    } else {
        if b.len() == 0 {
            assert(encode(a).len() >= units_of_char(a.first()).len());
        }
        let ca = a.first();
        let cb = b.first();
        let ua = units_of_char(ca);
        let ub = units_of_char(cb);
        let ta = encode(a.drop_first());
        let tb = encode(b.drop_first());
        assert(encode(a) == ua + ta);
        assert(encode(b) == ub + tb);
        assert((ua + ta)[0] == ua[0]);
        assert((ub + tb)[0] == ub[0]);
        lemma_units_of_char(ca);
        lemma_units_of_char(cb);
        assert(ua.len() == ub.len());
        if ua.len() == 2 {
            assert((ua + ta)[1] == ua[1]);
            assert((ub + tb)[1] == ub[1]);
        }
        assert(ca as u32 == cb as u32);
        vstd::utf8::char_u32_cast(ca, ca as u32);
        vstd::utf8::char_u32_cast(cb, cb as u32);
        assert(ca == cb);
        assert(ta =~= (ua + ta).skip(ua.len() as int));
        assert(tb =~= (ub + tb).skip(ub.len() as int));
        lemma_encode_injective(a.drop_first(), b.drop_first());
        assert(a =~= seq![ca] + a.drop_first());
        assert(b =~= seq![cb] + b.drop_first());
    }
}

/// Every text comes back from its code units: the units are valid, and they
/// decode to the text they were made from.
pub proof fn lemma_round_trip(s: Seq<char>)
    ensures
        is_valid(encode(s)),
        decode(encode(s)) == s,
{
    assert(is_valid(encode(s)));
    lemma_encode_injective(decode(encode(s)), s);
}

/// `str::encode_utf16`, collected: the UTF-16 code units of the text, one
/// unit for a character below `0x10000` and a surrogate pair for any other.
#[verifier::external_body]
pub(crate) fn str_encode_utf16(s: &str) -> (units: Vec<u16>)
    ensures
        units@ == encode(s@),
{
    s.encode_utf16().collect()
}

/// `String::from_utf16`: the text whose UTF-16 encoding the units are, or an
/// error where they are the encoding of no text (an unpaired surrogate).
#[verifier::external_body]
pub(crate) fn string_from_utf16(units: &[u16]) -> (r: Result<
    String,
    std::string::FromUtf16Error,
>)
    ensures
        match r {
            Ok(s) => encode(s@) == units@,
            Err(_) => !is_valid(units@),
        },
{
    String::from_utf16(units)
}

/// `ToString::to_string` of `std::string::FromUtf16Error`: the text that
/// the error displays. Nothing is claimed of the text.
#[verifier::external_body]
pub(crate) fn utf16_error_text(e: &std::string::FromUtf16Error) -> String {
    e.to_string()
}

} // verus!
