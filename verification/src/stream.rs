//! The compression layer. The archive codec reads from a gzip decoder and
//! writes to a gzip encoder, both of the `libflate` crate and both working on
//! bytes held in memory. Nothing in this file is proved: each item states
//! what the codec relies on, and the rest of the crate is proved from that.

use libflate::gzip::{Decoder, Encoder};
use libflate::lz77::DefaultLz77Encoder;
use std::io::Cursor;
use vstd::prelude::*;

verus! {

/// Lets a `libflate::gzip::Decoder` stand in a field as an opaque value.
#[verifier::external_type_specification]
#[verifier::external_body]
#[verifier::reject_recursive_types(R)]
pub struct ExDecoder<R>(Decoder<R>);

/// Lets a `libflate::gzip::Encoder` stand in a field as an opaque value.
#[verifier::external_type_specification]
#[verifier::external_body]
#[verifier::reject_recursive_types(W)]
#[verifier::reject_recursive_types(E)]
pub struct ExEncoder<W, E>(Encoder<W, E>);

/// The LZ77 stage that `libflate::gzip::Encoder::new` selects.
#[verifier::external_type_specification]
#[verifier::external_body]
pub struct ExDefaultLz77Encoder(DefaultLz77Encoder);

/// Lets a `std::io::Cursor` stand in a type as an opaque value.
#[verifier::external_type_specification]
#[verifier::external_body]
#[verifier::reject_recursive_types(T)]
pub struct ExCursor<T>(Cursor<T>);

/// The decoded bytes that a decoder has not handed out yet, in the order in
/// which it will hand them out, up to the point where its stream ends or
/// fails. The decoder decodes a block as a whole before it hands out any
/// byte of it, so a failure inside a block is reported before the bytes of
/// that block: they are not pending. The decoder reads compressed bytes
/// held in memory, so this is settled by the decoder's state alone.
pub uninterp spec fn decoder_pending(d: Decoder<Cursor<Vec<u8>>>) -> Seq<u8>;

/// Whether a decoder, once it has handed out its pending bytes, reports a
/// failure (corrupt or cut-off compressed data, a checksum that does not
/// match) instead of the end of its stream.
pub uninterp spec fn decoder_fails(d: Decoder<Cursor<Vec<u8>>>) -> bool;

/// What a new decoder makes of a sequence of compressed bytes: `None` where
/// it rejects them at their start, as no gzip header; else the bytes that
/// it will hand out, up to the point where its stream ends or fails, and
/// whether it fails there. The bytes are all that a new decoder is made
/// from, so this is settled by them alone. Nothing more is said of it
/// anywhere: how gzip encodes is the decoder's knowledge.
pub uninterp spec fn gzip_decoded(compressed: Seq<u8>) -> Option<(Seq<u8>, bool)>;

/// `libflate::gzip::Decoder::new` over a `std::io::Cursor`: a decoder for
/// the gzip stream held in `compressed`, or the error that its header
/// raised. What the decoder has pending and how its stream ends is what
/// `gzip_decoded` names for these bytes.
#[verifier::external_body]
pub(crate) fn decoder_new(compressed: Vec<u8>) -> (r: Result<
    Decoder<Cursor<Vec<u8>>>,
    std::io::Error,
>)
    ensures
        match r {
            Ok(d) => gzip_decoded(compressed@) == Some((decoder_pending(d), decoder_fails(d))),
            Err(_) => gzip_decoded(compressed@) is None,
        },
{
    Decoder::new(Cursor::new(compressed))
}

/// `std::io::Read::read` of `libflate::gzip::Decoder`, into the part of
/// `buf` from `start` up to `end`, which is not empty.
///
/// The decoder answers `Ok(k)` with `k` at least 1 after it has copied its
/// next `k` pending bytes to `buf` from `start` on; `k` is at most the length
/// of the part. It answers `Ok(0)` only where nothing is pending and its
/// stream has ended in order, and stays so. It answers with an error only
/// where nothing is pending and its stream fails. It writes to `buf` the
/// bytes that it hands out and no others: what stands before `start` and
/// behind the last byte read is as it was, and so is all of `buf` after
/// an error.
#[verifier::external_body]
pub(crate) fn decoder_read(
    d: &mut Decoder<Cursor<Vec<u8>>>,
    buf: &mut [u8],
    start: usize,
    end: usize,
) -> (r: Result<usize, std::io::Error>)
    requires
        start < end <= old(buf)@.len(),
    ensures
        final(buf)@.len() == old(buf)@.len(),
        final(buf)@.take(start as int) == old(buf)@.take(start as int),
        match r {
            Ok(k) => {
                &&& k <= end - start
                &&& k <= decoder_pending(*old(d)).len()
                &&& final(buf)@.subrange(start as int, start + k) == decoder_pending(
                    *old(d),
                ).take(k as int)
                &&& final(buf)@.skip(start + k) == old(buf)@.skip(start + k)
                &&& decoder_pending(*final(d)) == decoder_pending(*old(d)).skip(k as int)
                &&& decoder_fails(*final(d)) == decoder_fails(*old(d))
                &&& k == 0 ==> decoder_pending(*old(d)).len() == 0 && !decoder_fails(*old(d))
            },
            Err(_) => {
                &&& decoder_pending(*old(d)).len() == 0
                &&& decoder_fails(*old(d))
                &&& final(buf)@ == old(buf)@
            },
        },
{
    std::io::Read::read(d, &mut buf[start..end])
}

/// The bytes that an encoder has taken so far, in the order in which it
/// took them: what it has compressed already and what it still holds back.
pub uninterp spec fn encoder_taken(e: Encoder<Vec<u8>, DefaultLz77Encoder>) -> Seq<u8>;

/// `libflate::gzip::Encoder::new` over a `Vec<u8>`: an encoder that has
/// written its gzip header to an empty vector and has taken no byte yet, or
/// the error that writing the header raised.
#[verifier::external_body]
pub(crate) fn encoder_new() -> (r: Result<Encoder<Vec<u8>, DefaultLz77Encoder>, std::io::Error>)
    ensures
        r matches Ok(e) ==> encoder_taken(e) == Seq::<u8>::empty(),
{
    Encoder::new(Vec::new())
}

/// `std::io::Write::write_all` of `libflate::gzip::Encoder`: where it
/// answers `Ok`, the encoder has taken all of `data`, behind what it had
/// taken before. Nothing is claimed of the encoder after an error.
#[verifier::external_body]
pub(crate) fn encoder_write_all(
    e: &mut Encoder<Vec<u8>, DefaultLz77Encoder>,
    data: &[u8],
) -> (r: Result<(), std::io::Error>)
    ensures
        r is Ok ==> encoder_taken(*final(e)) == encoder_taken(*old(e)) + data@,
{
    std::io::Write::write_all(e, data)
}

/// `libflate::gzip::Encoder::finish`, taken as a `Result`: the vector that
/// holds the whole gzip stream, trailer included, or the error that writing
/// its last part raised.
///
/// The bytes themselves have no name: the gzip header that the encoder
/// wrote at the start carries the time of day. What is claimed of every
/// outcome is that the stream is one that a decoder of the same crate
/// accepts and decodes, without failure, to the bytes that the encoder
/// took. That is the purpose of the two: `libflate` documents it by the
/// examples of its `gzip` module and checks it in its tests; it is taken
/// on that word, and was not established from the source line by line.
#[verifier::external_body]
pub(crate) fn encoder_finish(e: Encoder<Vec<u8>, DefaultLz77Encoder>) -> (r: Result<
    Vec<u8>,
    std::io::Error,
>)
    ensures
        r matches Ok(out) ==> gzip_decoded(out@) == Some((encoder_taken(e), false)),
{
    e.finish().into_result()
}

} // verus!
