//! The two ends of the compression layer as the codec sees them: a source
//! of decoded bytes and a sink for bytes to be compressed.

use crate::stream::{
    decoder_fails, decoder_new, decoder_pending, decoder_read, encoder_finish, encoder_new,
    encoder_taken, encoder_write_all, gzip_decoded,
};
use libflate::gzip::{Decoder, Encoder};
use libflate::lz77::DefaultLz77Encoder;
use std::io::Cursor;
use vstd::prelude::*;

verus! {

/// A stream of decoded bytes, read front to back.
#[derive(Debug)]
pub struct Source {
    /// The gzip decoder that yields the bytes.
    decoder: Decoder<Cursor<Vec<u8>>>,
}

impl Source {
    /// The decoded bytes that have not been read yet.
    pub closed spec fn pending(&self) -> Seq<u8> {
        decoder_pending(self.decoder)
    }

    /// Whether the stream fails after its pending bytes instead of ending.
    pub closed spec fn fails(&self) -> bool {
        decoder_fails(self.decoder)
    }

    /// A source for the gzip stream that `compressed` holds: what it has
    /// pending and how it ends is what the compression layer makes of
    /// these bytes. Fails where the compression layer rejects the start of
    /// the stream, and only there.
    pub fn open(compressed: Vec<u8>) -> (r: Result<Source, std::io::Error>)
        ensures
            match r {
                Ok(source) => gzip_decoded(compressed@) == Some((source.pending(), source.fails())),
                Err(_) => gzip_decoded(compressed@) is None,
            },
    {
        match decoder_new(compressed) {
            Ok(decoder) => Ok(Source { decoder }),
            Err(e) => Err(e),
        }
    }

    /// Reads bytes into the part of `buf` from `start` up to `end`, which
    /// is not empty, and returns how many it read. It reads none only where
    /// the stream has ended in order, and fails only where nothing is
    /// pending and the stream fails.
    pub fn read(&mut self, buf: &mut [u8], start: usize, end: usize) -> (r: Result<
        usize,
        std::io::Error,
    >)
        requires
            start < end <= old(buf)@.len(),
        ensures
            final(buf)@.len() == old(buf)@.len(),
            final(buf)@.take(start as int) == old(buf)@.take(start as int),
            match r {
                Ok(k) => {
                    &&& k <= end - start
                    &&& k <= old(self).pending().len()
                    &&& k == 0 <==> old(self).pending().len() == 0
                    &&& k == 0 ==> !old(self).fails()
                    &&& final(buf)@.subrange(start as int, start + k) == old(self).pending().take(
                        k as int,
                    )
                    &&& final(buf)@.skip(start + k) == old(buf)@.skip(start + k)
                    &&& final(self).pending() == old(self).pending().skip(k as int)
                    &&& final(self).fails() == old(self).fails()
                },
                Err(_) => {
                    &&& old(self).pending().len() == 0
                    &&& old(self).fails()
                    &&& final(buf)@ == old(buf)@
                },
            },
    {
        let r = decoder_read(&mut self.decoder, buf, start, end);
        proof {
            if let Ok(k) = r {
                if k == 0 {
                    assert(old(self).pending().skip(0) =~= old(self).pending());
                }
            }
        }
        r
    }

    /// Fills `buf` from the stream as far as the stream reaches, and
    /// returns the number of bytes that it put there: fewer than `buf`
    /// holds only where the stream ends in order before `buf` is full.
    pub fn fill(&mut self, buf: &mut [u8]) -> (r: Result<usize, std::io::Error>)
        ensures
            final(buf)@.len() == old(buf)@.len(),
            match r {
                Ok(k) => {
                    &&& k <= old(buf)@.len()
                    &&& k <= old(self).pending().len()
                    &&& k < old(buf)@.len() ==> k == old(self).pending().len() && !old(
                        self,
                    ).fails()
                    &&& final(buf)@.take(k as int) == old(self).pending().take(k as int)
                    &&& final(buf)@.skip(k as int) == old(buf)@.skip(k as int)
                    &&& final(self).pending() == old(self).pending().skip(k as int)
                    &&& final(self).fails() == old(self).fails()
                },
                Err(_) => old(self).pending().len() < old(buf)@.len() && old(self).fails(),
            },
    {
        let len = buf.len();
        let mut filled: usize = 0;
        let ghost start = self.pending();
        assert(start.skip(0) =~= start);
        assert(buf@.take(0) =~= start.take(0));
        while filled < len
            invariant
                len == buf@.len(),
                len == old(buf)@.len(),
                filled <= len,
                filled <= start.len(),
                start == old(self).pending(),
                buf@.take(filled as int) == start.take(filled as int),
                buf@.skip(filled as int) == old(buf)@.skip(filled as int),
                self.pending() == start.skip(filled as int),
                self.fails() == old(self).fails(),
            decreases len - filled,
        {
            let ghost before = buf@;
            match self.read(buf, filled, len) {
                Ok(k) => {
                    if k == 0 {
                        return Ok(filled);
                    }
                    proof {
                        let next = filled + k;
                        assert(buf@.take(next) =~= buf@.take(filled as int) + buf@.subrange(
                            filled as int,
                            next,
                        ));
                        assert(buf@.take(filled as int) =~= before.take(filled as int));
                        assert(start.take(next) =~= start.take(filled as int) + start.skip(
                            filled as int,
                        ).take(k as int));
                        assert(start.skip(filled as int).skip(k as int) =~= start.skip(next));
                        assert(buf@.skip(next) =~= before.skip(next));
                        assert(before.skip(next) =~= before.skip(filled as int).skip(k as int));
                        assert(old(buf)@.skip(next) =~= old(buf)@.skip(filled as int).skip(
                            k as int,
                        ));
                    }
                    filled = filled + k;
                },
                Err(e) => {
                    return Err(e);
                },
            }
        }
        Ok(filled)
    }

    /// Reads the stream to its end and returns all that was pending. Fails
    /// where the stream does.
    pub fn read_to_end(&mut self) -> (r: Result<Vec<u8>, std::io::Error>)
        ensures
            match r {
                Ok(bytes) => {
                    &&& bytes@ == old(self).pending()
                    &&& !old(self).fails()
                    &&& final(self).pending().len() == 0
                    &&& !final(self).fails()
                },
                Err(_) => old(self).fails(),
            },
    {
        let mut buffer = [0u8;4096];
        let mut bytes: Vec<u8> = Vec::new();
        let ghost start = self.pending();
        assert(start.skip(0) =~= start);
        assert(bytes@ =~= start.take(0));
        loop
            invariant
                buffer@.len() == 4096,
                start == old(self).pending(),
                bytes@.len() <= start.len(),
                bytes@ == start.take(bytes@.len() as int),
                self.pending() == start.skip(bytes@.len() as int),
                self.fails() == old(self).fails(),
            ensures
                bytes@ == start,
                self.pending().len() == 0,
                !self.fails(),
            decreases self.pending().len(),
        {
            let k = match self.read(&mut buffer, 0, 4096) {
                Ok(k) => k,
                Err(e) => {
                    return Err(e);
                },
            };
            if k == 0 {
                assert(start.take(start.len() as int) =~= start);
                break ;
            }
            let ghost before = bytes@;
            let piece = vstd::slice::slice_subrange(&buffer, 0, k);
            bytes.extend_from_slice(piece);
            proof {
                let n = before.len() as int;
                assert(bytes@ =~= before + piece@);
                assert(start.take(n + k) =~= start.take(n) + start.skip(n).take(k as int));
                assert(start.skip(n).skip(k as int) =~= start.skip(n + k));
            }
        }
        Ok(bytes)
    }
}

/// A stream of bytes on their way into a gzip stream in memory.
pub struct Sink {
    /// The gzip encoder that takes the bytes.
    encoder: Encoder<Vec<u8>, DefaultLz77Encoder>,
}

impl Sink {
    /// The bytes that have been handed to the compression layer so far.
    pub closed spec fn written(&self) -> Seq<u8> {
        encoder_taken(self.encoder)
    }

    /// A sink with nothing written to it.
    pub fn new() -> (r: Result<Sink, std::io::Error>)
        ensures
            r matches Ok(sink) ==> sink.written() == Seq::<u8>::empty(),
    {
        match encoder_new() {
            Ok(encoder) => Ok(Sink { encoder }),
            Err(e) => Err(e),
        }
    }

    /// Hands `bytes` to the compression layer.
    pub fn write_all(&mut self, bytes: &[u8]) -> (r: Result<(), std::io::Error>)
        ensures
            r is Ok ==> final(self).written() == old(self).written() + bytes@,
    {
        encoder_write_all(&mut self.encoder, bytes)
    }

    /// Ends the gzip stream and returns it: the compression layer writes
    /// what it still holds, and its trailer. The stream is one that the
    /// compression layer decodes, without failure, to what was written.
    pub fn finish(self) -> (r: Result<Vec<u8>, std::io::Error>)
        ensures
            r matches Ok(out) ==> gzip_decoded(out@) == Some((self.written(), false)),
    {
        encoder_finish(self.encoder)
    }
}

} // verus!
