//! Reading and writing of save archives: compressed containers that bundle
//! named byte blobs, each framed by a length-prefixed UTF-16 name and a
//! length-prefixed body.
//!
//! Every executable function carries a contract that Verus proves. The
//! compression layer itself is an outside collaborator; the few declarations
//! that speak for it are marked `external_body` and documented where they stand.
//!
//! - `format`: the archive format as functions from members to bytes.
//! - `reader`: the archive reader and the member handle.
//! - `writer`: the archive writer and `pack`.
//! - `extract`: `list` and `unpack`, and `selection`, the set of wanted names.
//! - `laws`: what holds of writing and reading together.
//! - `wire`, `utf16`: little-endian integers and UTF-16 text.
//! - `gzip`, `stream`: the two ends of the compression layer.
//! - `submarine`: the framing of submarine documents.
//! - `error`: the error type.

pub mod error;
pub mod extract;
pub mod format;
pub mod gzip;
pub mod laws;
pub mod reader;
pub mod selection;
pub mod stream;
pub mod submarine;
pub mod utf16;
pub mod wire;
pub mod writer;
