//! Packed files.

use crate::dired::files::{compressed_name, compressed_to};
use flate2::write::GzEncoder;
use std::io::Write;
use vstd::prelude::*;

verus! {

/// The gzip stream that `flate2::write::GzEncoder` makes of some bytes, at the
/// default level.
pub uninterp spec fn gzipped(data: Seq<u8>) -> Seq<u8>;

/// `flate2::write::GzEncoder` into memory, at the default level. Its header has
/// neither a time nor a system, so the stream rests on the bytes alone. It is
/// named, and nothing more is claimed of it.
#[verifier::external_body]
fn gzip(data: &Vec<u8>) -> (r: Vec<u8>)
    ensures
        r@ == gzipped(data@),
{
    let mut enc = GzEncoder::new(Vec::new(), flate2::Compression::default());
    enc.write_all(data).expect("memory takes every write");
    enc.finish().expect("memory takes every write")
}

/// The file that a path is packed to, out of the bytes of the file, or of the
/// tar archive of the directory: its name and its contents.
pub fn packed_file(path: &str, is_dir: bool, data: &Vec<u8>) -> (r: (String, Vec<u8>))
    ensures
        r.0@ == compressed_to(path@, is_dir),
        r.1@ == gzipped(data@),
{
    (compressed_name(path, is_dir), gzip(data))
}

} // verus!
