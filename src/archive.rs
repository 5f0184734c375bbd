//! The two computations taken from outside crates: gzip decoding and reading
//! the entry names of a tar archive. Both depend on the bytes alone.
use vstd::prelude::*;
use std::io::Read;
use crate::paths::views;

verus! {

/// The bytes that a gzip stream decodes to, or `None` when it is malformed.
pub uninterp spec fn gunzip_of(b: Seq<u8>) -> Option<Seq<u8>>;

/// The paths of a tar archive's entries in archive order, or `None` when the
/// archive cannot be read through.
pub uninterp spec fn tar_entry_paths(t: Seq<u8>) -> Option<Seq<Seq<u8>>>;

/// Relies on `libflate::gzip::Decoder` (`new`, then `read_to_end`): decodes a
/// gzip stream held in memory, or fails on malformed input.
#[verifier::external_body]
pub(crate) fn gunzip(layer: &[u8]) -> (r: Result<Vec<u8>, std::io::Error>)
    ensures
        match r {
            Ok(v) => gunzip_of(layer@) == Some(v@),
            Err(_) => gunzip_of(layer@) is None,
        },
{
    let mut decoder = libflate::gzip::Decoder::new(layer)?;
    let mut out = Vec::new();
    decoder.read_to_end(&mut out)?;
    Ok(out)
}

/// Relies on `tar::Archive::entries` and `tar::Entry::path_bytes`: the raw
/// path of each entry (long-name and pax path records applied), in archive
/// order, or the first error met while walking the archive.
#[verifier::external_body]
pub(crate) fn entry_paths(archive: &[u8]) -> (r: Result<Vec<Vec<u8>>, std::io::Error>)
    ensures
        match r {
            Ok(v) => tar_entry_paths(archive@) == Some(views(v@)),
            Err(_) => tar_entry_paths(archive@) is None,
        },
{
    let mut archive = tar::Archive::new(archive);
    let mut paths = Vec::new();
    for entry in archive.entries()? {
        paths.push(entry?.path_bytes().into_owned());
    }
    Ok(paths)
}

} // verus!
