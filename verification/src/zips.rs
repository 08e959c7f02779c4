//! The archive container: named members packed into a deflate-compressed zip
//! archive. The zip crate does the packing and extraction behind two trusted
//! wrappers; one name, `unzip_of`, stands for what extraction yields, and
//! packing promises to extract back to what was packed.

use std::io::{Read, Write};
use vstd::prelude::*;

verus! {

/// Why packing or extracting an archive failed.
#[derive(Debug, Clone, Copy, PartialEq, Eq, Structural)]
pub enum ArchiveError {
    /// The archive writer refused a member or the final directory.
    WriteFailed,
    /// The archive bytes did not parse or a member did not extract.
    ReadFailed,
}

/// What fully extracting archive bytes yields: the member names and contents
/// in directory order, when the whole archive parses and every member
/// extracts.
pub uninterp spec fn unzip_of(data: Seq<u8>) -> Option<Seq<(Seq<char>, Seq<u8>)>>;

/// The archive bytes that packing a member list produces. Packing is a
/// deterministic function of the members: this build carries no clock feature,
/// so every entry is stamped with the format's fixed epoch, and deflate is
/// deterministic in its input and level.
pub uninterp spec fn zip_of(members: Seq<(Seq<char>, Seq<u8>)>) -> Seq<u8>;

/// The name/content views of a member list.
pub open spec fn files_view(files: Seq<(String, Vec<u8>)>) -> Seq<(Seq<char>, Seq<u8>)> {
    Seq::new(files.len(), |i: int| (files[i].0@, files[i].1@))
}

/// Relies on `zip::ZipWriter` (`start_file`, `write_all`, `finish`) with
/// deflate compression: extracting what it wrote, with `zip::ZipArchive`,
/// yields the same members in the same order. The header stores each member
/// name's byte length in sixteen bits, so longer names are refused up front;
/// with an in-memory buffer the only write failure is a member beyond the
/// format's four-gibibyte plain-size field.
#[verifier::external_body]
pub(crate) fn zip_pack(files: &Vec<(String, Vec<u8>)>) -> (r: Result<Vec<u8>, ArchiveError>)
    requires
        forall|i: int|
            0 <= i < files@.len() ==> vstd::utf8::encode_utf8(
                (#[trigger] files@[i]).0@,
            ).len() < 65536,
    ensures
        r matches Ok(bytes) ==> bytes@ == zip_of(files_view(files@)) && unzip_of(bytes@) == Some(
            files_view(files@),
        ),
        r is Err ==> exists|i: int|
            0 <= i < files@.len() && (#[trigger] files@[i]).1@.len() > 0xFFFFFFFF,
{
    let mut zw = zip::ZipWriter::new(std::io::Cursor::new(Vec::new()));
    let opts = zip::write::FileOptions::default().compression_method(
        zip::CompressionMethod::Deflated,
    ).compression_level(Some(9));
    for (name, data) in files.iter() {
        zw.start_file(name, opts).map_err(|_| ArchiveError::WriteFailed)?;
        zw.write_all(data).map_err(|_| ArchiveError::WriteFailed)?;
    }
    Ok(zw.finish().map_err(|_| ArchiveError::WriteFailed)?.into_inner())
}

/// Relies on `zip::ZipArchive` (`new`, `by_index`, `read_to_end`, `name`):
/// extraction is a deterministic function of the archive bytes, and this body
/// performs exactly the extraction that `unzip_of` names.
#[verifier::external_body]
pub(crate) fn zip_extract(data: &Vec<u8>) -> (r: Result<Vec<(String, Vec<u8>)>, ArchiveError>)
    ensures
        r matches Ok(files) ==> unzip_of(data@) == Some(files_view(files@)),
        r is Err ==> unzip_of(data@) is None,
{
    let cur = std::io::Cursor::new(data.clone());
    let mut ar = zip::ZipArchive::new(cur).map_err(|_| ArchiveError::ReadFailed)?;
    let mut out = Vec::new();
    for i in 0..ar.len() {
        let mut f = ar.by_index(i).map_err(|_| ArchiveError::ReadFailed)?;
        let mut buf = Vec::new();
        f.read_to_end(&mut buf).map_err(|_| ArchiveError::ReadFailed)?;
        out.push((f.name().to_string(), buf));
    }
    Ok(out)
}

} // verus!
