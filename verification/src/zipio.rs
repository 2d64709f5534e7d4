//! Trusted interface to the zip container crate.  The archive's entry list and
//! the writer's output are given names that the wrappers' contracts speak of;
//! all reading and writing goes through in-memory cursors, so the archive work
//! is a pure function from bytes to bytes.

use vstd::prelude::*;
use std::io::Cursor;
use std::io::Read;
use std::io::Write;
use zip::read::ZipArchive;
use zip::result::ZipError;
use zip::write::ZipWriter;
use crate::errors::ArchiveFault;

verus! {

#[verifier::external_type_specification]
#[verifier::external_body]
#[verifier::reject_recursive_types(T)]
pub struct ExCursor<T>(Cursor<T>);

#[verifier::external_type_specification]
#[verifier::external_body]
#[verifier::reject_recursive_types(R)]
pub struct ExZipArchive<R>(ZipArchive<R>);

#[verifier::external_type_specification]
#[verifier::external_body]
pub struct ExZipError(ZipError);

/// What an opened archive holds: for each entry in central-directory order,
/// its sanitized name (when it has one) and its uncompressed content.
pub uninterp spec fn zip_entries(a: ZipArchive<Cursor<Vec<u8>>>) -> Seq<
    (Option<Seq<char>>, Seq<u8>),
>;

/// The entry list that parsing a byte buffer as a zip archive yields.
pub uninterp spec fn zip_parse(data: Seq<u8>) -> Seq<(Option<Seq<char>>, Seq<u8>)>;

/// Whether a byte buffer parses as a zip archive at all: opening an in-memory
/// buffer depends on its bytes alone.
pub uninterp spec fn zip_parseable(data: Seq<u8>) -> bool;

/// Whether every entry of the parsed archive can be read back: stored or
/// deflated, unencrypted, with sound compressed data.  A function of the
/// bytes alone.
pub uninterp spec fn zip_readable(data: Seq<u8>) -> bool;

/// The readability of an opened archive's entries, carried on the archive
/// value so that the per-entry reads can promise success.
pub uninterp spec fn zip_all_readable(a: ZipArchive<Cursor<Vec<u8>>>) -> bool;

/// An output archive being built in memory.  Verus cannot admit the writer's
/// type bounds, so the writer lives in an opaque struct of the library's own.
#[verifier::external_body]
pub struct ZipOut {
    inner: ZipWriter<Cursor<Vec<u8>>>,
}

/// What has been written to an output archive so far: the entries' names and
/// contents, in order.
pub uninterp spec fn zip_written(w: ZipOut) -> Seq<(Seq<char>, Seq<u8>)>;

/// The bytes that closing an output archive holding the given entries
/// produces.  With the fixed default entry options this is a function of the
/// entries alone.
pub uninterp spec fn zip_serialize(entries: Seq<(Seq<char>, Seq<u8>)>) -> Seq<u8>;

/// An entry content small enough that writing it cannot trip the writer's
/// zip64 thresholds: the writer rejects an uncompressed entry beyond
/// 0xFFFF_FFFF bytes and a compressed one beyond the same bound, and deflate's
/// worst-case expansion stays far inside the slack this bound leaves.
pub open spec fn entry_fits(content: Seq<u8>) -> bool {
    content.len() <= 0xFFF0_0000
}

/// Every written entry is small enough for the writer's thresholds.
pub open spec fn all_entries_fit(entries: Seq<(Seq<char>, Seq<u8>)>) -> bool {
    forall|t: int| 0 <= t < entries.len() ==> entry_fits((#[trigger] entries[t]).1)
}

/// Relies on the variants of zip's error type: each is mapped to the library's
/// archive fault of the same meaning, one arm per variant.
#[verifier::external_body]
fn fault_of(e: ZipError) -> ArchiveFault {
    match e {
        ZipError::Io(_) => ArchiveFault::Io,
        ZipError::InvalidArchive(_) => ArchiveFault::Invalid,
        ZipError::UnsupportedArchive(_) => ArchiveFault::Unsupported,
        ZipError::FileNotFound => ArchiveFault::NotFound,
    }
}

/// Relies on zip's ZipArchive::new: it parses the central directory of the
/// byte buffer — succeeding exactly on buffers that parse, a function of the
/// bytes alone — and on success the archive holds exactly the parsed entries.
#[verifier::external_body]
pub(crate) fn zip_open(data: &Vec<u8>) -> (r: Result<ZipArchive<Cursor<Vec<u8>>>, ArchiveFault>)
    ensures
        r is Ok <==> zip_parseable(data@),
        r matches Ok(a) ==> zip_entries(a) == zip_parse(data@) && (zip_all_readable(a)
            <==> zip_readable(data@)),
{
    ZipArchive::new(Cursor::new(data.clone())).map_err(fault_of)
}

/// Relies on zip's ZipArchive::len: the number of entries in the archive.
#[verifier::external_body]
pub(crate) fn zip_len(a: &ZipArchive<Cursor<Vec<u8>>>) -> (r: usize)
    ensures
        r == zip_entries(*a).len(),
{
    a.len()
}

/// Relies on zip's ZipArchive::by_index, ZipFile::enclosed_name and std's
/// read_to_end: yields entry `i`'s sanitized name and full uncompressed
/// content; the archive's entry list is unchanged, and on a fully readable
/// archive the read succeeds.
#[verifier::external_body]
pub(crate) fn zip_entry(a: &mut ZipArchive<Cursor<Vec<u8>>>, i: usize) -> (r: Result<
    (Option<String>, Vec<u8>),
    ArchiveFault,
>)
    requires
        i < zip_entries(*old(a)).len(),
    ensures
        zip_entries(*final(a)) == zip_entries(*old(a)),
        zip_all_readable(*final(a)) == zip_all_readable(*old(a)),
        zip_all_readable(*old(a)) ==> r is Ok,
        r matches Ok(e) ==> {
            let entry = zip_entries(*old(a))[i as int];
            &&& (e.0 matches Some(n) ==> entry.0 == Some(n@))
            &&& (e.0 is None ==> entry.0 is None)
            &&& e.1@ == entry.1
        },
{
    let mut f = a.by_index(i).map_err(fault_of)?;
    let name = f.enclosed_name().and_then(|p| p.to_str()).map(|s| s.to_string());
    let mut buf: Vec<u8> = Vec::new();
    match f.read_to_end(&mut buf) {
        Ok(_) => Ok((name, buf)),
        Err(_) => Err(ArchiveFault::Io),
    }
}

/// Relies on zip's ZipWriter::new over an in-memory cursor: a fresh output
/// archive with nothing written.
#[verifier::external_body]
pub(crate) fn zip_writer_new() -> (w: ZipOut)
    ensures
        zip_written(w) == Seq::<(Seq<char>, Seq<u8>)>::empty(),
{
    ZipOut { inner: ZipWriter::new(Cursor::new(Vec::new())) }
}

/// Relies on zip's ZipWriter::start_file with the default options and std's
/// write_all: on success one entry with the given name and content has been
/// appended to the output.  Writing to an in-memory cursor cannot fail, so
/// the call succeeds whenever this entry and all earlier ones stay under the
/// writer's size thresholds.
#[verifier::external_body]
pub(crate) fn zip_put(w: &mut ZipOut, name: &String, data: &Vec<u8>) -> (r: Result<
    (),
    ArchiveFault,
>)
    ensures
        r is Ok ==> zip_written(*final(w)) == zip_written(*old(w)).push((name@, data@)),
        all_entries_fit(zip_written(*old(w))) && entry_fits(data@) ==> r is Ok,
{
    if let Err(e) = w.inner.start_file(name.as_str(), zip::write::FileOptions::default()) {
        return Err(fault_of(e));
    }
    match w.inner.write_all(data.as_slice()) {
        Ok(_) => Ok(()),
        Err(_) => Err(ArchiveFault::Io),
    }
}

/// Relies on zip's ZipWriter::finish: writes the central directory and hands
/// back the serialized archive, a function of the written entries alone.
/// Consuming the writer keeps this the last operation on it; on an in-memory
/// cursor it succeeds whenever every written entry stayed under the writer's
/// size thresholds.
#[verifier::external_body]
pub(crate) fn zip_finish(w: ZipOut) -> (r: Result<Vec<u8>, ArchiveFault>)
    ensures
        all_entries_fit(zip_written(w)) ==> r is Ok,
        r matches Ok(b) ==> b@ == zip_serialize(zip_written(w)),
{
    let mut w = w;
    match w.inner.finish() {
        Ok(c) => Ok(c.into_inner()),
        Err(e) => Err(fault_of(e)),
    }
}

} // verus!
