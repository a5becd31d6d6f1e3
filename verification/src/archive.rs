//! The zip container, kept behind the few calls that fill it.

use crate::response_status::{ErrorKind, ResponseStatus};
use std::io::Cursor;
use std::io::Write;
use vstd::prelude::*;
use zip::result::ZipError;
use zip::write::FileOptions;
use zip::ZipWriter;

verus! {

/// One file of an archive: the path it is stored under and what it holds.
pub struct ArchiveEntry {
    pub path: Seq<char>,
    pub content: Seq<u8>,
}

/// `zip::result::ZipError`, the error of the zip writer. Nothing is known
/// of what is in it.
#[verifier::external_type_specification]
#[verifier::external_body]
pub struct ExZipError(ZipError);

/// `std::io::Error`, the error of a write. Nothing is known of what is in
/// it.
#[verifier::external_type_specification]
#[verifier::external_body]
pub struct ExIoError(std::io::Error);

/// A zip archive that is being written into memory: `zip::ZipWriter` over a
/// `std::io::Cursor` on a byte vector. What it holds is known only through
/// `archive_entries` and `writer_open`, and only as far as the calls below
/// say. A writer that is dropped before it was finished finishes into its
/// own buffer, which goes with it.
#[verifier::external_body]
pub struct ArchiveWriter {
    inner: ZipWriter<Cursor<Vec<u8>>>,
}

/// The files that the writer has been given so far, in the order in which
/// they were started, each with the bytes written to it.
pub uninterp spec fn archive_entries(w: ArchiveWriter) -> Seq<ArchiveEntry>;

/// The bytes that `ZipWriter::finish` hands back for this writer.
pub uninterp spec fn finished_archive(w: ArchiveWriter) -> Seq<u8>;

/// Whether the writer is in working order: it is as `new` gives it, or as
/// calls of `start_file` and `write_all` leave it from there. A writer
/// that has been finished is not.
pub uninterp spec fn writer_open(w: ArchiveWriter) -> bool;

/// `entries` with `data` added to the end of its last file.
pub open spec fn with_data(entries: Seq<ArchiveEntry>, data: Seq<u8>) -> Seq<ArchiveEntry> {
    if entries.len() == 0 {
        entries
    } else {
        entries.update(
            entries.len() - 1,
            ArchiveEntry { path: entries.last().path, content: entries.last().content + data },
        )
    }
}

/// `bytes` is what the zip writer hands back when it is finished in
/// working order after it was given exactly `entries`.
pub open spec fn is_archive_of(bytes: Seq<u8>, entries: Seq<ArchiveEntry>) -> bool {
    exists|w: ArchiveWriter|
        writer_open(w) && archive_entries(w) == entries && #[trigger] finished_archive(w) == bytes
}

impl ArchiveWriter {
    /// `ZipWriter::new`: a writer in working order that holds no file yet.
    #[verifier::external_body]
    pub(crate) fn new() -> (w: Self)
        ensures
            archive_entries(w) == Seq::<ArchiveEntry>::empty(),
            writer_open(w),
    {
        ArchiveWriter { inner: ZipWriter::new(Cursor::new(Vec::new())) }
    }

    /// `ZipWriter::start_file`, with the default options and room for a
    /// large file: the file before is closed, and a new, empty file named
    /// `path` is the last one.
    ///
    /// The call succeeds: with room for a large file the zip writer refuses
    /// no size, the compressor is given the parameters that it is made
    /// with, and what is written goes to a vector in memory.
    #[verifier::external_body]
    pub(crate) fn start_file(&mut self, path: &str) -> (r: Result<(), ZipError>)
        requires
            writer_open(*old(self)),
        ensures
            r is Ok,
            archive_entries(*final(self)) == archive_entries(*old(self)).push(
                ArchiveEntry { path: path@, content: Seq::empty() },
            ),
            writer_open(*final(self)),
    {
        self.inner.start_file(path, FileOptions::default().large_file(true))
    }

    /// `Write::write_all` on the writer: all of `data` goes to the end of
    /// the last file. The call succeeds where a file has been started, for
    /// the reasons given at `start_file`; without one it succeeds only
    /// with nothing to write.
    #[verifier::external_body]
    pub(crate) fn write_all(&mut self, data: &[u8]) -> (r: Result<(), std::io::Error>)
        requires
            writer_open(*old(self)),
        ensures
            archive_entries(*old(self)).len() > 0 ==> r is Ok,
            r is Ok ==> archive_entries(*final(self)) == with_data(
                archive_entries(*old(self)),
                data@,
            ),
            r is Ok ==> writer_open(*final(self)),
    {
        self.inner.write_all(data)
    }

    /// `ZipWriter::finish`: closes the last file, writes the directory of
    /// the archive and hands back the bytes of the whole container. The
    /// call succeeds, for the reasons given at `start_file`.
    #[verifier::external_body]
    pub(crate) fn finish(&mut self) -> (r: Result<Vec<u8>, ZipError>)
        requires
            writer_open(*old(self)),
        ensures
            r matches Ok(bytes) && bytes@ == finished_archive(*old(self)),
    {
        self.inner.finish().map(|cursor| cursor.into_inner())
    }
}

/// The error for a zip call that failed.
pub(crate) fn zip_failure(error: ZipError) -> (r: ResponseStatus)
    ensures
        r.kind == ErrorKind::Io,
{
    ResponseStatus::from(error)
}

/// The error for a write that failed.
pub(crate) fn write_failure(error: std::io::Error) -> (r: ResponseStatus)
    ensures
        r.kind == ErrorKind::Io,
{
    ResponseStatus::from(error)
}

} // verus!
