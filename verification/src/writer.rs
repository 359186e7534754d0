//! The seam to the `tar` and `flate2` crates: an in-memory writer of
//! gzip-compressed tar streams. Nothing in this file is proved; each contract
//! records what the crates' sources show.
//!
//! The writer works on memory alone, so what it answers and what it writes
//! depend on what it was handed and on nothing else. The names below stand
//! for those answers within one build of this crate: `tar` reads `\` in a
//! name as a separator on Windows, and `flate2` compresses with the backend
//! it was built with.

use vstd::prelude::*;

verus! {

#[verifier::external_type_specification]
#[verifier::external_body]
pub struct ExIoError(std::io::Error);

/// A gzip-compressed tar stream under construction, held in memory: a
/// `tar::Builder` that writes into a `flate2::write::GzEncoder` over a
/// `Vec<u8>`. Both types are bounded by `std::io::Write`, so the pair is held
/// here as one opaque value.
#[verifier::external_body]
pub struct ArchiveWriter {
    inner: tar::Builder<flate2::write::GzEncoder<Vec<u8>>>,
}

/// The entries appended to `w` so far, oldest first: name, permission bits
/// and contents of each.
pub uninterp spec fn writer_entries(w: ArchiveWriter) -> Seq<(Seq<char>, u32, Seq<u8>)>;

/// The compression level that `w` was opened with.
pub uninterp spec fn writer_level(w: ArchiveWriter) -> u32;

/// Whether a writer at `level` that holds `before` takes one more entry with
/// this name, these permission bits and these contents.
pub uninterp spec fn append_accepted(
    level: u32,
    before: Seq<(Seq<char>, u32, Seq<u8>)>,
    name: Seq<char>,
    mode: u32,
    data: Seq<u8>,
) -> bool;

/// Whether a writer at `level` that holds `entries` can be finished.
pub uninterp spec fn finish_accepted(level: u32, entries: Seq<(Seq<char>, u32, Seq<u8>)>) -> bool;

/// The bytes of the finished stream: the gzip member, compressed at `level`,
/// of the tar archive that holds `entries` in order, each under a GNU header
/// with its name, size and permission bits, and zero owner and time.
pub uninterp spec fn archive_image(level: u32, entries: Seq<(Seq<char>, u32, Seq<u8>)>) -> Seq<u8>;

impl ArchiveWriter {
    /// `flate2::write::GzEncoder::new` over an empty vector, at
    /// `flate2::Compression::new(level)`, handed to `tar::Builder::new`.
    /// Neither call writes or fails; the gzip header carries no time stamp,
    /// file name or host system. The writer holds no entry yet.
    #[verifier::external_body]
    pub(crate) fn open(level: u32) -> (w: ArchiveWriter)
        requires
            level <= 9,
        ensures
            writer_entries(w) == Seq::<(Seq<char>, u32, Seq<u8>)>::empty(),
            writer_level(w) == level,
    {
        let sink = flate2::write::GzEncoder::new(Vec::new(), flate2::Compression::new(level));
        ArchiveWriter { inner: tar::Builder::new(sink) }
    }

    /// `tar::Builder::append_data` with a header made by
    /// `tar::Header::new_gnu`, `set_size` and `set_mode`. Whether it returns
    /// `Ok` depends on the writer and the entry alone. Where it does, one
    /// entry has been added behind those already written; nothing is claimed
    /// of the entries where it does not. The level never changes.
    ///
    /// The crate turns a name down where it has no component, is absolute,
    /// or holds `..` or a NUL. A name shorter than 100 bytes is held to that
    /// as a whole. Of any other that does not fit the header as it is, only
    /// the first 100 bytes are, with `..` let through at their end, and the
    /// name is written in full to a long-name record: a NUL further back is
    /// taken, and a reader ends the name there.
    #[verifier::external_body]
    pub(crate) fn append(&mut self, name: &str, mode: u32, data: &Vec<u8>) -> (r: Result<
        (),
        std::io::Error,
    >)
        ensures
            (r is Ok) == append_accepted(
                writer_level(*old(self)),
                writer_entries(*old(self)),
                name@,
                mode,
                data@,
            ),
            r is Ok ==> writer_entries(*final(self)) == writer_entries(*old(self)).push(
                (name@, mode, data@),
            ),
            writer_level(*final(self)) == writer_level(*old(self)),
    {
        let mut header = tar::Header::new_gnu();
        header.set_size(data.len() as u64);
        header.set_mode(mode);
        self.inner.append_data(&mut header, name, data.as_slice())
    }

    /// `tar::Builder::into_inner`, which writes the end-of-archive blocks,
    /// then `flate2::write::GzEncoder::finish`, which writes what is left of
    /// the compressed stream and its trailer and hands out the vector.
    /// Whether both succeed depends on the writer alone. Where they do, the
    /// bytes are those of the stream for the entries appended.
    #[verifier::external_body]
    pub(crate) fn finish(self) -> (r: Result<Vec<u8>, std::io::Error>)
        ensures
            (r is Ok) == finish_accepted(writer_level(self), writer_entries(self)),
            r matches Ok(bytes) ==> bytes@ == archive_image(
                writer_level(self),
                writer_entries(self),
            ),
    {
        self.inner.into_inner()?.finish()
    }
}

} // verus!
