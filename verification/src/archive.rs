//! The archiver: from the files of a staged tree to the bytes of an archive.
//!
//! The containers themselves are written by outside code. Each writer is
//! held in a buffer type of this module and reached through one function per
//! call; the contracts of those functions are trusted, not proved.

use vstd::prelude::*;
use vstd::slice::slice_to_vec;
use vstd::string::StringExecFns;
use crate::data::Capabilities;
use crate::error::ArchiveFailure;
use crate::error::Failure;
use crate::format::Format;
use crate::namespace::texts;
use crate::path::all_text;
use crate::path::component_texts;
use crate::path::join;
use crate::path::joined;
use crate::path::to_texts;

verus! {

/// `std::io::Error`, carried from the writers to the caller as it is.
#[verifier::external_type_specification]
#[verifier::external_body]
pub struct ExIoError(std::io::Error);

/// `zip::result::ZipError`, carried from the writer to the caller as it is.
#[verifier::external_type_specification]
#[verifier::external_body]
pub struct ExZipError(zip::result::ZipError);

/// How an entry is stored in a zip archive.
#[derive(Debug, Clone, Copy, PartialEq, Eq, Structural)]
pub enum Method {
    Stored,
    Deflated,
}

/// A zip archive under construction, in memory. It holds a
/// `zip::ZipWriter` over a cursor on a byte vector.
#[verifier::external_body]
pub struct ZipBuffer {
    inner: zip::ZipWriter<std::io::Cursor<Vec<u8>>>,
}

/// A gzip stream under construction, in memory. It holds a
/// `flate2::write::GzEncoder` over a byte vector.
#[verifier::external_body]
pub struct GzipBuffer {
    inner: flate2::write::GzEncoder<Vec<u8>>,
}

/// The entries of a zip archive under construction, oldest first: name,
/// method, permission bits, content.
pub uninterp spec fn zip_entries(w: ZipBuffer) -> Seq<(Seq<char>, Method, u32, Seq<u8>)>;

/// No call on the archive under construction has failed: it holds its
/// entries and nothing else.
pub uninterp spec fn zip_clean(w: ZipBuffer) -> bool;

/// The writer of an archive that holds `entries` starts an entry with the
/// given name, method and permissions.
pub uninterp spec fn zip_start_takes(
    entries: Seq<(Seq<char>, Method, u32, Seq<u8>)>,
    name: Seq<char>,
    method: Method,
    mode: u32,
) -> bool;

/// The writer of an archive that holds `entries` takes `bytes` as more
/// content of the last entry.
pub uninterp spec fn zip_write_takes(
    entries: Seq<(Seq<char>, Method, u32, Seq<u8>)>,
    bytes: Seq<u8>,
) -> bool;

/// The writer of an archive that holds `entries` finishes it.
pub uninterp spec fn zip_finish_takes(entries: Seq<(Seq<char>, Method, u32, Seq<u8>)>) -> bool;

/// The bytes of the finished zip archive that holds the given entries.
pub uninterp spec fn zip_image(entries: Seq<(Seq<char>, Method, u32, Seq<u8>)>) -> Seq<u8>;

/// The bytes that were fed to a gzip stream so far.
pub uninterp spec fn gzip_input(e: GzipBuffer) -> Seq<u8>;

/// No call on the gzip stream has failed.
pub uninterp spec fn gzip_clean(e: GzipBuffer) -> bool;

/// The encoder of a stream that was fed `input` takes `bytes` as well.
pub uninterp spec fn gzip_write_takes(input: Seq<u8>, bytes: Seq<u8>) -> bool;

/// The encoder of a stream that was fed `input` finishes it.
pub uninterp spec fn gzip_finish_takes(input: Seq<u8>) -> bool;

/// The gzip stream, at the default level, of the given bytes.
pub uninterp spec fn gzip_image(input: Seq<u8>) -> Seq<u8>;

/// Calls `zip::ZipWriter::new` on a cursor over an empty vector. Trusted:
/// the new archive has no entries and is clean.
#[verifier::external_body]
pub(crate) fn zip_new() -> (w: ZipBuffer)
    ensures
        zip_entries(w) == Seq::<(Seq<char>, Method, u32, Seq<u8>)>::empty(),
        zip_clean(w),
{
    ZipBuffer { inner: zip::ZipWriter::new(std::io::Cursor::new(Vec::new())) }
}

/// Calls `zip::ZipWriter::start_file` with the given name, compression
/// method and unix permissions. Trusted: on a clean archive, whether the
/// call succeeds depends on the entries and the arguments alone (it fails
/// for a name that the archive has, for a name too long for a header, and
/// where the entry before cannot be closed), which `zip_start_takes`
/// names. Where it succeeds, the archive has one more entry, the last,
/// with that name and method, the low nine bits of `mode`, and no content
/// yet; the earlier entries are as they were, and a clean archive stays
/// clean. Nothing is claimed of the archive after a failure.
#[verifier::external_body]
pub(crate) fn zip_start(w: &mut ZipBuffer, name: &str, method: Method, mode: u32) -> (r: Result<
    (),
    zip::result::ZipError,
>)
    ensures
        zip_clean(*old(w)) ==> (r is Ok <==> zip_start_takes(
            zip_entries(*old(w)),
            name@,
            method,
            mode,
        )),
        zip_clean(*old(w)) && r is Ok ==> zip_clean(*final(w)),
        r is Ok ==> zip_entries(*final(w)) == zip_entries(*old(w)).push(
            (name@, method, mode & 0o777, Seq::<u8>::empty()),
        ),
{
    let method = match method {
        Method::Stored => zip::CompressionMethod::Stored,
        Method::Deflated => zip::CompressionMethod::Deflated,
    };
    let options = zip::write::SimpleFileOptions::default();
    w.inner.start_file(name, options.compression_method(method).unix_permissions(mode))
}

/// Calls `write_all` of the `std::io::Write` impl of `zip::ZipWriter`.
/// Trusted: on a clean archive, whether the call succeeds depends on the
/// entries and the bytes alone (it fails where the entry grows past what
/// an entry without the large-file option may hold), which
/// `zip_write_takes` names. Where it succeeds, the bytes are appended to
/// the content of the last entry, nothing else changes, and a clean
/// archive stays clean. Nothing is claimed of the archive after a failure.
#[verifier::external_body]
pub(crate) fn zip_write(w: &mut ZipBuffer, bytes: &[u8]) -> (r: Result<(), std::io::Error>)
    requires
        zip_entries(*old(w)).len() > 0,
    ensures
        zip_clean(*old(w)) ==> (r is Ok <==> zip_write_takes(zip_entries(*old(w)), bytes@)),
        zip_clean(*old(w)) && r is Ok ==> zip_clean(*final(w)),
        r is Ok ==> zip_entries(*final(w)) == zip_entries(*old(w)).update(
            zip_entries(*old(w)).len() - 1,
            (
                zip_entries(*old(w)).last().0,
                zip_entries(*old(w)).last().1,
                zip_entries(*old(w)).last().2,
                zip_entries(*old(w)).last().3 + bytes@,
            ),
        ),
{
    std::io::Write::write_all(&mut w.inner, bytes)
}

/// Calls `zip::ZipWriter::finish` and takes the vector out of the cursor
/// that it returns. Trusted, of a clean archive only: whether the call
/// succeeds depends on the entries alone, which `zip_finish_takes` names,
/// and so do the bytes, which `zip_image` names. The writer stamps no
/// time (the crate is built without its `time` feature); it does write
/// the kind of system it was compiled for, so an image belongs to one
/// build target.
#[verifier::external_body]
pub(crate) fn zip_finish(w: ZipBuffer) -> (r: Result<Vec<u8>, zip::result::ZipError>)
    ensures
        zip_clean(w) ==> (r is Ok <==> zip_finish_takes(zip_entries(w))),
        zip_clean(w) ==> (r matches Ok(bytes) ==> bytes@ == zip_image(zip_entries(w))),
{
    match w.inner.finish() {
        Ok(cursor) => Ok(cursor.into_inner()),
        Err(e) => Err(e),
    }
}

/// Calls `flate2::write::GzEncoder::new` on an empty vector, with
/// `flate2::Compression::default()`. Trusted: nothing was fed to the new
/// stream, and it is clean.
#[verifier::external_body]
pub(crate) fn gzip_new() -> (e: GzipBuffer)
    ensures
        gzip_input(e) == Seq::<u8>::empty(),
        gzip_clean(e),
{
    GzipBuffer { inner: flate2::write::GzEncoder::new(Vec::new(), flate2::Compression::default()) }
}

/// Calls `write_all` of the `std::io::Write` impl of
/// `flate2::write::GzEncoder`. Trusted: on a clean stream, whether the
/// call succeeds depends on what was fed and on the bytes alone, which
/// `gzip_write_takes` names. Where it succeeds, the bytes were fed to the
/// stream after what it had, and a clean stream stays clean.
#[verifier::external_body]
pub(crate) fn gzip_write(e: &mut GzipBuffer, bytes: &[u8]) -> (r: Result<(), std::io::Error>)
    ensures
        gzip_clean(*old(e)) ==> (r is Ok <==> gzip_write_takes(gzip_input(*old(e)), bytes@)),
        gzip_clean(*old(e)) && r is Ok ==> gzip_clean(*final(e)),
        r is Ok ==> gzip_input(*final(e)) == gzip_input(*old(e)) + bytes@,
{
    std::io::Write::write_all(&mut e.inner, bytes)
}

/// Calls `flate2::write::GzEncoder::finish`. Trusted, of a clean stream
/// only: whether the call succeeds depends on the bytes fed alone, which
/// `gzip_finish_takes` names, and so does the stream that comes back (the
/// encoder writes no time and a fixed system byte), which `gzip_image`
/// names.
#[verifier::external_body]
pub(crate) fn gzip_finish(e: GzipBuffer) -> (r: Result<Vec<u8>, std::io::Error>)
    ensures
        gzip_clean(e) ==> (r is Ok <==> gzip_finish_takes(gzip_input(e))),
        gzip_clean(e) ==> (r matches Ok(bytes) ==> bytes@ == gzip_image(gzip_input(e))),
{
    e.inner.finish()
}

/// The permission bits that every zip entry gets: `rwxrw-rw-`. The
/// permissions of the file on disk are not read.
pub const ZIP_MODE: u32 = 0o766;

/// A regular file of the staged tree.
#[derive(Debug)]
pub struct SourceFile {
    /// The components of the file's path relative to the root of the
    /// tree; `None` for a component that is not valid text.
    pub components: Vec<Option<String>>,
    /// The content of the file.
    pub content: Vec<u8>,
}

/// What the archiver takes from the staged tree.
#[derive(Debug)]
pub struct Staged {
    /// Every regular file under the root, in the order of the walk.
    pub files: Vec<SourceFile>,
    /// The root, appended recursively as `.` to a tar stream.
    pub tar_stream: Vec<u8>,
}

/// Which part of [`Staged`] a format is made from.
#[derive(Debug, Clone, Copy, PartialEq, Eq, Structural)]
pub enum Source {
    Files,
    TarStream,
}

/// The name of the entry for a file: its components joined by `/`, where
/// all of them are text.
pub open spec fn entry_path(components: Seq<Option<String>>) -> Option<Seq<char>> {
    if all_text(components) {
        Some(joined(component_texts(components)))
    } else {
        None
    }
}

/// The zip entry that a file makes.
pub open spec fn member(file: SourceFile) -> (Seq<char>, Method, u32, Seq<u8>) {
    (entry_path(file.components@)->Some_0, Method::Deflated, ZIP_MODE, file.content@)
}

/// The zip entries that a list of files makes: one for each, in order.
pub open spec fn members(files: Seq<SourceFile>) -> Seq<(Seq<char>, Method, u32, Seq<u8>)> {
    Seq::new(files.len(), |i: int| member(files[i]))
}

/// Every file of the list has a path that is text.
pub open spec fn all_named(files: Seq<SourceFile>) -> bool {
    forall|i: int| 0 <= i < files.len() ==> entry_path((#[trigger] files[i]).components@) is Some
}

/// File `at` is the first whose path is not text.
pub open spec fn first_unnamed(files: Seq<SourceFile>, at: int) -> bool {
    &&& 0 <= at < files.len()
    &&& entry_path(files[at].components@) is None
    &&& all_named(files.take(at))
}

/// The writer takes entry `i` after the entries before it: it starts the
/// entry and takes its content.
pub open spec fn zip_takes(entries: Seq<(Seq<char>, Method, u32, Seq<u8>)>, i: int) -> bool {
    &&& zip_start_takes(entries.take(i), entries[i].0, entries[i].1, entries[i].2)
    &&& zip_write_takes(
        entries.take(i).push((entries[i].0, entries[i].1, entries[i].2 & 0o777, Seq::<u8>::empty())),
        entries[i].3,
    )
}

/// The writer takes every entry in turn.
pub open spec fn zip_takes_all(entries: Seq<(Seq<char>, Method, u32, Seq<u8>)>) -> bool {
    forall|i: int| 0 <= i < entries.len() ==> #[trigger] zip_takes(entries, i)
}

/// The writer takes every entry in turn and finishes the archive.
pub open spec fn zip_accepts(entries: Seq<(Seq<char>, Method, u32, Seq<u8>)>) -> bool {
    zip_takes_all(entries) && zip_finish_takes(entries)
}

/// The encoder takes the bytes and finishes the stream.
pub open spec fn gzip_takes(input: Seq<u8>) -> bool {
    gzip_write_takes(Seq::<u8>::empty(), input) && gzip_finish_takes(input)
}

/// What packing `files` into a zip archive comes to.
///
/// It succeeds exactly where every path is text and the writer accepts
/// the entries; the bytes are then the image of one entry per file. It
/// fails with `InvalidPath` exactly at the first file whose path is not
/// text, where the writer took every file before it. Every other failure
/// is the writer's.
pub open spec fn zipped(r: Result<Vec<u8>, Failure>, files: Seq<SourceFile>) -> bool {
    &&& r is Ok <==> all_named(files) && zip_accepts(members(files))
    &&& r matches Ok(bytes) ==> bytes@ == zip_image(members(files))
    &&& forall|i: int|
        first_unnamed(files, i) && #[trigger] zip_takes_all(members(files.take(i))) ==> (r matches Err(
            Failure::InvalidPath { index },
        ) && index == i)
    &&& r matches Err(Failure::InvalidPath { index }) ==> first_unnamed(files, index as int)
        && zip_takes_all(members(files.take(index as int)))
    &&& r matches Err(f) ==> f is InvalidPath || f is Archive
}

/// What wrapping `tar_stream` in gzip comes to: the image of the stream
/// exactly where the encoder takes it, else the encoder's failure.
pub open spec fn gzipped(r: Result<Vec<u8>, Failure>, tar_stream: Seq<u8>) -> bool {
    &&& r is Ok <==> gzip_takes(tar_stream)
    &&& r matches Ok(bytes) ==> bytes@ == gzip_image(tar_stream)
    &&& r matches Err(f) ==> f is Archive
}

/// The name of an archive format in a failure.
pub open spec fn format_label(format: Format) -> Seq<char> {
    match format {
        Format::Tar => "tar"@,
        Format::Tgz => "tgz"@,
        Format::Zip => "zip"@,
    }
}

/// The name of the entry for a file with the given path: its components
/// joined by `/` on every platform. `None` where a component is not text.
pub fn entry_name(components: &[Option<String>]) -> (r: Option<String>)
    ensures
        match entry_path(components@) {
            Some(name) => r matches Some(s) && s@ == name,
            None => r is None,
        },
{
    match to_texts(components) {
        Some(parts) => Some(join(parts.as_slice())),
        None => None,
    }
}

/// Which part of the staged tree a format is made from. Fails, before
/// anything is read or written, for a format that is not available.
pub fn source_for(format: Format, caps: &Capabilities) -> (r: Result<Source, Failure>)
    ensures
        match r {
            Ok(source) => caps.writes(format) && source == (if format == Format::Zip {
                Source::Files
            } else {
                Source::TarStream
            }),
            Err(f) => !caps.writes(format) && (f matches Failure::UnsupportedFormat { name }
                && name@ == format_label(format)),
        },
{
    if !caps.can_write(format) {
        return Err(unsupported(format));
    }
    match format {
        Format::Zip => Ok(Source::Files),
        Format::Tar => Ok(Source::TarStream),
        Format::Tgz => Ok(Source::TarStream),
    }
}

/// The failure for an archive format that is not available.
pub fn unsupported(format: Format) -> (f: Failure)
    ensures
        f matches Failure::UnsupportedFormat { name } && name@ == format_label(format),
{
    let label = match format {
        Format::Tar => "tar",
        Format::Tgz => "tgz",
        Format::Zip => "zip",
    };
    Failure::UnsupportedFormat { name: String::from_str(label) }
}

/// For a file before `i`, it is the same whether the writer is asked
/// about the first `i` files or about all of them.
proof fn lemma_takes_prefix(files: Seq<SourceFile>, i: int, k: int)
    requires
        0 <= k < i <= files.len(),
    ensures
        zip_takes(members(files.take(i)), k) == zip_takes(members(files), k),
        members(files.take(i)) == members(files).take(i),
{
    assert(members(files.take(i)) =~= members(files).take(i));
    assert(members(files.take(i)).take(k) =~= members(files).take(k));
    assert(files.take(i)[k] == files[k]);
}

/// Where the writer refuses file `i`, it does not take all files, nor all
/// files of any longer prefix, and no later file is the one that decides.
proof fn lemma_refused(files: Seq<SourceFile>, i: int)
    requires
        0 <= i < files.len(),
        all_named(files.take(i + 1)),
        !zip_takes(members(files), i),
    ensures
        !zip_takes_all(members(files)),
        forall|j: int|
            !(first_unnamed(files, j) && #[trigger] zip_takes_all(members(files.take(j)))),
{
    assert forall|j: int|
        !(first_unnamed(files, j) && #[trigger] zip_takes_all(members(files.take(j)))) by {
        if first_unnamed(files, j) {
            if j <= i {
                assert(files.take(i + 1)[j] == files[j]);
            } else {
                lemma_takes_prefix(files, j, i);
                if zip_takes_all(members(files.take(j))) {
                    assert(zip_takes(members(files.take(j)), i));
                }
            }
        }
    }
}

/// Where file `i` is the first whose path is not text, no other file is.
proof fn lemma_first_unnamed_is_one(files: Seq<SourceFile>, i: int)
    requires
        first_unnamed(files, i),
    ensures
        !all_named(files),
        forall|j: int| first_unnamed(files, j) ==> j == i,
{
    assert forall|j: int| first_unnamed(files, j) implies j == i by {
        if j < i {
            assert(files.take(i)[j] == files[j]);
        }
        if i < j {
            assert(files.take(j)[i] == files[i]);
        }
    }
}

/// Packs the files into a zip archive: one entry for each, in order, named
/// by its path with `/` between the components, deflated, with the
/// permission bits [`ZIP_MODE`]. A file whose path is not text ends the
/// work with `InvalidPath`; a refusal of the writer ends it with `Archive`.
pub fn compress_zip(files: &[SourceFile], caps: &Capabilities) -> (r: Result<Vec<u8>, Failure>)
    ensures
        !caps.zip ==> (r matches Err(Failure::UnsupportedFormat { name }) && name@ == format_label(
            Format::Zip,
        )),
        caps.zip ==> zipped(r, files@),
{
    if !caps.zip {
        return Err(unsupported(Format::Zip));
    }
    let mut zip = zip_new();
    let mut i: usize = 0;
    assert(members(files@.take(0)) =~= zip_entries(zip));
    while i < files.len()
        invariant
            caps.zip,
            i <= files@.len(),
            all_named(files@.take(i as int)),
            zip_clean(zip),
            zip_entries(zip) == members(files@.take(i as int)),
            zip_takes_all(members(files@.take(i as int))),
        decreases files@.len() - i,
    {
        let file = &files[i];
        let ghost next = files@.take(i + 1);
        let ghost before = zip_entries(zip);
        proof {
            assert(next.take(i as int) =~= files@.take(i as int));
            assert(members(files@).take(i as int) =~= before);
            assert(ZIP_MODE & 0o777 == ZIP_MODE) by (bit_vector);
        }
        let name = match entry_name(file.components.as_slice()) {
            Some(name) => name,
            None => {
                proof {
                    lemma_first_unnamed_is_one(files@, i as int);
                }
                return Err(Failure::InvalidPath { index: i });
            },
        };
        proof {
            assert forall|j: int| 0 <= j < next.len() implies entry_path(
                (#[trigger] next[j]).components@,
            ) is Some by {
                if j < i {
                    assert(files@.take(i as int)[j] == next[j]);
                }
            }
        }
        match zip_start(&mut zip, name.as_str(), Method::Deflated, ZIP_MODE) {
            Ok(()) => {},
            Err(e) => {
                proof {
                    lemma_refused(files@, i as int);
                }
                return Err(Failure::Archive { reason: ArchiveFailure::Zip(e) });
            },
        }
        match zip_write(&mut zip, file.content.as_slice()) {
            Ok(()) => {},
            Err(e) => {
                proof {
                    lemma_refused(files@, i as int);
                }
                return Err(Failure::Archive { reason: ArchiveFailure::Io(e) });
            },
        }
        proof {
            assert(Seq::<u8>::empty() + file.content@ =~= file.content@);
            assert(zip_entries(zip) =~= members(next));
            assert(zip_takes(members(files@), i as int));
            assert forall|k: int| 0 <= k < members(next).len() implies #[trigger] zip_takes(
                members(next),
                k,
            ) by {
                lemma_takes_prefix(files@, i + 1, k);
                if k < i {
                    lemma_takes_prefix(files@, i as int, k);
                    assert(zip_takes(members(files@.take(i as int)), k));
                }
            }
        }
        i = i + 1;
    }
    assert(files@.take(files@.len() as int) =~= files@);
    proof {
        assert forall|j: int| !first_unnamed(files@, j) by {}
    }
    match zip_finish(zip) {
        Ok(bytes) => Ok(bytes),
        Err(e) => Err(Failure::Archive { reason: ArchiveFailure::Zip(e) }),
    }
}

/// Wraps a tar stream in gzip, at the encoder's default level.
pub fn compress_tgz(tar_stream: &[u8], caps: &Capabilities) -> (r: Result<Vec<u8>, Failure>)
    ensures
        !caps.tgz ==> (r matches Err(Failure::UnsupportedFormat { name }) && name@ == format_label(
            Format::Tgz,
        )),
        caps.tgz ==> gzipped(r, tar_stream@),
{
    if !caps.tgz {
        return Err(unsupported(Format::Tgz));
    }
    let mut encoder = gzip_new();
    match gzip_write(&mut encoder, tar_stream) {
        Ok(()) => {},
        Err(e) => {
            return Err(Failure::Archive { reason: ArchiveFailure::Io(e) });
        },
    }
    assert(Seq::<u8>::empty() + tar_stream@ =~= tar_stream@);
    match gzip_finish(encoder) {
        Ok(bytes) => Ok(bytes),
        Err(e) => Err(Failure::Archive { reason: ArchiveFailure::Io(e) }),
    }
}

/// The plain tar archive: the tar stream as it is.
pub fn compress_tar(tar_stream: &[u8], caps: &Capabilities) -> (r: Result<Vec<u8>, Failure>)
    ensures
        match r {
            Ok(bytes) => caps.tar && bytes@ == tar_stream@,
            Err(f) => !caps.tar && (f matches Failure::UnsupportedFormat { name } && name@
                == format_label(Format::Tar)),
        },
{
    if !caps.tar {
        return Err(unsupported(Format::Tar));
    }
    Ok(slice_to_vec(tar_stream))
}

/// What packing the staged tree in an available format comes to: the tar
/// stream itself, its gzip stream, or the zip archive of the files.
pub open spec fn packed(r: Result<Vec<u8>, Failure>, staged: Staged, format: Format) -> bool {
    match format {
        Format::Tar => r matches Ok(bytes) && bytes@ == staged.tar_stream@,
        Format::Tgz => gzipped(r, staged.tar_stream@),
        Format::Zip => zipped(r, staged.files@),
    }
}

/// Packs the staged tree into an archive of the given format and returns
/// its bytes. A format that is not available fails at once.
pub fn compress(staged: &Staged, format: Format, caps: &Capabilities) -> (r: Result<Vec<u8>, Failure>)
    ensures
        !caps.writes(format) ==> (r matches Err(Failure::UnsupportedFormat { name }) && name@
            == format_label(format)),
        caps.writes(format) ==> packed(r, *staged, format),
{
    match format {
        Format::Tar => compress_tar(staged.tar_stream.as_slice(), caps),
        Format::Tgz => compress_tgz(staged.tar_stream.as_slice(), caps),
        Format::Zip => compress_zip(staged.files.as_slice(), caps),
    }
}

/// Completeness of the zip plan: as many entries as files, each named by
/// its file's path with `/` between the components and holding its
/// file's content.
pub proof fn lemma_members_complete(files: Seq<SourceFile>)
    requires
        all_named(files),
    ensures
        members(files).len() == files.len(),
        forall|i: int|
            0 <= i < files.len() ==> (#[trigger] members(files)[i]).0 == joined(
                component_texts(files[i].components@),
            ) && members(files)[i].3 == files[i].content@ && members(files)[i].2 == ZIP_MODE,
{
}

} // verus!
