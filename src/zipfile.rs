//! The calls into the `zip` crate that the overlay makes, each with the
//! contract it is relied on for.

use vstd::prelude::*;
use std::io::{Read, Write};

verus! {

#[verifier::external_type_specification]
#[verifier::external_body]
#[verifier::reject_recursive_types(T)]
pub struct ExCursor<T>(std::io::Cursor<T>);

#[verifier::external_type_specification]
#[verifier::external_body]
#[verifier::reject_recursive_types(R)]
pub struct ExZipArchive<R>(zip::ZipArchive<R>);

#[verifier::external_type_specification]
#[verifier::external_body]
pub struct ExZipError(zip::result::ZipError);

#[verifier::external_type_specification]
#[verifier::external_body]
pub struct ExCompressionMethod(zip::CompressionMethod);

pub type Archive = zip::ZipArchive<std::io::Cursor<Vec<u8>>>;

/// A zip writer into memory. Its state is known through `written_entries`,
/// `healthy` and `zip_output` alone.
#[verifier::external_body]
pub struct ArchiveWriter {
    inner: zip::ZipWriter<std::io::Cursor<Vec<u8>>>,
}

/// How an entry's data is compressed.
#[derive(Clone, Copy)]
pub enum Method {
    Stored,
    Deflated,
    Other(zip::CompressionMethod),
}

/// Whether entries can be written with this method.
pub open spec fn writable_method(m: Method) -> bool {
    m is Stored || m is Deflated
}

/// One entry of a zip archive.
pub ghost struct ArchiveEntry {
    /// The stored name.
    pub name: Seq<char>,
    /// The compression method.
    pub method: Method,
    /// The decompressed contents.
    pub data: Seq<u8>,
    /// The entry's stored record: its compressed bytes and the values of its
    /// header, as a raw copy carries them over.
    pub stored: Seq<u8>,
    /// Whether the entry's local header can be found, so that its stored
    /// bytes can be read without decompressing them.
    pub locatable: bool,
    /// Whether the entry can be read and decompressed.
    pub decodable: bool,
}

/// What opening `bytes` as an archive yields: its entries in
/// central-directory order, or `None` where the bytes are not an archive.
pub uninterp spec fn zip_entries(bytes: Seq<u8>) -> Option<Seq<ArchiveEntry>>;

/// The entries of an opened archive, in central-directory order.
pub uninterp spec fn archive_entries(a: Archive) -> Seq<ArchiveEntry>;

/// The entries handed to a writer so far, in order.
pub uninterp spec fn written_entries(w: ArchiveWriter) -> Seq<ArchiveEntry>;

/// Whether no call on the writer has failed.
pub uninterp spec fn healthy(w: ArchiveWriter) -> bool;

/// The bytes that finishing a writer yields.
pub uninterp spec fn zip_output(w: ArchiveWriter) -> Seq<u8>;

/// Relies on `zip::ZipArchive::new`: reads the central directory of
/// `bytes`; the outcome depends on the bytes alone.
#[verifier::external_body]
pub fn open_archive(bytes: Vec<u8>) -> (r: Result<Archive, zip::result::ZipError>)
    ensures
        r is Ok <==> zip_entries(bytes@) is Some,
        r matches Ok(a) ==> zip_entries(bytes@) == Some(archive_entries(a)),
{
    zip::ZipArchive::new(std::io::Cursor::new(bytes))
}

/// Relies on `zip::ZipArchive::len`: the number of entries.
#[verifier::external_body]
pub fn archive_len(a: &Archive) -> (r: usize)
    ensures
        r == archive_entries(*a).len(),
{
    a.len()
}

/// Relies on `zip::ZipArchive::by_index_raw` with `ZipFile::name` and
/// `ZipFile::compression`: the name and method of entry `i`, read without
/// decompressing; the entries stay as they are.
#[verifier::external_body]
pub fn entry_header(a: &mut Archive, i: usize) -> (r: Result<(String, Method), zip::result::ZipError>)
    requires
        i < archive_entries(*old(a)).len(),
    ensures
        archive_entries(*final(a)) == archive_entries(*old(a)),
        archive_entries(*old(a))[i as int].locatable ==> r is Ok,
        r matches Ok((n, m)) ==> n@ == archive_entries(*old(a))[i as int].name
            && m == archive_entries(*old(a))[i as int].method,
{
    let f = a.by_index_raw(i)?;
    let m = match f.compression() {
        zip::CompressionMethod::Stored => Method::Stored,
        zip::CompressionMethod::Deflated => Method::Deflated,
        other => Method::Other(other),
    };
    Ok((f.name().to_string(), m))
}

/// Relies on `zip::ZipArchive::by_index` and `Read::read_to_end` on the
/// entry: the decompressed contents of entry `i`; the entries stay as they are.
#[verifier::external_body]
pub fn read_entry(a: &mut Archive, i: usize) -> (r: Result<Vec<u8>, zip::result::ZipError>)
    requires
        i < archive_entries(*old(a)).len(),
    ensures
        archive_entries(*final(a)) == archive_entries(*old(a)),
        archive_entries(*old(a))[i as int].decodable ==> r is Ok,
        r matches Ok(v) ==> v@ == archive_entries(*old(a))[i as int].data,
{
    let mut f = a.by_index(i)?;
    let mut buf = Vec::new();
    f.read_to_end(&mut buf)?;
    Ok(buf)
}

/// Relies on `zip::ZipWriter::new`: a writer that has been given no entry.
#[verifier::external_body]
pub fn new_writer() -> (w: ArchiveWriter)
    ensures
        written_entries(w) == Seq::<ArchiveEntry>::empty(),
        healthy(w),
{
    ArchiveWriter { inner: zip::ZipWriter::new(std::io::Cursor::new(Vec::new())) }
}

/// Relies on `zip::ZipWriter::start_file` with default options but the
/// method, followed by `Write::write_all`: appends an entry named `name`,
/// compressed with `method`, holding `contents`. Into memory this fails only
/// for a method that cannot be written or past the 32-bit size limit.
#[verifier::external_body]
pub fn write_file(w: &mut ArchiveWriter, name: &str, method: Method, contents: &[u8]) -> (r: Result<(), zip::result::ZipError>)
    ensures
        healthy(*old(w)) && writable_method(method) && contents@.len() <= 0x7fff_ffff ==> r is Ok,
        r is Ok && contents@.len() <= 0x7fff_ffff ==> healthy(*final(w)),
        r is Ok ==> {
            let old_es = written_entries(*old(w));
            let es = written_entries(*final(w));
            &&& es.len() == old_es.len() + 1
            &&& es.subrange(0, old_es.len() as int) == old_es
            &&& es.last().name == name@
            &&& es.last().method == method
            &&& es.last().data == contents@
        },
{
    let m = match method {
        Method::Stored => zip::CompressionMethod::Stored,
        Method::Deflated => zip::CompressionMethod::Deflated,
        Method::Other(m) => m,
    };
    w.inner.start_file(name, zip::write::FileOptions::default().compression_method(m))?;
    w.inner.write_all(contents)?;
    Ok(())
}

/// Relies on `zip::ZipWriter::raw_copy_file` of `zip::ZipArchive::by_index_raw`:
/// appends entry `i` of `a` as it is stored, without recompressing it.
#[verifier::external_body]
pub fn copy_raw(w: &mut ArchiveWriter, a: &mut Archive, i: usize) -> (r: Result<(), zip::result::ZipError>)
    requires
        i < archive_entries(*old(a)).len(),
    ensures
        archive_entries(*final(a)) == archive_entries(*old(a)),
        healthy(*old(w)) && archive_entries(*old(a))[i as int].locatable ==> r is Ok,
        r is Ok ==> healthy(*final(w))
            && written_entries(*final(w)) == written_entries(*old(w)).push(archive_entries(*old(a))[i as int]),
{
    let f = a.by_index_raw(i)?;
    w.inner.raw_copy_file(f)
}

/// Relies on `zip::ZipWriter::finish`: writes the central directory and
/// yields the archive's bytes.
#[verifier::external_body]
pub fn finish_archive(w: ArchiveWriter) -> (r: Result<Vec<u8>, zip::result::ZipError>)
    ensures
        healthy(w) ==> r is Ok,
        r matches Ok(b) ==> b@ == zip_output(w),
{
    let mut w = w;
    Ok(w.inner.finish()?.into_inner())
}

} // verus!
