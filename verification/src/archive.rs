//! The road node data ships as a zip archive; this reads the text of one
//! entry from the archive's bytes, with the `zip` crate.
use vstd::prelude::*;
use std::io::Cursor;
use std::io::Read;
use zip::read::ZipFile;
use zip::result::ZipError;
use zip::ZipArchive;
use crate::text;

verus! {

/// `zip::ZipArchive`, read by the `zip` crate.
#[verifier::external_type_specification]
#[verifier::external_body]
#[verifier::reject_recursive_types(R)]
pub struct ExZipArchive<R>(ZipArchive<R>);

/// An entry of an archive, as `ZipArchive::by_name` hands it out: a
/// `zip::read::ZipFile` reading from the archive's bytes.
#[verifier::external_body]
pub struct Entry<'a> {
    file: ZipFile<'a, Cursor<Vec<u8>>>,
}

/// The error type of the `zip` crate.
#[verifier::external_type_specification]
#[verifier::external_body]
pub struct ExZipError(ZipError);

/// `std::io::Cursor`, through which the archive reads its bytes.
#[verifier::external_type_specification]
#[verifier::external_body]
#[verifier::reject_recursive_types(T)]
pub struct ExCursor<T>(Cursor<T>);

/// `std::io::Error`.
#[verifier::external_type_specification]
#[verifier::external_body]
pub struct ExIoError(std::io::Error);

/// The bytes that an archive reads from.
pub uninterp spec fn archive_bytes(archive: ZipArchive<Cursor<Vec<u8>>>) -> Seq<u8>;

/// The archive bytes and the name of the entry that an entry handle reads.
pub uninterp spec fn entry_source(entry: Entry<'_>) -> (Seq<u8>, Seq<char>);

/// Whether `ZipArchive::new` reads `bytes` as a zip archive (it finds and
/// reads a central directory there).
pub uninterp spec fn zip_opens(bytes: Seq<u8>) -> bool;

/// Whether `ZipArchive::by_name` finds and opens the entry called `name` in
/// the zip archive made of the bytes `archive`.
pub uninterp spec fn entry_found(archive: Seq<u8>, name: Seq<char>) -> bool;

/// What `read_to_string` gives for the entry called `name` of the zip
/// archive `archive`: its whole text, or `None` where the entry cannot be
/// decompressed, does not pass its checksum, or is not UTF-8.
pub uninterp spec fn entry_read(archive: Seq<u8>, name: Seq<char>) -> Option<Seq<char>>;

/// `ZipArchive::new` over the bytes: reads the archive's central directory.
/// Claimed: whether it succeeds depends on the bytes alone, and an archive
/// that opens reads from exactly these bytes.
#[verifier::external_body]
fn open_archive(bytes: Vec<u8>) -> (r: Result<ZipArchive<Cursor<Vec<u8>>>, ZipError>)
    ensures
        r is Ok <==> zip_opens(bytes@),
        r matches Ok(a) ==> archive_bytes(a) == bytes@,
{
    ZipArchive::new(Cursor::new(bytes))
}

/// `ZipArchive::by_name`: the entry called `name`. Claimed: whether it is
/// found depends on the archive's bytes and the name alone, the handle reads
/// that entry of the archive's bytes, and looking it up leaves the bytes as
/// they were.
#[verifier::external_body]
fn entry_by_name<'a>(archive: &'a mut ZipArchive<Cursor<Vec<u8>>>, name: &str) -> (r: Result<
    Entry<'a>,
    ZipError,
>)
    ensures
        archive_bytes(*final(archive)) == archive_bytes(*old(archive)),
        r is Ok <==> entry_found(archive_bytes(*old(archive)), name@),
        r matches Ok(f) ==> entry_source(f) == (archive_bytes(*old(archive)), name@),
{
    archive.by_name(name).map(|file| Entry { file })
}

/// `<ZipFile as Read>::read_to_string` on a handle that nothing has read
/// yet (the handle is used up): decompresses the whole entry as UTF-8 text.
/// Claimed: it succeeds exactly where the entry reads as text, which depends
/// on the archive's bytes and the entry's name alone, and then gives that text.
#[verifier::external_body]
fn read_entry_text(entry: Entry<'_>) -> (r: Result<String, std::io::Error>)
    ensures
        match entry_read(entry_source(entry).0, entry_source(entry).1) {
            Some(t) => (r matches Ok(s) && s@ == t),
            None => r is Err,
        },
{
    let mut file = entry.file;
    let mut text = String::new();
    file.read_to_string(&mut text).map(|_| text)
}

/// Why an archive entry could not be read; each holds the `zip` crate's or
/// the I/O error's own text.
pub enum ArchiveError {
    /// The bytes are not a zip archive that can be read.
    Open(String),
    /// The archive has no such entry, or it cannot be opened.
    Entry(String),
    /// The entry could not be decompressed as UTF-8 text.
    Decode(String),
}

/// The model of an `ArchiveError`.
pub enum ArchiveErrorModel {
    Open(Seq<char>),
    Entry(Seq<char>),
    Decode(Seq<char>),
}

impl View for ArchiveError {
    type V = ArchiveErrorModel;

    open spec fn view(&self) -> ArchiveErrorModel {
        match self {
            ArchiveError::Open(s) => ArchiveErrorModel::Open(s@),
            ArchiveError::Entry(s) => ArchiveErrorModel::Entry(s@),
            ArchiveError::Decode(s) => ArchiveErrorModel::Decode(s@),
        }
    }
}

/// The text of the entry called `name` in the zip archive `archive`: `Open`
/// where the bytes are no zip archive, `Entry` where the archive has no such
/// entry, `Decode` where the entry does not read as text.
pub fn read_archive_entry(archive: Vec<u8>, name: &str) -> (r: Result<String, ArchiveError>)
    ensures
        !zip_opens(archive@) ==> r matches Err(ArchiveError::Open(_)),
        zip_opens(archive@) && !entry_found(archive@, name@) ==> r matches Err(
            ArchiveError::Entry(_),
        ),
        zip_opens(archive@) && entry_found(archive@, name@) ==> match entry_read(
            archive@,
            name@,
        ) {
            Some(t) => (r matches Ok(s) && s@ == t),
            None => r matches Err(ArchiveError::Decode(_)),
        },
{
    let mut zip = match open_archive(archive) {
        Ok(z) => z,
        Err(error) => {
            return Err(ArchiveError::Open(error.to_string()));
        },
    };
    let entry = match entry_by_name(&mut zip, name) {
        Ok(e) => e,
        Err(error) => {
            return Err(ArchiveError::Entry(error.to_string()));
        },
    };
    match read_entry_text(entry) {
        Ok(t) => Ok(t),
        Err(error) => Err(ArchiveError::Decode(error.to_string())),
    }
}

/// The text that reports an archive error about the entry `name`.
pub open spec fn archive_error_text(e: ArchiveErrorModel, name: Seq<char>) -> Seq<char> {
    match e {
        ArchiveErrorModel::Open(d) => "failed to open embedded nodes: "@ + d,
        ArchiveErrorModel::Entry(d) => "failed to read embedded "@ + name + ": "@ + d,
        ArchiveErrorModel::Decode(d) => "failed to decode embedded "@ + name + ": "@ + d,
    }
}

impl ArchiveError {
    /// The text that reports this error about the entry `name`.
    pub fn message(&self, name: &str) -> (r: String)
        ensures
            r@ == archive_error_text(self@, name@),
    {
        let mut out: Vec<char> = Vec::new();
        match self {
            ArchiveError::Open(d) => {
                text::push_str(&mut out, "failed to open embedded nodes: ");
                text::push_str(&mut out, d.as_str());
            },
            ArchiveError::Entry(d) => {
                text::push_str(&mut out, "failed to read embedded ");
                text::push_str(&mut out, name);
                text::push_str(&mut out, ": ");
                text::push_str(&mut out, d.as_str());
            },
            ArchiveError::Decode(d) => {
                text::push_str(&mut out, "failed to decode embedded ");
                text::push_str(&mut out, name);
                text::push_str(&mut out, ": ");
                text::push_str(&mut out, d.as_str());
            },
        }
        text::string_of(out.as_slice())
    }
}

} // verus!
