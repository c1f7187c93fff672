//! Reading the model file out of a 3MF package, which is a ZIP archive.

use std::io::Cursor;
use vstd::prelude::*;
use zip::result::ZipError;
use zip::ZipArchive;

verus! {

/// Why no text could be extracted from an archive.
#[derive(Clone, Copy, Debug, PartialEq, Eq, Structural)]
pub enum ArchiveError {
    /// The bytes are no archive, or an entry that the scan reached could
    /// not be opened, decompressed or decoded as text.
    Corrupt,
}

/// What an archive holds for one entry of its directory.
pub struct ArchiveMember {
    /// The entry's name, or nothing where the entry cannot be opened.
    pub name: Option<Seq<char>>,
    /// The entry's content as text, or nothing where the entry cannot be
    /// opened, its data cannot be decompressed, or its content is no
    /// UTF-8 text.
    pub text: Option<Seq<char>>,
}

/// `zip::ZipArchive`, an opened archive over a reader. Nothing is known of
/// a value but what [`archive_members`] names.
#[verifier::external_type_specification]
#[verifier::external_body]
#[verifier::reject_recursive_types(R)]
pub struct ExZipArchive<R>(ZipArchive<R>);

/// `std::io::Cursor`, the reader over bytes in memory on which an archive is
/// opened. Nothing is known of a value.
#[verifier::external_type_specification]
#[verifier::external_body]
#[verifier::reject_recursive_types(T)]
pub struct ExCursor<T>(Cursor<T>);

/// `zip::result::ZipError`, the error of every operation on an archive.
/// Nothing is known of a value.
#[verifier::external_type_specification]
#[verifier::external_body]
pub struct ExZipError(ZipError);

/// The entries of an opened archive, in the order of its central directory:
/// for each what `zip::ZipArchive::by_index` and reading the entry to its
/// end give.
pub uninterp spec fn archive_members(archive: ZipArchive<Cursor<&[u8]>>) -> Seq<ArchiveMember>;

/// The entries of the archive that `bytes` hold, in the order of its central
/// directory, or nothing where `zip::ZipArchive::new` cannot open `bytes` as
/// an archive.
pub uninterp spec fn zip_members(bytes: Seq<u8>) -> Option<Seq<ArchiveMember>>;

/// Opens `bytes` as a ZIP archive with `zip::ZipArchive::new`, on a
/// `std::io::Cursor` over them. The archive that comes back holds the
/// entries of `bytes`; it fails exactly where `bytes` hold no archive.
#[verifier::external_body]
fn open_archive(bytes: &[u8]) -> (opened: Result<ZipArchive<Cursor<&[u8]>>, ZipError>)
    ensures
        match opened {
            Ok(archive) => zip_members(bytes@) == Some(archive_members(archive)),
            Err(_) => zip_members(bytes@) is None,
        },
{
    ZipArchive::new(Cursor::new(bytes))
}

/// The number of entries, from `zip::ZipArchive::len`.
#[verifier::external_body]
fn member_count(archive: &ZipArchive<Cursor<&[u8]>>) -> (count: usize)
    ensures
        count == archive_members(*archive).len(),
{
    archive.len()
}

/// The name of the entry at `index`, from `zip::ZipArchive::by_index` and
/// `zip::read::ZipFile::name`. It fails where the entry cannot be opened.
/// The archive holds afterwards what it held before.
#[verifier::external_body]
fn member_name(archive: &mut ZipArchive<Cursor<&[u8]>>, index: usize) -> (name: Result<
    String,
    ZipError,
>)
    requires
        index < archive_members(*old(archive)).len(),
    ensures
        archive_members(*final(archive)) == archive_members(*old(archive)),
        match name {
            Ok(name) => archive_members(*old(archive))[index as int].name == Some(name@),
            Err(_) => archive_members(*old(archive))[index as int].name is None,
        },
{
    match archive.by_index(index) {
        Ok(file) => Ok(file.name().to_string()),
        Err(error) => Err(error),
    }
}

/// The content of the entry at `index` as text, from
/// `zip::ZipArchive::by_index` and the entry's `std::io::Read::read_to_string`.
/// It fails where the entry cannot be opened, decompressed or decoded.
/// The archive holds afterwards what it held before.
#[verifier::external_body]
fn member_text(archive: &mut ZipArchive<Cursor<&[u8]>>, index: usize) -> (text: Result<
    String,
    ZipError,
>)
    requires
        index < archive_members(*old(archive)).len(),
    ensures
        archive_members(*final(archive)) == archive_members(*old(archive)),
        match text {
            Ok(text) => archive_members(*old(archive))[index as int].text == Some(text@),
            Err(_) => archive_members(*old(archive))[index as int].text is None,
        },
{
    let mut file = archive.by_index(index)?;
    let mut text = String::new();
    match std::io::Read::read_to_string(&mut file, &mut text) {
        Ok(_) => Ok(text),
        Err(error) => Err(ZipError::Io(error)),
    }
}

/// Whether `text` ends with `suffix`, from `str::ends_with`.
#[verifier::external_body]
fn str_ends_with(text: &str, suffix: &str) -> (ends: bool)
    ensures
        ends == suffix@.is_suffix_of(text@),
{
    text.ends_with(suffix)
}

/// What the scan of `members` for the first entry whose name ends with
/// `suffix` gives: that entry's text; the empty text where no name ends
/// with `suffix`; `Corrupt` where an entry before the first match cannot be
/// opened, or the matching entry gives no text.
pub open spec fn extracted_from(members: Seq<ArchiveMember>, suffix: Seq<char>) -> Result<
    Seq<char>,
    ArchiveError,
>
    decreases members.len(),
{
    if members.len() == 0 {
        Ok(Seq::empty())
    } else {
        match members.first().name {
            None => Err(ArchiveError::Corrupt),
            Some(name) => if suffix.is_suffix_of(name) {
                match members.first().text {
                    Some(text) => Ok(text),
                    None => Err(ArchiveError::Corrupt),
                }
            } else {
                extracted_from(members.drop_first(), suffix)
            },
        }
    }
}

/// What extraction gives for a directory: `Corrupt` where there is none,
/// else what the scan of its entries gives.
pub open spec fn extraction(directory: Option<Seq<ArchiveMember>>, suffix: Seq<char>) -> Result<
    Seq<char>,
    ArchiveError,
> {
    match directory {
        Some(members) => extracted_from(members, suffix),
        None => Err(ArchiveError::Corrupt),
    }
}

/// The value of an outcome of extraction.
pub open spec fn extract_view(extracted: Result<String, ArchiveError>) -> Result<
    Seq<char>,
    ArchiveError,
> {
    match extracted {
        Ok(text) => Ok(text@),
        Err(error) => Err(error),
    }
}

/// Opens `bytes` as an archive and returns the text of the first entry, in
/// the order of the central directory, whose name ends with `suffix`.
///
/// Where no name ends with `suffix` the text is empty. Entries after the
/// first match are not looked at.
pub fn extract_member_ending_with(bytes: &[u8], suffix: &str) -> (extracted: Result<
    String,
    ArchiveError,
>)
    ensures
        extract_view(extracted) == extraction(zip_members(bytes@), suffix@),
{
    let mut archive = match open_archive(bytes) {
        Ok(archive) => archive,
        Err(_) => {
            return Err(ArchiveError::Corrupt);
        },
    };
    let ghost members = archive_members(archive);
    let count = member_count(&archive);
    let mut index: usize = 0;
    proof {
        assert(members.skip(0) =~= members);
    }
    while index < count
        invariant
            index <= count,
            count == members.len(),
            archive_members(archive) == members,
            zip_members(bytes@) == Some(members),
            extracted_from(members, suffix@) == extracted_from(members.skip(index as int), suffix@),
        decreases count - index,
    {
        proof {
            assert(members.skip(index as int).first() == members[index as int]);
            assert(members.skip(index as int).drop_first() =~= members.skip(index + 1));
        }
        let name = match member_name(&mut archive, index) {
            Ok(name) => name,
            Err(_) => {
                return Err(ArchiveError::Corrupt);
            },
        };
        if str_ends_with(name.as_str(), suffix) {
            return match member_text(&mut archive, index) {
                Ok(text) => Ok(text),
                Err(_) => Err(ArchiveError::Corrupt),
            };
        }
        index += 1;
    }
    proof {
        assert(members.skip(count as int).len() == 0);
    }
    Ok(String::new())
}

/// Returns the text of the root model file of a 3MF package: of the first
/// entry whose name ends with `.model`.
pub fn load_threemf_get_root_model_file_as_string(bytes: &[u8]) -> (model: Result<
    String,
    ArchiveError,
>)
    ensures
        extract_view(model) == extraction(zip_members(bytes@), ".model"@),
{
    extract_member_ending_with(bytes, ".model")
}

} // verus!
