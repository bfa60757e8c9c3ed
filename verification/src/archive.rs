//! A bundled package: a gzip-compressed tar archive held in memory.
//!
//! `flate2` and `tar` decode the archive; this module lists its members and
//! finds and reads the package's descriptor among them.

use vstd::prelude::*;
use vstd::string::*;
use vstd::utf8::*;
use crate::json::{parse_json, parsed_json, Json, JsonValue};
use crate::paths::bytes_eq;

verus! {

/// `std::io::Error`, what `tar` and `flate2` report when they cannot read.
#[verifier::external_type_specification]
#[verifier::external_body]
pub struct ExIoError(std::io::Error);

/// The members that `tar` finds in a gzip-compressed archive, in order: for
/// each its path, or `None` for a member that could not be read, after which
/// the listing ends. `None` for the whole where `tar` refuses to list.
pub uninterp spec fn archive_listing(package: Seq<u8>) -> Option<Seq<Option<Seq<u8>>>>;

/// The content of the member at position `index` of a gzip-compressed
/// archive; `None` where there is no such member or it cannot be read in full.
pub uninterp spec fn archive_content(package: Seq<u8>, index: int) -> Option<Seq<u8>>;

/// The listing that a vector of member paths stands for.
pub open spec fn listed(paths: Seq<Option<Vec<u8>>>) -> Seq<Option<Seq<u8>>> {
    paths.map_values(
        |path: Option<Vec<u8>>|
            match path {
                Some(bytes) => Some(bytes@),
                None => None,
            },
    )
}

/// Opens the bytes with `flate2::read::GzDecoder` and `tar::Archive`, walks
/// `Archive::entries` once and takes `Entry::path_bytes` of each member. The
/// contract gives the outcome the name `archive_listing`: it depends on the
/// bytes alone.
#[verifier::external_body]
fn list_entries(package: &[u8]) -> (out: Result<Vec<Option<Vec<u8>>>, std::io::Error>)
    ensures
        match out {
            Ok(paths) => archive_listing(package@) == Some(listed(paths@)),
            Err(_) => archive_listing(package@) is None,
        },
{
    let mut archive = tar::Archive::new(flate2::read::GzDecoder::new(package));
    let entries = archive.entries()?;
    Ok(entries.map(|entry| entry.ok().map(|member| member.path_bytes().into_owned())).collect())
}

/// Opens the bytes as `list_entries` does, moves to the member at `index` and
/// reads it to its end. `None` says that no member can be had at that
/// position. The contract gives the content the name `archive_content`.
#[verifier::external_body]
fn read_entry(package: &[u8], index: usize) -> (out: Option<Result<Vec<u8>, std::io::Error>>)
    ensures
        match out {
            Some(Ok(content)) => archive_content(package@, index as int) == Some(content@),
            _ => archive_content(package@, index as int) is None,
        },
{
    let mut archive = tar::Archive::new(flate2::read::GzDecoder::new(package));
    let mut member = archive.entries().ok()?.nth(index)?.ok()?;
    let mut content = Vec::new();
    Some(std::io::Read::read_to_end(&mut member, &mut content).map(|_| content))
}

/// The message of a `std::io::Error`, as its `Display` gives it. Nothing is
/// claimed of the text.
#[verifier::external_body]
fn io_error_message(error: &std::io::Error) -> String {
    error.to_string()
}

/// `String::from_utf8`: the text that the bytes encode, where they are valid
/// UTF-8, and `None` where they are not.
#[verifier::external_body]
fn text_of(bytes: Vec<u8>) -> (text: Option<String>)
    ensures
        match text {
            Some(s) => valid_utf8(bytes@) && s@ == decode_utf8(bytes@),
            None => !valid_utf8(bytes@),
        },
{
    String::from_utf8(bytes).ok()
}

/// At which step the search for a package's descriptor failed.
#[derive(Clone, Copy, Debug, PartialEq, Eq, Structural)]
pub enum ManifestFault {
    /// The archive could not be listed.
    Archive,
    /// The descriptor's content could not be read from the archive.
    Unreadable,
    /// The descriptor is not UTF-8 text.
    NotText,
    /// The descriptor is not a JSON document.
    NotJson,
}

/// Why no descriptor could be had from a package.
#[derive(Debug, PartialEq, Eq)]
pub struct ManifestError {
    pub fault: ManifestFault,
    /// A message for the log; for faults found by an outside crate, its message.
    pub message: String,
}

/// What the search for a descriptor comes to.
pub enum ManifestLookup {
    /// The archive holds no descriptor.
    Absent,
    /// The descriptor, parsed.
    Found(Json),
    /// The search failed.
    Failed(ManifestFault),
}

/// Whether a member's path is that of a package descriptor: `package.json` at
/// the root of the archive, or in the wrapper directory `package`. The path is
/// compared byte for byte; no other spelling counts.
pub open spec fn is_descriptor_path(path: Seq<u8>) -> bool {
    path == "package/package.json".spec_bytes() || path == "package.json".spec_bytes()
}

/// Whether a listed member is a readable descriptor.
pub open spec fn is_descriptor(member: Option<Seq<u8>>) -> bool {
    match member {
        Some(path) => is_descriptor_path(path),
        None => false,
    }
}

/// The position of the first descriptor at or after `start` in a listing.
pub open spec fn descriptor_from(listing: Seq<Option<Seq<u8>>>, start: int) -> Option<int>
    decreases listing.len() - start,
{
    if start < 0 || start >= listing.len() {
        None
    } else if is_descriptor(listing[start]) {
        Some(start)
    } else {
        descriptor_from(listing, start + 1)
    }
}

/// What the content of a descriptor comes to: it has to be readable, UTF-8,
/// and one JSON document.
pub open spec fn descriptor_outcome(content: Option<Seq<u8>>) -> ManifestLookup {
    match content {
        None => ManifestLookup::Failed(ManifestFault::Unreadable),
        Some(bytes) => if !valid_utf8(bytes) {
            ManifestLookup::Failed(ManifestFault::NotText)
        } else {
            match parsed_json(decode_utf8(bytes)) {
                None => ManifestLookup::Failed(ManifestFault::NotJson),
                Some(document) => ManifestLookup::Found(document),
            }
        },
    }
}

/// What the search for a descriptor in a package comes to: the first member
/// whose path is a descriptor path is read and parsed.
pub open spec fn manifest_lookup(package: Seq<u8>) -> ManifestLookup {
    match archive_listing(package) {
        None => ManifestLookup::Failed(ManifestFault::Archive),
        Some(listing) => match descriptor_from(listing, 0) {
            None => ManifestLookup::Absent,
            Some(index) => descriptor_outcome(archive_content(package, index)),
        },
    }
}

/// Lists the members of a package: the path of each, or `None` for a member
/// that could not be read.
pub fn list_archive(package: &[u8]) -> (out: Result<Vec<Option<Vec<u8>>>, ManifestError>)
    ensures
        match out {
            Ok(paths) => archive_listing(package@) == Some(listed(paths@)),
            Err(e) => archive_listing(package@) is None && e.fault == ManifestFault::Archive,
        },
{
    match list_entries(package) {
        Ok(paths) => Ok(paths),
        Err(error) => Err(
            ManifestError { fault: ManifestFault::Archive, message: io_error_message(&error) },
        ),
    }
}

/// Whether a member's path is that of a package descriptor.
pub fn is_manifest_path(path: &[u8]) -> (hit: bool)
    ensures
        hit == is_descriptor_path(path@),
{
    bytes_eq(path, "package/package.json".as_bytes()) || bytes_eq(path, "package.json".as_bytes())
}

/// Finds the first readable member of a listing whose path is a descriptor path.
pub fn find_descriptor(paths: &Vec<Option<Vec<u8>>>) -> (found: Option<usize>)
    ensures
        match found {
            Some(index) => descriptor_from(listed(paths@), 0) == Some(index as int) && index
                < paths.len() && is_descriptor(listed(paths@)[index as int]),
            None => descriptor_from(listed(paths@), 0) is None,
        },
        forall|j: int|
            0 <= j < (match found {
                Some(index) => index as int,
                None => paths.len() as int,
            }) ==> !is_descriptor(#[trigger] listed(paths@)[j]),
{
    let ghost listing = listed(paths@);
    let mut i: usize = 0;
    while i < paths.len()
        invariant
            0 <= i <= paths.len(),
            listing == listed(paths@),
            descriptor_from(listing, 0) == descriptor_from(listing, i as int),
            forall|j: int| 0 <= j < i ==> !is_descriptor(#[trigger] listing[j]),
        decreases paths.len() - i,
    {
        let hit = match &paths[i] {
            Some(path) => is_manifest_path(path.as_slice()),
            None => false,
        };
        if hit {
            return Some(i);
        }
        i = i + 1;
    }
    None
}

/// Reads the content of a descriptor: UTF-8 text that holds one JSON document.
pub fn read_descriptor(content: Vec<u8>) -> (out: Result<JsonValue, ManifestError>)
    ensures
        match out {
            Ok(document) => descriptor_outcome(Some(content@)) == ManifestLookup::Found(
                document@,
            ),
            Err(e) => descriptor_outcome(Some(content@)) == ManifestLookup::Failed(e.fault) && (
            e.fault == ManifestFault::NotText || e.fault == ManifestFault::NotJson),
        },
{
    match text_of(content) {
        None => Err(
            ManifestError {
                fault: ManifestFault::NotText,
                message: "descriptor is not valid UTF-8".to_owned(),
            },
        ),
        Some(text) => match parse_json(text.as_str()) {
            Ok(document) => Ok(document),
            Err(error) => Err(
                ManifestError { fault: ManifestFault::NotJson, message: error.message },
            ),
        },
    }
}

/// Finds and parses the descriptor of a bundled package without unpacking it.
/// `Ok(None)` says that the archive holds no descriptor; a descriptor that is
/// there but cannot be read or parsed is an error.
pub fn extract_extension_manifest(package: &[u8]) -> (out: Result<
    Option<JsonValue>,
    ManifestError,
>)
    ensures
        match out {
            Ok(Some(document)) => manifest_lookup(package@) == ManifestLookup::Found(document@),
            Ok(None) => manifest_lookup(package@) == ManifestLookup::Absent,
            Err(e) => manifest_lookup(package@) == ManifestLookup::Failed(e.fault),
        },
{
    let paths = match list_archive(package) {
        Ok(paths) => paths,
        Err(error) => {
            return Err(error);
        },
    };
    let index = match find_descriptor(&paths) {
        Some(index) => index,
        None => {
            return Ok(None);
        },
    };
    match read_entry(package, index) {
        Some(Ok(content)) => match read_descriptor(content) {
            Ok(document) => Ok(Some(document)),
            Err(error) => Err(error),
        },
        Some(Err(error)) => Err(
            ManifestError { fault: ManifestFault::Unreadable, message: io_error_message(&error) },
        ),
        None => Err(
            ManifestError {
                fault: ManifestFault::Unreadable,
                message: "descriptor cannot be reached in the archive".to_owned(),
            },
        ),
    }
}

} // verus!
