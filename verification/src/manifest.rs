//! The descriptor of a package: what a `package.json` says of it.

use vstd::prelude::*;
use crate::json::{parse_json, parsed_json, Json, JsonValue};

verus! {

/// What the installer reads from a package's descriptor.
#[derive(Debug, PartialEq, Eq)]
pub struct Manifest {
    /// The package's name; without one the package cannot be installed.
    pub name: Option<String>,
    /// The declared version; empty where none is declared.
    pub version: String,
    /// The entry point, relative to the package's directory.
    pub main: String,
    pub description: String,
    pub product_name: String,
}

/// The mathematical value of a `Manifest`.
pub struct ManifestModel {
    pub name: Option<Seq<char>>,
    pub version: Seq<char>,
    pub main: Seq<char>,
    pub description: Seq<char>,
    pub product_name: Seq<char>,
}

impl View for Manifest {
    type V = ManifestModel;

    open spec fn view(&self) -> ManifestModel {
        ManifestModel {
            name: match self.name {
                Some(name) => Some(name@),
                None => None,
            },
            version: self.version@,
            main: self.main@,
            description: self.description@,
            product_name: self.product_name@,
        }
    }
}

/// The text stored under `key` in a document, or `fallback` where the
/// document is no object or holds no string under that key.
pub open spec fn text_or(document: Json, key: Seq<char>, fallback: Seq<char>) -> Seq<char> {
    match document.text_member(key) {
        Some(text) => text,
        None => fallback,
    }
}

/// What a descriptor says: each field is the string stored under its key. A
/// missing entry point stands for `index.js`, every other missing string for
/// the empty one.
pub open spec fn manifest_of(document: Json) -> ManifestModel {
    ManifestModel {
        name: document.text_member("name"@),
        version: text_or(document, "version"@, Seq::empty()),
        main: text_or(document, "main"@, "index.js"@),
        description: text_or(document, "description"@, Seq::empty()),
        product_name: text_or(document, "productName"@, Seq::empty()),
    }
}

/// The version that an installed descriptor declares; `None` where the
/// descriptor is missing, is not JSON, or declares no version as a string.
pub open spec fn installed_version_of(descriptor: Option<Seq<char>>) -> Option<Seq<char>> {
    match descriptor {
        None => None,
        Some(text) => match parsed_json(text) {
            None => None,
            Some(document) => document.text_member("version"@),
        },
    }
}

/// The text stored under `key`, as an owned string, or the fallback.
fn owned_text_or(document: &JsonValue, key: &str, fallback: &str) -> (text: String)
    ensures
        text@ == text_or(document@, key@, fallback@),
{
    match document.str_field(key) {
        Some(found) => found.to_owned(),
        None => fallback.to_owned(),
    }
}

impl Manifest {
    /// Reads a parsed descriptor.
    pub fn from_json(document: &JsonValue) -> (manifest: Manifest)
        ensures
            manifest@ == manifest_of(document@),
    {
        proof {
            reveal_strlit("");
            assert(""@ =~= Seq::<char>::empty());
        }
        let name = match document.str_field("name") {
            Some(found) => Some(found.to_owned()),
            None => None,
        };
        Manifest {
            name,
            version: owned_text_or(document, "version", ""),
            main: owned_text_or(document, "main", "index.js"),
            description: owned_text_or(document, "description", ""),
            product_name: owned_text_or(document, "productName", ""),
        }
    }
}

/// Reads the version out of the text of an installed descriptor. A missing
/// or malformed descriptor gives `None`: the caller then takes the installed
/// version to be empty, the oldest there is.
pub fn read_installed_extension_version(descriptor: Option<&str>) -> (version: Option<String>)
    ensures
        match version {
            Some(found) => installed_version_of(
                match descriptor {
                    Some(text) => Some(text@),
                    None => None,
                },
            ) == Some(found@),
            None => installed_version_of(
                match descriptor {
                    Some(text) => Some(text@),
                    None => None,
                },
            ) is None,
        },
{
    let text = match descriptor {
        Some(text) => text,
        None => {
            return None;
        },
    };
    match parse_json(text) {
        Ok(document) => match document.str_field("version") {
            Some(found) => Some(found.to_owned()),
            None => None,
        },
        Err(_) => None,
    }
}

} // verus!
