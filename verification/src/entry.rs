//! Directory entries: a path as it was found, with what a listing reads off
//! it.

use crate::category::{category, lower_extension, lowered_extension, CategoryKey, Extension};
use crate::paths::{file_name, file_name_of, relative_to, strip_prefix, text_of};
use crate::text::{lowercase_of, to_lowercase};
use vstd::prelude::*;

verus! {

/// One entry of a directory, as listed below a served root.
///
/// Besides the path and whether it is a directory, an entry holds what is
/// derived from the path once, when the entry is made: the listing's logic
/// works on these fields alone.
#[derive(Debug, Clone, PartialEq, Eq)]
pub struct DirectoryEntry {
    /// The path, as the directory was read.
    pub path: String,
    /// Whether the path names a directory.
    pub is_dir: bool,
    /// The extension of the final component, in lower case.
    pub extension: Option<String>,
    /// The path in lower case: what entries are sorted by.
    pub sort_key: String,
    /// The path below the served root: what links are made of.
    pub relative: String,
    /// The final component: what a link shows.
    pub name: String,
}

/// The mathematical value of a `DirectoryEntry`.
pub struct EntryView {
    pub path: Seq<char>,
    pub is_dir: bool,
    pub extension: Option<Seq<char>>,
    pub sort_key: Seq<char>,
    pub relative: Seq<char>,
    pub name: Seq<char>,
}

impl View for DirectoryEntry {
    type V = EntryView;

    open spec fn view(&self) -> EntryView {
        EntryView {
            path: self.path@,
            is_dir: self.is_dir,
            extension: text_of(self.extension),
            sort_key: self.sort_key@,
            relative: self.relative@,
            name: self.name@,
        }
    }
}

/// The values of a sequence of entries.
pub open spec fn entry_views(entries: Seq<DirectoryEntry>) -> Seq<EntryView> {
    entries.map_values(|e: DirectoryEntry| e@)
}

/// The category that an entry is listed under.
pub open spec fn entry_category(e: EntryView) -> CategoryKey {
    category(e.is_dir, e.extension)
}

/// The entry for `path` below the root `dir`, where the path lies below the
/// root and has a final component.
pub open spec fn entry_at(dir: Seq<char>, path: Seq<char>, is_dir: bool) -> Option<EntryView> {
    match (relative_to(path, dir), file_name_of(path)) {
        (Some(relative), Some(name)) => Some(
            EntryView {
                path,
                is_dir,
                extension: lowered_extension(path),
                sort_key: lowercase_of(path),
                relative,
                name,
            },
        ),
        _ => None,
    }
}

impl DirectoryEntry {
    /// The entry for `path`, found below the served root `dir`, or `None`
    /// where no link can be made for it: where the path does not lie below
    /// the root or has no final component.
    pub fn new(dir: &str, path: &str, is_dir: bool) -> (r: Option<DirectoryEntry>)
        ensures
            r is Some <==> entry_at(dir@, path@, is_dir) is Some,
            r matches Some(e) ==> Some(e@) == entry_at(dir@, path@, is_dir),
    {
        let relative = match strip_prefix(path, dir) {
            Some(relative) => relative,
            None => return None,
        };
        let name = match file_name(path) {
            Some(name) => name,
            None => return None,
        };
        Some(
            DirectoryEntry {
                path: String::from_str(path),
                is_dir,
                extension: lower_extension(path),
                sort_key: to_lowercase(path),
                relative,
                name,
            },
        )
    }
}

impl From<&DirectoryEntry> for Extension {
    /// The category of an entry: a directory whatever its name, else by its
    /// extension, else without one.
    fn from(entry: &DirectoryEntry) -> (r: Extension)
        ensures
            r@ == entry_category(entry@),
    {
        if entry.is_dir {
            Extension::Directory
        } else {
            match &entry.extension {
                Some(name) => Extension::Extension(name.clone()),
                None => Extension::Missing,
            }
        }
    }
}

impl vstd::std_specs::convert::FromSpecImpl<&DirectoryEntry> for Extension {
    open spec fn obeys_from_spec() -> bool {
        true
    }

    open spec fn from_spec(entry: &DirectoryEntry) -> Extension {
        if entry.is_dir {
            Extension::Directory
        } else {
            match entry.extension {
                Some(name) => Extension::Extension(name),
                None => Extension::Missing,
            }
        }
    }
}

} // verus!
