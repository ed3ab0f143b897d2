//! Classification: the category that a directory entry is listed under, the
//! order of categories, and the media type that a category stands for.

use crate::paths::{extension, extension_of, text_of};
use crate::text::{chars_eq, chars_lt, chars_of, lex_lt, lowercase_of, to_lowercase};
use crate::text::{lemma_lex_asymmetric, lemma_lex_irreflexive, lemma_lex_total, lemma_lex_transitive};
use vstd::prelude::*;

verus! {

/// The media type of a category: what decides how its section is drawn and
/// whether its files can be converted.
#[derive(Debug, Clone, Copy, PartialEq, Eq, Structural)]
pub enum Type {
    Image,
    Video,
    Other,
}

/// The category of a directory entry.
///
/// Categories are listed in the order `key_lt`: directories first, then the
/// extensions in lexicographic order, then the files without extension.
/// `precedes` decides that order. The derived `Ord` is there for callers that
/// keep categories in ordered collections; nothing is proved of it.
#[derive(Debug, Clone, Hash, PartialEq, Eq, PartialOrd, Ord)]
pub enum Extension {
    Directory,
    /// A file with this extension, in lower case.
    Extension(String),
    Missing,
}

/// The mathematical value of an `Extension`.
pub enum CategoryKey {
    Directory,
    Extension(Seq<char>),
    Missing,
}

impl View for Extension {
    type V = CategoryKey;

    open spec fn view(&self) -> CategoryKey {
        match self {
            Extension::Directory => CategoryKey::Directory,
            Extension::Extension(name) => CategoryKey::Extension(name@),
            Extension::Missing => CategoryKey::Missing,
        }
    }
}

/// The extensions whose files are images.
pub open spec fn image_extensions() -> Seq<Seq<char>> {
    seq!["png"@, "jpg"@, "jpeg"@, "tif"@]
}

/// The extensions whose files are videos. The table is empty: an extension
/// becomes a video by being entered here, not by resembling one.
pub open spec fn video_extensions() -> Seq<Seq<char>> {
    Seq::empty()
}

/// The media type of a category: image or video for an extension in the
/// respective table, other for everything else.
pub open spec fn media_type(key: CategoryKey) -> Type {
    match key {
        CategoryKey::Extension(name) => if image_extensions().contains(name) {
            Type::Image
        } else if video_extensions().contains(name) {
            Type::Video
        } else {
            Type::Other
        },
        _ => Type::Other,
    }
}

/// The category of an entry that is a directory or not and whose final
/// component has the given extension, already in lower case, or none.
pub open spec fn category(is_dir: bool, extension: Option<Seq<char>>) -> CategoryKey {
    if is_dir {
        CategoryKey::Directory
    } else {
        match extension {
            Some(name) => CategoryKey::Extension(name),
            None => CategoryKey::Missing,
        }
    }
}

/// The extension of the final component of `path`, in lower case.
pub open spec fn lowered_extension(path: Seq<char>) -> Option<Seq<char>> {
    match extension_of(path) {
        Some(name) => Some(lowercase_of(name)),
        None => None,
    }
}

/// The category of the entry at `path`.
pub open spec fn category_of(path: Seq<char>, is_dir: bool) -> CategoryKey {
    category(is_dir, lowered_extension(path))
}

/// The extension of the final component of `path`, in lower case.
pub fn lower_extension(path: &str) -> (r: Option<String>)
    ensures
        text_of(r) == lowered_extension(path@),
{
    match extension(path) {
        Some(name) => Some(to_lowercase(name.as_str())),
        None => None,
    }
}

/// Whether `name` is one of the image extensions.
fn is_image(name: &str) -> (r: bool)
    ensures
        r == image_extensions().contains(name@),
{
    let given = chars_of(name);
    let r = chars_eq(&given, &chars_of("png")) || chars_eq(&given, &chars_of("jpg")) || chars_eq(
        &given,
        &chars_of("jpeg"),
    ) || chars_eq(&given, &chars_of("tif"));
    proof {
        let table = image_extensions();
        assert(table[0] == "png"@ && table[1] == "jpg"@ && table[2] == "jpeg"@ && table[3]
            == "tif"@);
    }
    r
}

/// Whether `name` is one of the video extensions.
fn is_video(name: &str) -> (r: bool)
    ensures
        r == video_extensions().contains(name@),
{
    false
}

impl Type {
    /// The variant's name, as `Debug` prints it.
    pub fn name(&self) -> (r: &'static str)
        ensures
            r@ == media_name(*self),
    {
        match self {
            Type::Image => "Image",
            Type::Video => "Video",
            Type::Other => "Other",
        }
    }
}

/// The name of a media type, as `Debug` prints it.
pub open spec fn media_name(t: Type) -> Seq<char> {
    match t {
        Type::Image => "Image"@,
        Type::Video => "Video"@,
        Type::Other => "Other"@,
    }
}

impl From<&Extension> for Type {
    /// The media type of a category: image for an extension in the image
    /// table, video for one in the video table, other for every other
    /// extension, for directories and for files without extension.
    fn from(ext: &Extension) -> (r: Type)
        ensures
            r == media_type(ext@),
            ext@ matches CategoryKey::Extension(name) ==> (image_extensions().contains(name) ==> r
                == Type::Image),
            ext@ matches CategoryKey::Extension(name) ==> (video_extensions().contains(name) ==> r
                == Type::Video),
            ext@ matches CategoryKey::Extension(name) ==> (!image_extensions().contains(name)
                && !video_extensions().contains(name) ==> r == Type::Other),
            ext@ is Directory || ext@ is Missing ==> r == Type::Other,
    {
        match ext {
            Extension::Extension(name) => {
                if is_image(name.as_str()) {
                    Type::Image
                } else if is_video(name.as_str()) {
                    Type::Video
                } else {
                    Type::Other
                }
            },
            _ => Type::Other,
        }
    }
}

impl vstd::std_specs::convert::FromSpecImpl<&Extension> for Type {
    open spec fn obeys_from_spec() -> bool {
        true
    }

    open spec fn from_spec(ext: &Extension) -> Type {
        media_type(ext@)
    }
}

/// Where a category stands among the three kinds.
pub open spec fn rank(key: CategoryKey) -> int {
    match key {
        CategoryKey::Directory => 0,
        CategoryKey::Extension(_) => 1,
        CategoryKey::Missing => 2,
    }
}

/// The listing order of categories: directories, then the extensions in
/// lexicographic order, then the files without extension.
pub open spec fn key_lt(a: CategoryKey, b: CategoryKey) -> bool {
    match (a, b) {
        (CategoryKey::Extension(x), CategoryKey::Extension(y)) => lex_lt(x, y),
        _ => rank(a) < rank(b),
    }
}

/// The listing order is a strict total order: no category precedes itself,
/// of two different categories exactly one precedes the other, and
/// precedence carries over a category in between.
pub proof fn lemma_key_order(a: CategoryKey, b: CategoryKey, c: CategoryKey)
    ensures
        !key_lt(a, a),
        key_lt(a, b) || key_lt(b, a) || a == b,
        !(key_lt(a, b) && key_lt(b, a)),
        key_lt(a, b) && key_lt(b, c) ==> key_lt(a, c),
{
    match (a, b) {
        (CategoryKey::Extension(x), CategoryKey::Extension(y)) => {
            lemma_lex_irreflexive(x);
            lemma_lex_total(x, y);
            lemma_lex_asymmetric(x, y);
            if let CategoryKey::Extension(z) = c {
                if lex_lt(x, y) && lex_lt(y, z) {
                    lemma_lex_transitive(x, y, z);
                }
            }
        },
        (CategoryKey::Extension(x), _) => {
            lemma_lex_irreflexive(x);
        },
        _ => {},
    }
}

/// The heading of a category's section.
pub open spec fn heading(key: CategoryKey) -> Seq<char> {
    match key {
        CategoryKey::Directory => "Directories"@,
        CategoryKey::Extension(name) => "."@ + name + " files"@,
        CategoryKey::Missing => "Extensionless"@,
    }
}

impl Extension {
    /// The category of an entry that is a directory or not and whose final
    /// component has the given extension, already in lower case, or none:
    /// a directory whatever its name, else by the extension, else without.
    pub fn of(is_dir: bool, extension: Option<String>) -> (r: Extension)
        ensures
            r@ == category(is_dir, text_of(extension)),
    {
        if is_dir {
            Extension::Directory
        } else {
            match extension {
                Some(name) => Extension::Extension(name),
                None => Extension::Missing,
            }
        }
    }

    /// The category of the entry at `path`, which is a directory or not: the
    /// extension is read off the path and put in lower case.
    pub fn classify(path: &str, is_dir: bool) -> (r: Extension)
        ensures
            r@ == category_of(path@, is_dir),
    {
        Extension::of(is_dir, lower_extension(path))
    }

    /// Whether this category comes before `other` in a listing.
    pub fn precedes(&self, other: &Extension) -> (r: bool)
        ensures
            r == key_lt(self@, other@),
    {
        match (self, other) {
            (Extension::Extension(x), Extension::Extension(y)) => chars_lt(
                &chars_of(x.as_str()),
                &chars_of(y.as_str()),
            ),
            (Extension::Directory, Extension::Directory) => false,
            (Extension::Directory, _) => true,
            (Extension::Extension(_), Extension::Missing) => true,
            _ => false,
        }
    }

    /// Whether this category and `other` are the same.
    pub fn same(&self, other: &Extension) -> (r: bool)
        ensures
            r == (self@ == other@),
    {
        match (self, other) {
            (Extension::Extension(x), Extension::Extension(y)) => chars_eq(
                &chars_of(x.as_str()),
                &chars_of(y.as_str()),
            ),
            (Extension::Directory, Extension::Directory) => true,
            (Extension::Missing, Extension::Missing) => true,
            _ => false,
        }
    }

    /// The heading of this category's section.
    pub fn plural_name(&self) -> (r: String)
        ensures
            r@ == heading(self@),
    {
        match self {
            Extension::Extension(name) => {
                let mut out = String::from_str(".");
                out.append(name.as_str());
                out.append(" files");
                out
            },
            Extension::Directory => String::from_str("Directories"),
            Extension::Missing => String::from_str("Extensionless"),
        }
    }
}

/// Whether entries of this category get thumbnails: whether its media type is
/// image or video.
pub fn supported(ext: &Extension) -> (r: bool)
    ensures
        r == (media_type(ext@) == Type::Image || media_type(ext@) == Type::Video),
{
    match Type::from(ext) {
        Type::Image | Type::Video => true,
        Type::Other => false,
    }
}

} // verus!
