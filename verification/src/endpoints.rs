//! The endpoints: what each request is answered with, given what was found
//! at its path. Finding it, and sending the answer, are the caller's part.

use crate::category::{category_of, media_type, Extension, Type};
use crate::convert::{
    convert_image, gives, reencode, thumbnail_command, thumbnail_for, ConversionRequest,
    Invocation, InvocationView,
};
use crate::entry::{entry_views, DirectoryEntry, EntryView};
use crate::error::{Error, ErrorView};
use crate::group::{group, grouping};
use crate::paths::{join, joined_path};
use crate::render::{flat_page, grouped_page, render_flat_page, render_grouped_page};
use crate::sort::{sort_entries, stable_sort};
use vstd::prelude::*;

verus! {

/// What a request is answered with.
#[derive(Debug, Clone, PartialEq, Eq)]
pub enum Reply {
    /// This page, as HTML.
    Html(String),
    /// The file at this path, unchanged, as the file server sends files.
    Raw(String),
    /// The output of this command, forwarded as it comes.
    Converted(Invocation),
}

/// The mathematical value of a `Reply`.
pub enum ReplyView {
    Html(Seq<char>),
    Raw(Seq<char>),
    Converted(InvocationView),
}

impl View for Reply {
    type V = ReplyView;

    open spec fn view(&self) -> ReplyView {
        match self {
            Reply::Html(page) => ReplyView::Html(page@),
            Reply::Raw(path) => ReplyView::Raw(path@),
            Reply::Converted(command) => ReplyView::Converted(command@),
        }
    }
}

/// What was found at the path of a request.
#[derive(Debug, Clone, PartialEq, Eq)]
pub enum Target {
    /// A file.
    File,
    /// A directory, with what reading it gave: one item for each of its
    /// children in the order found, `None` for a child that could not be
    /// read.
    Directory(Vec<Option<DirectoryEntry>>),
    /// A directory that could not be opened; the text says why.
    Unreadable(String),
    /// Neither a file nor a directory.
    Missing,
}

/// The children that could be read, in the order found.
pub open spec fn readable(scan: Seq<Option<DirectoryEntry>>) -> Seq<EntryView> {
    scan.filter(|child: Option<DirectoryEntry>| child is Some).map_values(
        |child: Option<DirectoryEntry>| child.unwrap()@,
    )
}

/// The answer to a request for a single file of the given media type: an
/// image is re-encoded, every other file is sent as it is.
pub open spec fn file_reply(path: Seq<char>, kind: Type) -> ReplyView {
    if kind == Type::Image {
        ReplyView::Converted(reencode(path))
    } else {
        ReplyView::Raw(path)
    }
}

/// Whether `r` has the value `expected`.
pub open spec fn answers(r: Result<Reply, Error>, expected: Result<ReplyView, ErrorView>) -> bool {
    match expected {
        Ok(reply) => r matches Ok(given) && given@ == reply,
        Err(error) => r matches Err(given) && given@ == error,
    }
}

/// Reading one more child adds it to the readable ones where it could be
/// read, and changes nothing where it could not.
proof fn lemma_readable_push(scan: Seq<Option<DirectoryEntry>>, child: Option<DirectoryEntry>)
    ensures
        readable(scan.push(child)) == (match child {
            Some(entry) => readable(scan).push(entry@),
            None => readable(scan),
        }),
{
    reveal(Seq::filter);
    assert(scan.push(child).drop_last() =~= scan);
    match child {
        Some(entry) => {
            assert(readable(scan.push(child)) =~= readable(scan).push(entry@));
        },
        None => {},
    }
}

/// The children that could be read, in the order found: a child that could
/// not be read is left out and nothing else comes of it.
pub fn readable_entries(scan: Vec<Option<DirectoryEntry>>) -> (entries: Vec<DirectoryEntry>)
    ensures
        entry_views(entries@) == readable(scan@),
{
    let mut entries: Vec<DirectoryEntry> = Vec::new();
    proof {
        reveal(Seq::filter);
        assert(readable(scan@.take(0)) =~= Seq::empty());
        assert(entry_views(entries@) =~= Seq::empty());
    }
    for child in it: scan
        invariant
            it.seq() == scan@,
            entry_views(entries@) == readable(scan@.take(it.index() as int)),
    {
        proof {
            assert(0 <= it.index() < scan@.len());
            assert(scan@.take(it.index() + 1) =~= scan@.take(it.index() as int).push(child));
            lemma_readable_push(scan@.take(it.index() as int), child);
        }
        let ghost before = entry_views(entries@);
        match child {
            Some(entry) => {
                entries.push(entry);
                assert(entry_views(entries@) =~= before.push(entry@));
            },
            None => {},
        }
    }
    proof {
        assert(scan@.take(scan@.len() as int) =~= scan@);
    }
    entries
}

/// The answer to a request for a single file of the given media type: an
/// image is re-encoded, every other file is sent as it is.
pub fn file_of_type(path: &str, kind: Type) -> (r: Reply)
    ensures
        r@ == file_reply(path@, kind),
        r is Converted <==> kind == Type::Image,
{
    match kind {
        Type::Image => Reply::Converted(convert_image(path)),
        Type::Video | Type::Other => Reply::Raw(String::from_str(path)),
    }
}

/// The answer to a request for the single file at `path`: the path is
/// classified, and the file re-encoded where it is an image and sent as it
/// is otherwise. Nothing but an image is ever re-encoded.
pub fn file(path: &str, is_dir: bool) -> (r: Reply)
    ensures
        r@ == file_reply(path@, media_type(category_of(path@, is_dir))),
        r is Converted <==> media_type(category_of(path@, is_dir)) == Type::Image,
{
    let kind = Type::from(&Extension::classify(path, is_dir));
    file_of_type(path, kind)
}

/// The answer to a request for a thumbnail of `path` below the root `dir`:
/// the command that makes a thumbnail of the file there where the path is
/// classified as an image or a video, and otherwise the error that names the
/// type. The path is classified as it was asked for; the command is given the
/// path below the root.
pub fn thumbnail(path: &str, is_dir: bool, dir: &str) -> (r: Result<Invocation, Error>)
    ensures
        gives(
            r,
            thumbnail_command(joined_path(dir@, path@), media_type(category_of(path@, is_dir))),
        ),
{
    let target = Type::from(&Extension::classify(path, is_dir));
    let request = ConversionRequest { source: join(dir, path), target };
    thumbnail_for(&request)
}

/// The answer to a request for the grouped listing at `path`, where `target`
/// was found there: a file is answered as a single file, a directory with
/// the page of its readable children parted by category, a directory that
/// cannot be opened with an internal error, and anything else as not found.
pub open spec fn grouped_answer(path: Seq<char>, target: Target) -> Result<ReplyView, ErrorView> {
    match target {
        Target::File => Ok(file_reply(path, media_type(category_of(path, false)))),
        Target::Directory(scan) => Ok(
            ReplyView::Html(grouped_page(path, grouping(readable(scan@)))),
        ),
        Target::Unreadable(why) => Err(ErrorView::Unreadable(why@)),
        Target::Missing => Err(ErrorView::NotFound),
    }
}

/// The answer to a request for the flat listing at `path`, where `target`
/// was found there: as for the grouped listing, but a directory is answered
/// with the page of its readable children in one list, sorted by sort key.
pub open spec fn flat_answer(path: Seq<char>, target: Target) -> Result<ReplyView, ErrorView> {
    match target {
        Target::File => Ok(file_reply(path, media_type(category_of(path, false)))),
        Target::Directory(scan) => Ok(
            ReplyView::Html(flat_page(path, stable_sort(readable(scan@)))),
        ),
        Target::Unreadable(why) => Err(ErrorView::Unreadable(why@)),
        Target::Missing => Err(ErrorView::NotFound),
    }
}

/// The answer to a request for the grouped listing at the full path `path`,
/// where `target` was found there: a file is answered as a single file, a
/// directory with the page of its readable children parted by category, a
/// directory that cannot be opened with an internal error, and anything else
/// as not found.
pub fn by_type_at(path: &str, target: Target) -> (r: Result<Reply, Error>)
    ensures
        answers(r, grouped_answer(path@, target)),
{
    match target {
        Target::File => Ok(file(path, false)),
        Target::Directory(scan) => {
            let groups = group(readable_entries(scan));
            let page = render_grouped_page(path, &groups);
            Ok(Reply::Html(page))
        },
        Target::Unreadable(why) => Err(Error::Unreadable(why)),
        Target::Missing => Err(Error::NotFound),
    }
}

/// The answer to a request for the flat listing at the full path `path`,
/// where `target` was found there: as for the grouped listing, but a
/// directory is answered with the page of its readable children in one list,
/// sorted by sort key.
pub fn get_at(path: &str, target: Target) -> (r: Result<Reply, Error>)
    ensures
        answers(r, flat_answer(path@, target)),
{
    match target {
        Target::File => Ok(file(path, false)),
        Target::Directory(scan) => {
            let sorted = sort_entries(readable_entries(scan));
            let page = render_flat_page(path, &sorted);
            Ok(Reply::Html(page))
        },
        Target::Unreadable(why) => Err(Error::Unreadable(why)),
        Target::Missing => Err(Error::NotFound),
    }
}

/// The path that a request for `path` below the root `dir` is about.
pub fn resolve(dir: &str, path: &str) -> (full: String)
    ensures
        full@ == joined_path(dir@, path@),
{
    join(dir, path)
}

/// The answer to a request for the grouped listing of `path` below the root
/// `dir`, where `target` was found at the path that `resolve` gives.
pub fn by_type(path: &str, dir: &str, target: Target) -> (r: Result<Reply, Error>)
    ensures
        answers(r, grouped_answer(joined_path(dir@, path@), target)),
{
    let full = join(dir, path);
    by_type_at(full.as_str(), target)
}

/// The answer to a request for the flat listing of `path` below the root
/// `dir`, where `target` was found at the path that `resolve` gives.
pub fn get(path: &str, dir: &str, target: Target) -> (r: Result<Reply, Error>)
    ensures
        answers(r, flat_answer(joined_path(dir@, path@), target)),
{
    let full = join(dir, path);
    get_at(full.as_str(), target)
}

} // verus!
