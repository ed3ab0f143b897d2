//! Rendering: the HTML of a listing, put together from its entries and
//! groups. Nothing here reads anything but its arguments.

use crate::category::{heading, media_type, supported, Type};
use crate::entry::{entry_views, DirectoryEntry, EntryView};
use crate::group::{group_views, Group, GroupView};
use crate::text::{join, joined, texts};
use vstd::prelude::*;

verus! {

/// The style sheet of a grouped listing.
pub const STYLE: &'static str =
    ".thumbnail-list {\n  display: flex;\n  flex-wrap: wrap;\n  gap: 16px;\n}\n\n.thumbnail-list .entry {\n  display: flex;\n  flex-direction: column;\n  align-items: center;\n  gap: 4px;\n}\n\n.thumbnail-list .entry .thumbnail {\n  height: 200px;\n  width: 200px;\n\n  border: 1px solid #fff4;\n}\n\n.thumbnail-list .entry .thumbnail img {\n  width: 100%;\n  height: 100%;\n  object-fit: contain;\n}\n";

/// The script of a flat listing: the key `t` leads to the grouped listing of
/// the same directory.
pub const SCRIPT: &'static str =
    "document.addEventListener(\"keydown\", (event) => {\n  if (event.key === \"t\") {\n    const path = window.location.pathname;\n    window.location.pathname = path.replace(\"/get/\", \"/by-type/\");\n  }\n});\n";

/// What a link shows after the name: a separator where the entry is a
/// directory, so that the link leads into it.
pub open spec fn tail(is_dir: bool) -> Seq<char> {
    if is_dir {
        "/"@
    } else {
        Seq::empty()
    }
}

/// One entry of a plain list: a link to the entry, showing its name.
pub open spec fn list_item(e: EntryView) -> Seq<char> {
    "<li>\n  <a href=\"/by-type/"@ + e.relative + "\">"@ + e.name + tail(e.is_dir)
        + "</a>\n</li>\n"@
}

/// One entry of a thumbnail grid: the entry's thumbnail and its name, each a
/// link to the entry.
pub open spec fn thumb_item(e: EntryView) -> Seq<char> {
    "<div class=\"entry\">\n  <a href=\"/by-type/"@ + e.relative
        + "\">\n    <div class=\"thumbnail\">\n      <img src=\"/thumbnail/"@ + e.relative
        + "\"/>\n    </div>\n  </a>\n  <a href=\"/by-type/"@ + e.relative + "\">"@ + e.name + tail(
        e.is_dir,
    ) + "</a>\n</div>\n"@
}

/// One entry of a flat list: a link to the entry in the flat listing.
pub open spec fn flat_item(e: EntryView) -> Seq<char> {
    "<li>\n  <a href=\"/get/"@ + e.relative + "\">"@ + e.name + tail(e.is_dir) + "</a>\n</li>\n"@
}

/// The entries as a plain list.
pub open spec fn plain_list(entries: Seq<EntryView>) -> Seq<char> {
    "<ul>\n  "@ + joined(entries.map_values(|e: EntryView| list_item(e)), "\n"@) + "\n</ul>\n"@
}

/// The entries as a thumbnail grid.
pub open spec fn thumb_grid(entries: Seq<EntryView>) -> Seq<char> {
    "<div class=\"thumbnail-list\">\n  "@ + joined(
        entries.map_values(|e: EntryView| thumb_item(e)),
        "\n"@,
    ) + "\n</div>\n"@
}

/// The section of a group: its heading, then its entries as a thumbnail grid
/// where the category is of images or videos and as a plain list otherwise.
pub open spec fn section_of(group: GroupView) -> Seq<char> {
    "<h2>\n  "@ + heading(group.key) + "\n</h2>\n"@ + if media_type(group.key) == Type::Other {
        plain_list(group.entries)
    } else {
        thumb_grid(group.entries)
    } + "\n<hr>\n"@
}

/// The page of a grouped listing of the directory at `path`: the sections of
/// the groups in their order, below a heading that names the directory.
pub open spec fn grouped_page(path: Seq<char>, groups: Seq<GroupView>) -> Seq<char> {
    "<!DOCTYPE html>\n<html>\n  <head>\n    <meta http-equiv=\"Content-Type\" content=\"text/html; charset=utf-8\">\n    <meta name=\"color-scheme\" content=\"light dark\">\n    <style>\n      "@
        + STYLE@ + "\n    </style>\n    <title>Directory "@ + path
        + "</title>\n  </head>\n  <body>\n    <h1>Directory "@ + path + "</h1>\n    <hr>\n    "@
        + joined(groups.map_values(|g: GroupView| section_of(g)), "\n"@)
        + "\n  </body>\n</html>\n"@
}

/// The page of a flat listing of the directory at `path`: its entries in the
/// given order, below a heading that names the directory.
pub open spec fn flat_page(path: Seq<char>, entries: Seq<EntryView>) -> Seq<char> {
    "<!DOCTYPE html>\n<html>\n  <head>\n    <meta http-equiv=\"Content-Type\" content=\"text/html; charset=utf-8\">\n    <meta name=\"color-scheme\" content=\"light dark\">\n    <script>\n      "@
        + SCRIPT@ + "\n    </script>\n    <title>Directory "@ + path
        + "</title>\n  </head>\n  <body>\n    <h1>Directory "@ + path
        + "</h1>\n    <hr>\n    <ul>\n      "@ + joined(
        entries.map_values(|e: EntryView| flat_item(e)),
        "\n"@,
    ) + "\n    </ul>\n    <hr>\n  </body>\n</html>\n"@
}

/// Appends the entry's name and, for a directory, the separator.
fn push_label(out: &mut String, e: &DirectoryEntry)
    ensures
        final(out)@ == old(out)@ + e@.name + tail(e.is_dir),
{
    out.append(e.name.as_str());
    if e.is_dir {
        out.append("/");
    } else {
        assert(out@ + Seq::<char>::empty() =~= out@);
    }
}

/// One entry of a plain list.
pub fn render_list_item(e: &DirectoryEntry) -> (r: String)
    ensures
        r@ == list_item(e@),
{
    let mut out = String::from_str("<li>\n  <a href=\"/by-type/");
    out.append(e.relative.as_str());
    out.append("\">");
    push_label(&mut out, e);
    out.append("</a>\n</li>\n");
    out
}

/// One entry of a thumbnail grid.
pub fn render_thumb_item(e: &DirectoryEntry) -> (r: String)
    ensures
        r@ == thumb_item(e@),
{
    let mut out = String::from_str("<div class=\"entry\">\n  <a href=\"/by-type/");
    out.append(e.relative.as_str());
    out.append("\">\n    <div class=\"thumbnail\">\n      <img src=\"/thumbnail/");
    out.append(e.relative.as_str());
    out.append("\"/>\n    </div>\n  </a>\n  <a href=\"/by-type/");
    out.append(e.relative.as_str());
    out.append("\">");
    push_label(&mut out, e);
    out.append("</a>\n</div>\n");
    out
}

/// One entry of a flat list.
pub fn render_flat_item(e: &DirectoryEntry) -> (r: String)
    ensures
        r@ == flat_item(e@),
{
    let mut out = String::from_str("<li>\n  <a href=\"/get/");
    out.append(e.relative.as_str());
    out.append("\">");
    push_label(&mut out, e);
    out.append("</a>\n</li>\n");
    out
}

/// The entries as a plain list, in the given order.
pub fn list_files(entries: &Vec<DirectoryEntry>) -> (r: String)
    ensures
        r@ == plain_list(entry_views(entries@)),
{
    let mut items: Vec<String> = Vec::new();
    let mut i: usize = 0;
    while i < entries.len()
        invariant
            i <= entries.len(),
            items@.len() == i,
            forall|j: int| 0 <= j < i ==> (#[trigger] items@[j])@ == list_item(entries@[j]@),
        decreases entries.len() - i,
    {
        items.push(render_list_item(&entries[i]));
        i += 1;
    }
    assert(texts(items@) =~= entry_views(entries@).map_values(|e: EntryView| list_item(e)));
    let mut out = String::from_str("<ul>\n  ");
    out.append(join(&items, "\n").as_str());
    out.append("\n</ul>\n");
    out
}

/// The entries as a thumbnail grid, in the given order.
pub fn thumb_files(entries: &Vec<DirectoryEntry>) -> (r: String)
    ensures
        r@ == thumb_grid(entry_views(entries@)),
{
    let mut items: Vec<String> = Vec::new();
    let mut i: usize = 0;
    while i < entries.len()
        invariant
            i <= entries.len(),
            items@.len() == i,
            forall|j: int| 0 <= j < i ==> (#[trigger] items@[j])@ == thumb_item(entries@[j]@),
        decreases entries.len() - i,
    {
        items.push(render_thumb_item(&entries[i]));
        i += 1;
    }
    assert(texts(items@) =~= entry_views(entries@).map_values(|e: EntryView| thumb_item(e)));
    let mut out = String::from_str("<div class=\"thumbnail-list\">\n  ");
    out.append(join(&items, "\n").as_str());
    out.append("\n</div>\n");
    out
}

/// The section of a group, its entries in the group's order.
pub fn section(group: &Group) -> (r: String)
    ensures
        r@ == section_of(group@),
{
    let files = if supported(&group.key) {
        thumb_files(&group.entries)
    } else {
        list_files(&group.entries)
    };
    let mut out = String::from_str("<h2>\n  ");
    out.append(group.key.plural_name().as_str());
    out.append("\n</h2>\n");
    out.append(files.as_str());
    out.append("\n<hr>\n");
    out
}

/// The page of a grouped listing of the directory at `path`.
pub fn render_grouped_page(path: &str, groups: &Vec<Group>) -> (r: String)
    ensures
        r@ == grouped_page(path@, group_views(groups@)),
{
    let mut sections: Vec<String> = Vec::new();
    let mut i: usize = 0;
    while i < groups.len()
        invariant
            i <= groups.len(),
            sections@.len() == i,
            forall|j: int| 0 <= j < i ==> (#[trigger] sections@[j])@ == section_of(groups@[j]@),
        decreases groups.len() - i,
    {
        sections.push(section(&groups[i]));
        i += 1;
    }
    assert(texts(sections@) =~= group_views(groups@).map_values(|g: GroupView| section_of(g)));
    let mut out = String::from_str(
        "<!DOCTYPE html>\n<html>\n  <head>\n    <meta http-equiv=\"Content-Type\" content=\"text/html; charset=utf-8\">\n    <meta name=\"color-scheme\" content=\"light dark\">\n    <style>\n      ",
    );
    out.append(STYLE);
    out.append("\n    </style>\n    <title>Directory ");
    out.append(path);
    out.append("</title>\n  </head>\n  <body>\n    <h1>Directory ");
    out.append(path);
    out.append("</h1>\n    <hr>\n    ");
    out.append(join(&sections, "\n").as_str());
    out.append("\n  </body>\n</html>\n");
    out
}

/// The page of a flat listing of the directory at `path`, its entries in the
/// given order.
pub fn render_flat_page(path: &str, entries: &Vec<DirectoryEntry>) -> (r: String)
    ensures
        r@ == flat_page(path@, entry_views(entries@)),
{
    let mut items: Vec<String> = Vec::new();
    let mut i: usize = 0;
    while i < entries.len()
        invariant
            i <= entries.len(),
            items@.len() == i,
            forall|j: int| 0 <= j < i ==> (#[trigger] items@[j])@ == flat_item(entries@[j]@),
        decreases entries.len() - i,
    {
        items.push(render_flat_item(&entries[i]));
        i += 1;
    }
    assert(texts(items@) =~= entry_views(entries@).map_values(|e: EntryView| flat_item(e)));
    let mut out = String::from_str(
        "<!DOCTYPE html>\n<html>\n  <head>\n    <meta http-equiv=\"Content-Type\" content=\"text/html; charset=utf-8\">\n    <meta name=\"color-scheme\" content=\"light dark\">\n    <script>\n      ",
    );
    out.append(SCRIPT);
    out.append("\n    </script>\n    <title>Directory ");
    out.append(path);
    out.append("</title>\n  </head>\n  <body>\n    <h1>Directory ");
    out.append(path);
    out.append("</h1>\n    <hr>\n    <ul>\n      ");
    out.append(join(&items, "\n").as_str());
    out.append("\n    </ul>\n    <hr>\n  </body>\n</html>\n");
    out
}

} // verus!
