use dirserve::category::Extension;
use dirserve::entry::DirectoryEntry;
use dirserve::group::{group, Group};
use dirserve::render::{
    list_files, render_flat_item, render_flat_page, render_grouped_page, render_list_item,
    render_thumb_item, section, thumb_files, SCRIPT, STYLE,
};

const PAGE: &str = "<!DOCTYPE html>\n<html>\n  <head>\n    <meta http-equiv=\"Content-Type\" content=\"text/html; charset=utf-8\">\n    <meta name=\"color-scheme\" content=\"light dark\">\n    <style>\n      .thumbnail-list {\n  display: flex;\n  flex-wrap: wrap;\n  gap: 16px;\n}\n\n.thumbnail-list .entry {\n  display: flex;\n  flex-direction: column;\n  align-items: center;\n  gap: 4px;\n}\n\n.thumbnail-list .entry .thumbnail {\n  height: 200px;\n  width: 200px;\n\n  border: 1px solid #fff4;\n}\n\n.thumbnail-list .entry .thumbnail img {\n  width: 100%;\n  height: 100%;\n  object-fit: contain;\n}\n\n    </style>\n    <title>Directory /srv/files/album</title>\n  </head>\n  <body>\n    <h1>Directory /srv/files/album</h1>\n    <hr>\n    <h2>\n  Directories\n</h2>\n<ul>\n  <li>\n  <a href=\"/by-type/album/sub\">sub/</a>\n</li>\n\n</ul>\n\n<hr>\n\n<h2>\n  .png files\n</h2>\n<div class=\"thumbnail-list\">\n  <div class=\"entry\">\n  <a href=\"/by-type/album/alpha.PNG\">\n    <div class=\"thumbnail\">\n      <img src=\"/thumbnail/album/alpha.PNG\"/>\n    </div>\n  </a>\n  <a href=\"/by-type/album/alpha.PNG\">alpha.PNG</a>\n</div>\n\n<div class=\"entry\">\n  <a href=\"/by-type/album/beta.png\">\n    <div class=\"thumbnail\">\n      <img src=\"/thumbnail/album/beta.png\"/>\n    </div>\n  </a>\n  <a href=\"/by-type/album/beta.png\">beta.png</a>\n</div>\n\n<div class=\"entry\">\n  <a href=\"/by-type/album/Zeta.png\">\n    <div class=\"thumbnail\">\n      <img src=\"/thumbnail/album/Zeta.png\"/>\n    </div>\n  </a>\n  <a href=\"/by-type/album/Zeta.png\">Zeta.png</a>\n</div>\n\n</div>\n\n<hr>\n\n<h2>\n  .txt files\n</h2>\n<ul>\n  <li>\n  <a href=\"/by-type/album/notes.txt\">notes.txt</a>\n</li>\n\n</ul>\n\n<hr>\n\n<h2>\n  Extensionless\n</h2>\n<ul>\n  <li>\n  <a href=\"/by-type/album/README\">README</a>\n</li>\n\n</ul>\n\n<hr>\n\n  </body>\n</html>\n";
const FLAT: &str = "<!DOCTYPE html>\n<html>\n  <head>\n    <meta http-equiv=\"Content-Type\" content=\"text/html; charset=utf-8\">\n    <meta name=\"color-scheme\" content=\"light dark\">\n    <script>\n      document.addEventListener(\"keydown\", (event) => {\n  if (event.key === \"t\") {\n    const path = window.location.pathname;\n    window.location.pathname = path.replace(\"/get/\", \"/by-type/\");\n  }\n});\n\n    </script>\n    <title>Directory /srv/files/album</title>\n  </head>\n  <body>\n    <h1>Directory /srv/files/album</h1>\n    <hr>\n    <ul>\n      <li>\n  <a href=\"/get/album/alpha.PNG\">alpha.PNG</a>\n</li>\n\n<li>\n  <a href=\"/get/album/beta.png\">beta.png</a>\n</li>\n\n<li>\n  <a href=\"/get/album/notes.txt\">notes.txt</a>\n</li>\n\n<li>\n  <a href=\"/get/album/README\">README</a>\n</li>\n\n<li>\n  <a href=\"/get/album/sub\">sub/</a>\n</li>\n\n<li>\n  <a href=\"/get/album/Zeta.png\">Zeta.png</a>\n</li>\n\n    </ul>\n    <hr>\n  </body>\n</html>\n";
const EMPTY_PAGE: &str = "<!DOCTYPE html>\n<html>\n  <head>\n    <meta http-equiv=\"Content-Type\" content=\"text/html; charset=utf-8\">\n    <meta name=\"color-scheme\" content=\"light dark\">\n    <style>\n      .thumbnail-list {\n  display: flex;\n  flex-wrap: wrap;\n  gap: 16px;\n}\n\n.thumbnail-list .entry {\n  display: flex;\n  flex-direction: column;\n  align-items: center;\n  gap: 4px;\n}\n\n.thumbnail-list .entry .thumbnail {\n  height: 200px;\n  width: 200px;\n\n  border: 1px solid #fff4;\n}\n\n.thumbnail-list .entry .thumbnail img {\n  width: 100%;\n  height: 100%;\n  object-fit: contain;\n}\n\n    </style>\n    <title>Directory /srv/files/album</title>\n  </head>\n  <body>\n    <h1>Directory /srv/files/album</h1>\n    <hr>\n    \n  </body>\n</html>\n";
const EMPTY_FLAT: &str = "<!DOCTYPE html>\n<html>\n  <head>\n    <meta http-equiv=\"Content-Type\" content=\"text/html; charset=utf-8\">\n    <meta name=\"color-scheme\" content=\"light dark\">\n    <script>\n      document.addEventListener(\"keydown\", (event) => {\n  if (event.key === \"t\") {\n    const path = window.location.pathname;\n    window.location.pathname = path.replace(\"/get/\", \"/by-type/\");\n  }\n});\n\n    </script>\n    <title>Directory /srv/files/album</title>\n  </head>\n  <body>\n    <h1>Directory /srv/files/album</h1>\n    <hr>\n    <ul>\n      \n    </ul>\n    <hr>\n  </body>\n</html>\n";
const LIST: &str = "<ul>\n  <li>\n  <a href=\"/by-type/album/sub\">sub/</a>\n</li>\n\n<li>\n  <a href=\"/by-type/album/notes.txt\">notes.txt</a>\n</li>\n\n</ul>\n";
const GRID: &str = "<div class=\"thumbnail-list\">\n  <div class=\"entry\">\n  <a href=\"/by-type/album/photo.JPG\">\n    <div class=\"thumbnail\">\n      <img src=\"/thumbnail/album/photo.JPG\"/>\n    </div>\n  </a>\n  <a href=\"/by-type/album/photo.JPG\">photo.JPG</a>\n</div>\n\n</div>\n";
const SECTION_PNG: &str = "<h2>\n  .png files\n</h2>\n<div class=\"thumbnail-list\">\n  <div class=\"entry\">\n  <a href=\"/by-type/album/alpha.PNG\">\n    <div class=\"thumbnail\">\n      <img src=\"/thumbnail/album/alpha.PNG\"/>\n    </div>\n  </a>\n  <a href=\"/by-type/album/alpha.PNG\">alpha.PNG</a>\n</div>\n\n<div class=\"entry\">\n  <a href=\"/by-type/album/beta.png\">\n    <div class=\"thumbnail\">\n      <img src=\"/thumbnail/album/beta.png\"/>\n    </div>\n  </a>\n  <a href=\"/by-type/album/beta.png\">beta.png</a>\n</div>\n\n<div class=\"entry\">\n  <a href=\"/by-type/album/Zeta.png\">\n    <div class=\"thumbnail\">\n      <img src=\"/thumbnail/album/Zeta.png\"/>\n    </div>\n  </a>\n  <a href=\"/by-type/album/Zeta.png\">Zeta.png</a>\n</div>\n\n</div>\n\n<hr>\n";
const SECTION_DIR: &str = "<h2>\n  Directories\n</h2>\n<ul>\n  <li>\n  <a href=\"/by-type/album/sub\">sub/</a>\n</li>\n\n</ul>\n\n<hr>\n";
const CSS: &str = ".thumbnail-list {\n  display: flex;\n  flex-wrap: wrap;\n  gap: 16px;\n}\n\n.thumbnail-list .entry {\n  display: flex;\n  flex-direction: column;\n  align-items: center;\n  gap: 4px;\n}\n\n.thumbnail-list .entry .thumbnail {\n  height: 200px;\n  width: 200px;\n\n  border: 1px solid #fff4;\n}\n\n.thumbnail-list .entry .thumbnail img {\n  width: 100%;\n  height: 100%;\n  object-fit: contain;\n}\n";
const JS: &str = "document.addEventListener(\"keydown\", (event) => {\n  if (event.key === \"t\") {\n    const path = window.location.pathname;\n    window.location.pathname = path.replace(\"/get/\", \"/by-type/\");\n  }\n});\n";

fn album(name: &str, is_dir: bool) -> DirectoryEntry {
    DirectoryEntry::new("/srv/files", &format!("/srv/files/album/{}", name), is_dir).unwrap()
}

fn found() -> Vec<DirectoryEntry> {
    vec![
        album("notes.txt", false),
        album("Zeta.png", false),
        album("sub", true),
        album("alpha.PNG", false),
        album("README", false),
        album("beta.png", false),
    ]
}

#[test]
fn a_list_item_links_to_the_entry() {
    assert_eq!(
        render_list_item(&album("notes.txt", false)),
        "<li>\n  <a href=\"/by-type/album/notes.txt\">notes.txt</a>\n</li>\n"
    );
}

#[test]
fn a_directory_link_shows_a_separator() {
    assert_eq!(
        render_list_item(&album("sub", true)),
        "<li>\n  <a href=\"/by-type/album/sub\">sub/</a>\n</li>\n"
    );
    assert_eq!(
        render_flat_item(&album("sub", true)),
        "<li>\n  <a href=\"/get/album/sub\">sub/</a>\n</li>\n"
    );
}

#[test]
fn a_thumb_item_shows_the_thumbnail() {
    assert_eq!(
        render_thumb_item(&album("photo.JPG", false)),
        "<div class=\"entry\">\n  <a href=\"/by-type/album/photo.JPG\">\n    <div class=\"thumbnail\">\n      <img src=\"/thumbnail/album/photo.JPG\"/>\n    </div>\n  </a>\n  <a href=\"/by-type/album/photo.JPG\">photo.JPG</a>\n</div>\n"
    );
}

#[test]
fn a_plain_list() {
    assert_eq!(list_files(&vec![album("sub", true), album("notes.txt", false)]), LIST);
    assert_eq!(list_files(&Vec::new()), "<ul>\n  \n</ul>\n");
}

#[test]
fn a_thumbnail_grid() {
    assert_eq!(thumb_files(&vec![album("photo.JPG", false)]), GRID);
    assert_eq!(thumb_files(&Vec::new()), "<div class=\"thumbnail-list\">\n  \n</div>\n");
}

#[test]
fn an_image_section_is_a_grid() {
    let groups = group(vec![
        album("Zeta.png", false),
        album("alpha.PNG", false),
        album("beta.png", false),
    ]);
    assert_eq!(groups.len(), 1);
    assert_eq!(section(&groups[0]), SECTION_PNG);
}

#[test]
fn another_section_is_a_list() {
    let groups = group(vec![album("sub", true)]);
    assert_eq!(section(&groups[0]), SECTION_DIR);
}

#[test]
fn a_section_keeps_the_order_of_its_group() {
    let given = Group {
        key: Extension::Extension("txt".to_string()),
        entries: vec![album("b.txt", false), album("a.txt", false)],
    };
    assert_eq!(
        section(&given),
        "<h2>\n  .txt files\n</h2>\n<ul>\n  <li>\n  <a href=\"/by-type/album/b.txt\">b.txt</a>\n</li>\n\n<li>\n  <a href=\"/by-type/album/a.txt\">a.txt</a>\n</li>\n\n</ul>\n\n<hr>\n"
    );
}

#[test]
fn a_grouped_page() {
    assert_eq!(render_grouped_page("/srv/files/album", &group(found())), PAGE);
}

#[test]
fn a_grouped_page_of_nothing() {
    assert_eq!(render_grouped_page("/srv/files/album", &Vec::new()), EMPTY_PAGE);
}

#[test]
fn a_flat_page() {
    let sorted = dirserve::sort::sort_entries(found());
    assert_eq!(render_flat_page("/srv/files/album", &sorted), FLAT);
    assert_eq!(render_flat_page("/srv/files/album", &Vec::new()), EMPTY_FLAT);
}

#[test]
fn style_and_script() {
    assert_eq!(STYLE, CSS);
    assert_eq!(SCRIPT, JS);
}
