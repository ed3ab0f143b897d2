use dirserve::category::Type;
use dirserve::convert::{
    buffered, convert_image, streamed, thumbnail_for, thumbnail_image, thumbnail_video,
    ConversionRequest, Invocation, Launch, JPEG,
};
use dirserve::endpoints;
use dirserve::endpoints::{by_type, by_type_at, file_of_type, get, get_at};
use dirserve::endpoints::{readable_entries, resolve, thumbnail, Reply, Target};
use dirserve::entry::DirectoryEntry;
use dirserve::error::Error;

const PAGE: &str = "<!DOCTYPE html>\n<html>\n  <head>\n    <meta http-equiv=\"Content-Type\" content=\"text/html; charset=utf-8\">\n    <meta name=\"color-scheme\" content=\"light dark\">\n    <style>\n      .thumbnail-list {\n  display: flex;\n  flex-wrap: wrap;\n  gap: 16px;\n}\n\n.thumbnail-list .entry {\n  display: flex;\n  flex-direction: column;\n  align-items: center;\n  gap: 4px;\n}\n\n.thumbnail-list .entry .thumbnail {\n  height: 200px;\n  width: 200px;\n\n  border: 1px solid #fff4;\n}\n\n.thumbnail-list .entry .thumbnail img {\n  width: 100%;\n  height: 100%;\n  object-fit: contain;\n}\n\n    </style>\n    <title>Directory /srv/files/album</title>\n  </head>\n  <body>\n    <h1>Directory /srv/files/album</h1>\n    <hr>\n    <h2>\n  Directories\n</h2>\n<ul>\n  <li>\n  <a href=\"/by-type/album/sub\">sub/</a>\n</li>\n\n</ul>\n\n<hr>\n\n<h2>\n  .png files\n</h2>\n<div class=\"thumbnail-list\">\n  <div class=\"entry\">\n  <a href=\"/by-type/album/alpha.PNG\">\n    <div class=\"thumbnail\">\n      <img src=\"/thumbnail/album/alpha.PNG\"/>\n    </div>\n  </a>\n  <a href=\"/by-type/album/alpha.PNG\">alpha.PNG</a>\n</div>\n\n<div class=\"entry\">\n  <a href=\"/by-type/album/beta.png\">\n    <div class=\"thumbnail\">\n      <img src=\"/thumbnail/album/beta.png\"/>\n    </div>\n  </a>\n  <a href=\"/by-type/album/beta.png\">beta.png</a>\n</div>\n\n<div class=\"entry\">\n  <a href=\"/by-type/album/Zeta.png\">\n    <div class=\"thumbnail\">\n      <img src=\"/thumbnail/album/Zeta.png\"/>\n    </div>\n  </a>\n  <a href=\"/by-type/album/Zeta.png\">Zeta.png</a>\n</div>\n\n</div>\n\n<hr>\n\n<h2>\n  .txt files\n</h2>\n<ul>\n  <li>\n  <a href=\"/by-type/album/notes.txt\">notes.txt</a>\n</li>\n\n</ul>\n\n<hr>\n\n<h2>\n  Extensionless\n</h2>\n<ul>\n  <li>\n  <a href=\"/by-type/album/README\">README</a>\n</li>\n\n</ul>\n\n<hr>\n\n  </body>\n</html>\n";
const FLAT: &str = "<!DOCTYPE html>\n<html>\n  <head>\n    <meta http-equiv=\"Content-Type\" content=\"text/html; charset=utf-8\">\n    <meta name=\"color-scheme\" content=\"light dark\">\n    <script>\n      document.addEventListener(\"keydown\", (event) => {\n  if (event.key === \"t\") {\n    const path = window.location.pathname;\n    window.location.pathname = path.replace(\"/get/\", \"/by-type/\");\n  }\n});\n\n    </script>\n    <title>Directory /srv/files/album</title>\n  </head>\n  <body>\n    <h1>Directory /srv/files/album</h1>\n    <hr>\n    <ul>\n      <li>\n  <a href=\"/get/album/alpha.PNG\">alpha.PNG</a>\n</li>\n\n<li>\n  <a href=\"/get/album/beta.png\">beta.png</a>\n</li>\n\n<li>\n  <a href=\"/get/album/notes.txt\">notes.txt</a>\n</li>\n\n<li>\n  <a href=\"/get/album/README\">README</a>\n</li>\n\n<li>\n  <a href=\"/get/album/sub\">sub/</a>\n</li>\n\n<li>\n  <a href=\"/get/album/Zeta.png\">Zeta.png</a>\n</li>\n\n    </ul>\n    <hr>\n  </body>\n</html>\n";
const PHOTO_PAGE: &str = "<!DOCTYPE html>\n<html>\n  <head>\n    <meta http-equiv=\"Content-Type\" content=\"text/html; charset=utf-8\">\n    <meta name=\"color-scheme\" content=\"light dark\">\n    <style>\n      .thumbnail-list {\n  display: flex;\n  flex-wrap: wrap;\n  gap: 16px;\n}\n\n.thumbnail-list .entry {\n  display: flex;\n  flex-direction: column;\n  align-items: center;\n  gap: 4px;\n}\n\n.thumbnail-list .entry .thumbnail {\n  height: 200px;\n  width: 200px;\n\n  border: 1px solid #fff4;\n}\n\n.thumbnail-list .entry .thumbnail img {\n  width: 100%;\n  height: 100%;\n  object-fit: contain;\n}\n\n    </style>\n    <title>Directory /srv/files/album</title>\n  </head>\n  <body>\n    <h1>Directory /srv/files/album</h1>\n    <hr>\n    <h2>\n  .jpg files\n</h2>\n<div class=\"thumbnail-list\">\n  <div class=\"entry\">\n  <a href=\"/by-type/album/other.jpg\">\n    <div class=\"thumbnail\">\n      <img src=\"/thumbnail/album/other.jpg\"/>\n    </div>\n  </a>\n  <a href=\"/by-type/album/other.jpg\">other.jpg</a>\n</div>\n\n<div class=\"entry\">\n  <a href=\"/by-type/album/photo.JPG\">\n    <div class=\"thumbnail\">\n      <img src=\"/thumbnail/album/photo.JPG\"/>\n    </div>\n  </a>\n  <a href=\"/by-type/album/photo.JPG\">photo.JPG</a>\n</div>\n\n</div>\n\n<hr>\n\n  </body>\n</html>\n";

fn album(name: &str, is_dir: bool) -> Option<DirectoryEntry> {
    DirectoryEntry::new("/srv/files", &format!("/srv/files/album/{}", name), is_dir)
}

fn scan() -> Vec<Option<DirectoryEntry>> {
    vec![
        album("notes.txt", false),
        None,
        album("Zeta.png", false),
        album("sub", true),
        album("alpha.PNG", false),
        None,
        album("README", false),
        album("beta.png", false),
    ]
}

fn command(program: &str, args: &[&str]) -> Invocation {
    Invocation {
        program: program.to_string(),
        args: args.iter().map(|a| a.to_string()).collect(),
    }
}

#[test]
fn the_image_is_reencoded_as_jpeg() {
    assert_eq!(
        convert_image("/srv/files/a b.png"),
        command("convert", &["/srv/files/a b.png", "JPG:-"])
    );
}

#[test]
fn the_image_thumbnail_is_upright_and_200_high() {
    assert_eq!(
        thumbnail_image("/srv/files/a.png"),
        command("convert", &["/srv/files/a.png", "-auto-orient", "-thumbnail", "x200", "JPG:-"])
    );
}

#[test]
fn the_video_thumbnail_is_one_frame_a_second_in() {
    assert_eq!(
        thumbnail_video("/srv/files/a.mp4"),
        command(
            "ffmpeg",
            &[
                "-i",
                "/srv/files/a.mp4",
                "-ss",
                "00:00:01.00",
                "-vf",
                "scale=320:320:force_original_aspect_ratio=decrease",
                "-vframes",
                "1",
                "-f",
                "image2pipe",
                "-",
            ]
        )
    );
}

#[test]
fn a_thumbnail_goes_by_the_media_type() {
    let request = |target| ConversionRequest { source: "/srv/files/x".to_string(), target };
    assert_eq!(thumbnail_for(&request(Type::Image)), Ok(thumbnail_image("/srv/files/x")));
    assert_eq!(thumbnail_for(&request(Type::Video)), Ok(thumbnail_video("/srv/files/x")));
    assert_eq!(thumbnail_for(&request(Type::Other)), Err(Error::InvalidType(Type::Other)));
}

#[test]
fn a_streamed_conversion() {
    assert_eq!(streamed(Launch::Piped), Ok("image/jpeg"));
    assert_eq!(JPEG, "image/jpeg");
    assert_eq!(streamed(Launch::NoStdout), Err(Error::NoStdout));
    assert_eq!(
        streamed(Launch::Refused("No such file or directory".to_string())),
        Err(Error::Spawn("No such file or directory".to_string()))
    );
}

#[test]
fn a_buffered_conversion() {
    assert_eq!(buffered(true, vec![0xff, 0xd8]), Ok(vec![0xff, 0xd8]));
    assert_eq!(buffered(false, b"no decode delegate".to_vec()), Err(Error::Failed(b"no decode delegate".to_vec())));
    assert_eq!(buffered(false, Vec::new()), Err(Error::Failed(Vec::new())));
}

#[test]
fn statuses() {
    assert_eq!(Error::InvalidType(Type::Other).status(), 400);
    assert_eq!(Error::NotFound.status(), 404);
    assert_eq!(Error::NoStdout.status(), 500);
    assert_eq!(Error::Unreadable("denied".to_string()).status(), 500);
    assert_eq!(Error::Spawn("missing".to_string()).status(), 500);
    assert_eq!(Error::Failed(vec![1]).status(), 500);
}

#[test]
fn messages() {
    assert_eq!(Error::InvalidType(Type::Other).message(), "invalid type: Other");
    assert_eq!(Error::InvalidType(Type::Video).message(), "invalid type: Video");
    assert_eq!(Error::NoStdout.message(), "no stdout");
    assert_eq!(Error::NotFound.message(), "not found");
    assert_eq!(Error::Unreadable("Permission denied".to_string()).message(), "Permission denied");
    assert_eq!(Error::Spawn("No such file".to_string()).message(), "No such file");
    assert_eq!(Error::Failed(b"secret".to_vec()).message(), "conversion failed");
}

#[test]
fn only_an_image_is_reencoded() {
    assert_eq!(
        endpoints::file("/srv/files/photo.JPG", false),
        Reply::Converted(convert_image("/srv/files/photo.JPG"))
    );
    for path in ["/srv/files/notes.txt", "/srv/files/film.mp4", "/srv/files/README", "/srv/files/.png"] {
        assert_eq!(endpoints::file(path, false), Reply::Raw(path.to_string()));
    }
    assert_eq!(endpoints::file("/srv/files/dir.png", true), Reply::Raw("/srv/files/dir.png".to_string()));
}

#[test]
fn a_file_of_a_given_type() {
    assert_eq!(file_of_type("a", Type::Image), Reply::Converted(convert_image("a")));
    assert_eq!(file_of_type("a", Type::Video), Reply::Raw("a".to_string()));
    assert_eq!(file_of_type("a", Type::Other), Reply::Raw("a".to_string()));
}

#[test]
fn a_thumbnail_of_a_text_file_is_a_bad_request() {
    let r = thumbnail("album/notes.txt", false, "/srv/files");
    assert_eq!(r, Err(Error::InvalidType(Type::Other)));
    let e = r.unwrap_err();
    assert_eq!(e.status(), 400);
    assert_eq!(e.message(), "invalid type: Other");
}

#[test]
fn a_thumbnail_of_a_directory_is_a_bad_request() {
    assert_eq!(thumbnail("album/sub.png", true, "/srv/files"), Err(Error::InvalidType(Type::Other)));
}

#[test]
fn a_thumbnail_of_an_image() {
    assert_eq!(
        thumbnail("album/photo.JPG", false, "/srv/files"),
        Ok(thumbnail_image("/srv/files/album/photo.JPG"))
    );
}

#[test]
fn a_missing_path_is_not_found() {
    let r = by_type("nothing/here", "/srv/files", Target::Missing);
    assert_eq!(r, Err(Error::NotFound));
    assert_eq!(r.unwrap_err().status(), 404);
    assert_eq!(get("nothing/here", "/srv/files", Target::Missing), Err(Error::NotFound));
}

#[test]
fn an_unreadable_directory_is_an_internal_error() {
    let r = by_type("album", "/srv/files", Target::Unreadable("Permission denied".to_string()));
    assert_eq!(r, Err(Error::Unreadable("Permission denied".to_string())));
    assert_eq!(r.unwrap_err().status(), 500);
    assert_eq!(
        get("album", "/srv/files", Target::Unreadable("Permission denied".to_string())),
        Err(Error::Unreadable("Permission denied".to_string()))
    );
}

#[test]
fn a_file_is_answered_as_a_single_file() {
    assert_eq!(
        by_type("album/photo.png", "/srv/files", Target::File),
        Ok(Reply::Converted(convert_image("/srv/files/album/photo.png")))
    );
    assert_eq!(
        by_type("album/notes.txt", "/srv/files", Target::File),
        Ok(Reply::Raw("/srv/files/album/notes.txt".to_string()))
    );
    assert_eq!(
        get("album/photo.png", "/srv/files", Target::File),
        Ok(Reply::Converted(convert_image("/srv/files/album/photo.png")))
    );
    assert_eq!(
        get("album/notes.txt", "/srv/files", Target::File),
        Ok(Reply::Raw("/srv/files/album/notes.txt".to_string()))
    );
}

#[test]
fn a_directory_is_answered_with_its_grouped_page() {
    assert_eq!(by_type("album", "/srv/files", Target::Directory(scan())), Ok(Reply::Html(PAGE.to_string())));
    assert_eq!(by_type_at("/srv/files/album", Target::Directory(scan())), Ok(Reply::Html(PAGE.to_string())));
}

#[test]
fn a_directory_is_answered_with_its_flat_page() {
    assert_eq!(get("album", "/srv/files", Target::Directory(scan())), Ok(Reply::Html(FLAT.to_string())));
    assert_eq!(get_at("/srv/files/album", Target::Directory(scan())), Ok(Reply::Html(FLAT.to_string())));
}

#[test]
fn a_photo_is_linked_to_its_thumbnail_and_itself() {
    let children = vec![album("photo.JPG", false), album("other.jpg", false)];
    let r = by_type("album", "/srv/files", Target::Directory(children));
    assert_eq!(r, Ok(Reply::Html(PHOTO_PAGE.to_string())));
    let page = match r {
        Ok(Reply::Html(page)) => page,
        _ => unreachable!(),
    };
    assert!(page.contains("<img src=\"/thumbnail/album/photo.JPG\"/>"));
    assert!(page.contains("<a href=\"/by-type/album/photo.JPG\">photo.JPG</a>"));
    assert_eq!(page.matches("<h2>").count(), 1);
    assert!(page.contains("<h2>\n  .jpg files\n</h2>"));
}

#[test]
fn unreadable_children_are_left_out() {
    let entries = readable_entries(scan());
    let names: Vec<&str> = entries.iter().map(|e| e.name.as_str()).collect();
    assert_eq!(names, ["notes.txt", "Zeta.png", "sub", "alpha.PNG", "README", "beta.png"]);
    assert_eq!(readable_entries(vec![None, None]), Vec::new());
    assert_eq!(readable_entries(Vec::new()), Vec::new());
}

#[test]
fn the_path_of_a_request() {
    assert_eq!(resolve("/srv/files", "album/photo.png"), "/srv/files/album/photo.png");
    assert_eq!(resolve("/srv/files", ""), "/srv/files/");
    assert_eq!(resolve("/srv/files", "/etc/passwd"), "/etc/passwd");
}
