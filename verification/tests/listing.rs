use dirserve::category::Extension;
use dirserve::entry::DirectoryEntry;
use dirserve::group::{group, Group};
use dirserve::sort::sort_entries;

fn entry(path: &str, is_dir: bool) -> DirectoryEntry {
    DirectoryEntry::new("/srv/files", path, is_dir).unwrap()
}

fn files(names: &[&str]) -> Vec<DirectoryEntry> {
    names.iter().map(|name| entry(&format!("/srv/files/{}", name), false)).collect()
}

fn names(entries: &[DirectoryEntry]) -> Vec<String> {
    entries.iter().map(|e| e.name.clone()).collect()
}

fn keys(groups: &[Group]) -> Vec<Extension> {
    groups.iter().map(|g| g.key.clone()).collect()
}

#[test]
fn sorting_ignores_case() {
    let sorted = sort_entries(files(&["b.txt", "C.txt", "a.txt", "D.txt"]));
    assert_eq!(names(&sorted), ["a.txt", "b.txt", "C.txt", "D.txt"]);
}

#[test]
fn sorting_keeps_ties_in_the_order_found() {
    let sorted = sort_entries(files(&["b", "A", "a", "B", "a", "A"]));
    assert_eq!(names(&sorted), ["A", "a", "a", "A", "b", "B"]);
    let sorted = sort_entries(files(&["a", "A", "B", "b"]));
    assert_eq!(names(&sorted), ["a", "A", "B", "b"]);
}

#[test]
fn sorting_does_not_depend_on_the_order_found() {
    let expected = ["alpha", "Beta", "delta", "GAMMA", "omega.txt"];
    let orders: [[&str; 5]; 4] = [
        ["alpha", "Beta", "delta", "GAMMA", "omega.txt"],
        ["omega.txt", "GAMMA", "delta", "Beta", "alpha"],
        ["delta", "alpha", "omega.txt", "Beta", "GAMMA"],
        ["GAMMA", "omega.txt", "alpha", "delta", "Beta"],
    ];
    for order in orders {
        assert_eq!(names(&sort_entries(files(&order))), expected);
    }
}

#[test]
fn sorting_nothing_and_one() {
    assert_eq!(sort_entries(Vec::new()), Vec::new());
    assert_eq!(names(&sort_entries(files(&["only"]))), ["only"]);
}

#[test]
fn sorting_goes_by_the_whole_path() {
    let sorted = sort_entries(vec![
        entry("/srv/files/b/a.txt", false),
        entry("/srv/files/A/z.txt", false),
        entry("/srv/files/a/B.txt", false),
    ]);
    let paths: Vec<&str> = sorted.iter().map(|e| e.relative.as_str()).collect();
    assert_eq!(paths, ["a/B.txt", "A/z.txt", "b/a.txt"]);
}

#[test]
fn sections_come_in_category_order() {
    let groups = group(vec![
        entry("/srv/files/README", false),
        entry("/srv/files/notes.txt", false),
        entry("/srv/files/pic.png", false),
        entry("/srv/files/sub", true),
    ]);
    let headings: Vec<String> = groups.iter().map(|g| g.key.plural_name()).collect();
    assert_eq!(headings, ["Directories", ".png files", ".txt files", "Extensionless"]);
}

#[test]
fn groups_part_the_entries() {
    let given = vec![
        entry("/srv/files/notes.txt", false),
        entry("/srv/files/Zeta.png", false),
        entry("/srv/files/sub", true),
        entry("/srv/files/alpha.PNG", false),
        entry("/srv/files/README", false),
        entry("/srv/files/beta.png", false),
        entry("/srv/files/other.d", true),
        entry("/srv/files/.hidden", false),
        entry("/srv/files/a.TXT", false),
    ];
    let groups = group(given.clone());
    assert_eq!(
        keys(&groups),
        [
            Extension::Directory,
            Extension::Extension("png".to_string()),
            Extension::Extension("txt".to_string()),
            Extension::Missing,
        ]
    );
    assert_eq!(names(&groups[0].entries), ["other.d", "sub"]);
    assert_eq!(names(&groups[1].entries), ["alpha.PNG", "beta.png", "Zeta.png"]);
    assert_eq!(names(&groups[2].entries), ["a.TXT", "notes.txt"]);
    assert_eq!(names(&groups[3].entries), [".hidden", "README"]);
    let total: usize = groups.iter().map(|g| g.entries.len()).sum();
    assert_eq!(total, given.len());
    for e in &given {
        let holding: Vec<&Group> = groups.iter().filter(|g| g.entries.contains(e)).collect();
        assert_eq!(holding.len(), 1);
        assert_eq!(holding[0].key, Extension::from(e));
    }
}

#[test]
fn upper_and_lower_case_extensions_share_a_group() {
    let groups = group(files(&["photo.JPG", "other.jpg", "third.Jpg"]));
    assert_eq!(keys(&groups), [Extension::Extension("jpg".to_string())]);
    assert_eq!(names(&groups[0].entries), ["other.jpg", "photo.JPG", "third.Jpg"]);
}

#[test]
fn grouping_nothing_gives_no_group() {
    assert_eq!(group(Vec::new()), Vec::new());
}

#[test]
fn a_group_keeps_ties_in_the_order_found() {
    let groups = group(files(&["B.txt", "a.png", "b.txt", "A.png", "b.TXT"]));
    assert_eq!(names(&groups[0].entries), ["a.png", "A.png"]);
    assert_eq!(names(&groups[1].entries), ["B.txt", "b.txt", "b.TXT"]);
}
