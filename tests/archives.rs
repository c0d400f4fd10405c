use std::io::{Cursor, Read};

use leak::archive::{selection_name, ArchiveBuilder, ArchiveWalk, EntryKind};
use leak::sandbox::SandboxedPath;

fn root() -> SandboxedPath {
    SandboxedPath::new_root("/srv/share".to_string()).unwrap()
}

#[test]
fn file_and_directory_make_three_entries() {
    let r = root();
    let mut zip = ArchiveBuilder::new();

    let file = r.child("f.txt").unwrap();
    assert_eq!(selection_name(&file), "f.txt");
    assert!(zip.add_file(&selection_name(&file), b"top"));

    let dir = r.child("d").unwrap();
    let mut walk = ArchiveWalk::new(r.child("d").unwrap(), selection_name(&dir));
    let mut seen_dirs = 0;
    while let Some(item) = walk.next_dir() {
        seen_dirs += 1;
        let listing = vec![
            ("a.txt".to_string(), EntryKind::File),
            (".secret".to_string(), EntryKind::File),
            ("b.txt".to_string(), EntryKind::File),
        ];
        let files = walk.visit(&item.path, &item.name, &listing);
        for f in files {
            let data = f.name.clone().into_bytes();
            assert!(zip.add_file(&f.name, &data));
        }
    }
    assert_eq!(seen_dirs, 1);

    let bytes = zip.finish().unwrap();
    let mut archive = zip::ZipArchive::new(Cursor::new(bytes)).unwrap();
    assert_eq!(archive.len(), 3);
    let names: Vec<String> = (0..3).map(|i| archive.by_index(i).unwrap().name().to_string()).collect();
    assert_eq!(names, vec!["f.txt", "d/a.txt", "d/b.txt"]);
    let mut s = String::new();
    archive.by_name("d/b.txt").unwrap().read_to_string(&mut s).unwrap();
    assert_eq!(s, "d/b.txt");
}

#[test]
fn subdirectories_are_queued_with_joined_names() {
    let r = root();
    let mut walk = ArchiveWalk::new(r.child("top").unwrap(), "top".to_string());
    let item = walk.next_dir().unwrap();
    let listing = vec![
        ("inner".to_string(), EntryKind::Directory),
        ("x.bin".to_string(), EntryKind::File),
        ("sock".to_string(), EntryKind::Other),
    ];
    let files = walk.visit(&item.path, &item.name, &listing);
    assert_eq!(files.len(), 1);
    assert_eq!(files[0].name, "top/x.bin");
    assert_eq!(files[0].path.path(), "/srv/share/top/x.bin");
    let next = walk.next_dir().unwrap();
    assert_eq!(next.name, "top/inner");
    assert_eq!(next.path.path(), "/srv/share/top/inner");
    assert!(walk.next_dir().is_none());
}

#[test]
fn the_root_itself_has_an_empty_name() {
    let r = SandboxedPath::new_root("/".to_string()).unwrap();
    assert_eq!(selection_name(&r), "");
    let mut walk = ArchiveWalk::new(r.child("x").unwrap(), String::new());
    let item = walk.next_dir().unwrap();
    let files = walk.visit(&item.path, &item.name, &vec![("f".to_string(), EntryKind::File)]);
    assert_eq!(files[0].name, "f");
}

#[test]
fn duplicate_entry_is_refused_by_the_writer() {
    let mut zip = ArchiveBuilder::new();
    assert!(zip.add_file("a", b"1"));
    assert!(!zip.add_file("a", b"2"));
}

#[test]
fn overlong_names_are_refused() {
    let mut zip = ArchiveBuilder::new();
    let long = "n".repeat(65536);
    assert!(!zip.add_file(&long, b"x"));
    let ok = "n".repeat(65535);
    assert!(zip.add_file(&ok, b"x"));
    let bytes = zip.finish().unwrap();
    let archive = zip::ZipArchive::new(Cursor::new(bytes)).unwrap();
    assert_eq!(archive.len(), 1);
}
