use leak::listing::{list_entries, DirectoryEntry};
use leak::media::{content_type, file_icon};
use leak::page::{
    action_target, build_breadcrumbs, decimal_string, entry_href, format_time, html_escape,
    listing_stats, parent_href,
};

fn e(name: &str, is_dir: bool, size: u64) -> DirectoryEntry {
    DirectoryEntry { name: name.to_string(), is_dir, size, age: 0 }
}

#[test]
fn empty_directory_lists_nothing() {
    assert!(list_entries(Vec::new()).is_empty());
}

#[test]
fn directories_first_then_names_without_case() {
    let raw = vec![
        e("b.txt", false, 1),
        e("Zdir", true, 0),
        e("A.txt", false, 2),
        e(".git", true, 0),
        e("adir", true, 0),
        e("c.txt", false, 3),
    ];
    let names: Vec<String> = list_entries(raw).into_iter().map(|x| x.name).collect();
    assert_eq!(names, vec!["adir", "Zdir", "A.txt", "b.txt", "c.txt"]);
}

#[test]
fn equal_names_keep_their_read_order() {
    let names = |raw: Vec<DirectoryEntry>| -> Vec<String> { list_entries(raw).into_iter().map(|x| x.name).collect() };
    assert_eq!(names(vec![e("b", false, 0), e("A", false, 0), e("a", false, 0)]), vec!["A", "a", "b"]);
    assert_eq!(names(vec![e("a", false, 0), e("b", false, 0), e("A", false, 0)]), vec!["a", "A", "b"]);
}

#[test]
fn stats_count_dirs_files_and_bytes() {
    let v = vec![e("d", true, 100), e("a", false, 5), e("b", false, 7)];
    assert_eq!(listing_stats(&v), (1, 2, 12));
    let big = vec![e("a", false, u64::MAX), e("b", false, 1)];
    assert_eq!(listing_stats(&big), (0, 2, u64::MAX));
}

#[test]
fn relative_ages() {
    assert_eq!(format_time(0), "0s ago");
    assert_eq!(format_time(59), "59s ago");
    assert_eq!(format_time(61), "1m ago");
    assert_eq!(format_time(7200), "2h ago");
    assert_eq!(format_time(86400 * 3), "3d ago");
    assert_eq!(format_time(86400 * 65), "2mo ago");
    assert_eq!(format_time(86400 * 800), "2y ago");
    assert_eq!(decimal_string(1234567), "1234567");
}

#[test]
fn escaping_html() {
    assert_eq!(html_escape("<a href=\"x\">&</a>"), "&lt;a href=&quot;x&quot;&gt;&amp;&lt;/a&gt;");
    assert_eq!(html_escape("plain"), "plain");
}

#[test]
fn breadcrumbs_link_each_level() {
    assert_eq!(build_breadcrumbs("/"), "<a href=\"/\">~</a>");
    assert_eq!(
        build_breadcrumbs("/a/b<c/"),
        "<a href=\"/\">~</a><span class=\"sep\">/</span><a href=\"/a\">a</a><span class=\"sep\">/</span><span>b&lt;c</span>"
    );
}

#[test]
fn links_on_a_directory_page() {
    assert_eq!(entry_href("/docs", "my file.txt", false), "/docs/my%20file.txt");
    assert_eq!(entry_href("/docs/", "sub", true), "/docs/sub/");
    assert_eq!(parent_href("/"), "/");
    assert_eq!(parent_href("/a"), "/");
    assert_eq!(parent_href("/a/b/"), "/a");
    assert_eq!(action_target("/a", "__upload"), "/a/__upload");
    assert_eq!(action_target("/", "__download"), "/__download");
}

#[test]
fn media_types_by_extension() {
    assert_eq!(content_type("/srv/x/index.html"), "text/html; charset=utf-8");
    assert_eq!(content_type("/srv/x/pic.JPG"), "application/octet-stream");
    assert_eq!(content_type("/srv/x/pic.jpeg"), "image/jpeg");
    assert_eq!(content_type("/srv/x/.bashrc"), "application/octet-stream");
    assert_eq!(content_type("/srv/x/archive.tar.gz"), "application/octet-stream");
    assert_eq!(content_type("/srv/x/notes.md"), "text/plain; charset=utf-8");
    assert_eq!(content_type("/srv/x.d/README"), "application/octet-stream");
}

#[test]
fn icons_by_kind() {
    assert_eq!(file_icon("src", true), "📁");
    assert_eq!(file_icon("main.rs", false), "🦀");
    assert_eq!(file_icon("a.tar.gz", false), "📦");
    assert_eq!(file_icon("Cargo.lock", false), "🔒");
    assert_eq!(file_icon("noext", false), "📄");
}
