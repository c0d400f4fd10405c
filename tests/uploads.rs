use std::collections::HashMap;

use leak::listing::{list_entries, DirectoryEntry};
use leak::multipart::{boundary_of, extract_filename, filename_from_lowered, parse_multipart};
use leak::sandbox::SandboxedPath;
use leak::upload::{plan_upload, sanitize_filename, upload_boundary, UploadError, UPLOAD_LIMIT};

fn dir() -> SandboxedPath {
    SandboxedPath::new_root("/srv/share".to_string()).unwrap()
}

fn body(parts: &[(&str, &str)], boundary: &str) -> Vec<u8> {
    let mut s = String::new();
    for (name, payload) in parts {
        s.push_str(&format!(
            "--{boundary}\r\nContent-Disposition: form-data; name=\"file\"; filename=\"{name}\"\r\nContent-Type: text/plain\r\n\r\n{payload}\r\n"
        ));
    }
    s.push_str(&format!("--{boundary}--\r\n"));
    s.into_bytes()
}

#[test]
fn two_parts_are_decoded_exactly() {
    let b = body(&[("a.txt", "hello"), ("b.txt", "world")], "X");
    let parts = parse_multipart(&b, "X");
    assert_eq!(parts.len(), 2);
    assert_eq!(parts[0].filename, "a.txt");
    assert_eq!(parts[0].data, b"hello".to_vec());
    assert_eq!(parts[1].filename, "b.txt");
    assert_eq!(parts[1].data, b"world".to_vec());
}

#[test]
fn form_fields_and_garbage_give_no_parts() {
    let field = b"--X\r\nContent-Disposition: form-data; name=\"note\"\r\n\r\nhi\r\n--X--\r\n";
    assert!(parse_multipart(field, "X").is_empty());
    assert!(parse_multipart(b"no boundary here", "X").is_empty());
    assert!(parse_multipart(b"--X\r\nno blank line", "X").is_empty());
}

#[test]
fn windows_paths_keep_the_last_component() {
    let h = "Content-Disposition: form-data; name=\"f\"; filename=\"C:\\Users\\me\\a.txt\"";
    assert_eq!(extract_filename(h), Some("a.txt".to_string()));
    let h2 = "X-Other: 1\r\ncontent-DISPOSITION: form-data; filename=\"dir/b.bin\"";
    assert_eq!(extract_filename(h2), Some("b.bin".to_string()));
    assert_eq!(extract_filename("Content-Type: text/plain"), None);
    assert_eq!(extract_filename("filename=\"x\""), None);
}

#[test]
fn boundary_is_read_from_content_type() {
    assert_eq!(boundary_of("multipart/form-data; boundary=abc"), Some("abc".to_string()));
    assert_eq!(boundary_of("multipart/form-data; boundary=\"q r\" "), Some("q r".to_string()));
    assert_eq!(boundary_of("text/plain; boundary=abc"), None);
    assert_eq!(boundary_of("multipart/form-data"), None);
    assert_eq!(upload_boundary(None).unwrap_err(), UploadError::MissingBoundary);
    assert_eq!(upload_boundary(Some("application/json")).unwrap_err(), UploadError::MissingBoundary);
}

#[test]
fn names_are_sanitized() {
    assert_eq!(sanitize_filename("report 1.txt"), "report 1.txt");
    assert_eq!(sanitize_filename("a/b:c*d"), "a_b_c_d");
    assert_eq!(sanitize_filename("café.txt"), "café.txt");
}

#[test]
fn unusable_names_are_skipped() {
    let b = body(&[("..", "x"), ("ok.txt", "y")], "B");
    let w = plan_upload(&dir(), "B", &b).unwrap();
    assert_eq!(w.len(), 1);
    assert_eq!(w[0].target.path(), "/srv/share/ok.txt");
}

#[test]
fn upload_without_files_is_refused() {
    let b = b"--B\r\nContent-Disposition: form-data; name=\"x\"\r\n\r\nv\r\n--B--\r\n";
    assert_eq!(plan_upload(&dir(), "B", b).unwrap_err(), UploadError::NoFiles);
}

#[test]
fn uploaded_name_is_listed() {
    let b = body(&[("report 1.txt", "data")], "B");
    let w = plan_upload(&dir(), "B", &b).unwrap();
    assert_eq!(w.len(), 1);
    let target = w[0].target.path();
    assert_eq!(target, "/srv/share/report 1.txt");
    let stored = target.rsplit('/').next().unwrap().to_string();
    let raw = vec![
        DirectoryEntry { name: ".hidden".to_string(), is_dir: false, size: 1, age: 1 },
        DirectoryEntry { name: stored, is_dir: false, size: 4, age: 0 },
    ];
    let listed = list_entries(raw);
    assert_eq!(listed.len(), 1);
    assert_eq!(listed[0].name, "report 1.txt");
}

#[test]
fn second_upload_replaces_the_first() {
    let mut store: HashMap<String, Vec<u8>> = HashMap::new();
    for payload in ["first", "second"] {
        let b = body(&[("same.txt", payload)], "B");
        for w in plan_upload(&dir(), "B", &b).unwrap() {
            store.insert(w.target.path(), w.data);
        }
    }
    assert_eq!(store.len(), 1);
    assert_eq!(store["/srv/share/same.txt"], b"second".to_vec());
}

#[test]
fn oversized_body_is_refused() {
    let big = vec![0u8; UPLOAD_LIMIT + 1];
    assert_eq!(plan_upload(&dir(), "B", &big).unwrap_err(), UploadError::TooLarge);
}

#[test]
fn filename_from_a_lowered_line() {
    let line = "Content-Disposition: form-data; filename=\"x/y.txt\"";
    assert_eq!(filename_from_lowered(line, &line.to_lowercase()), Some("y.txt".to_string()));
    assert_eq!(filename_from_lowered(line, "no header name here"), None);
    assert_eq!(filename_from_lowered("content-disposition: filename=\"open", "content-disposition: filename=\"open"), None);
}

#[test]
fn slashes_and_other_ascii_are_replaced() {
    assert_eq!(sanitize_filename("../../x"), ".._.._x");
    assert_eq!(sanitize_filename("a\\b?c"), "a_b_c");
}
