use leak::json::{extract_json_string, extract_json_string_array, is_local_ip, location_label};
use leak::router::{
    archive_response, auth_required_response, credential_matches, credential_token,
    download_selection, not_found_response, route, text_response, upload_error_response,
    upload_path_response, Route, ServerConfig,
};
use leak::sandbox::PathError;
use leak::upload::UploadError;
use leak::sandbox::SandboxedPath;

fn cfg(credential: Option<&str>) -> ServerConfig {
    ServerConfig {
        root: SandboxedPath::new_root("/srv/share".to_string()).unwrap(),
        credential: credential.map(|c| c.to_string()),
    }
}

#[test]
fn missing_credential_is_challenged() {
    let c = cfg(Some("YWRtaW46c2VjcmV0"));
    for (m, p) in [("GET", "/"), ("POST", "/a/__upload"), ("POST", "/__download")] {
        assert!(matches!(route(&c, m, p, None), Route::Unauthorized));
        assert!(matches!(route(&c, m, p, Some("Basic wrong")), Route::Unauthorized));
    }
    let r = auth_required_response();
    assert_eq!(r.status, 401);
    assert!(r.headers.iter().any(|(k, v)| k == "WWW-Authenticate" && v == "Basic realm=\"leak\""));
}

#[test]
fn right_credential_is_let_through() {
    let c = cfg(Some("YWRtaW46c2VjcmV0"));
    assert!(matches!(route(&c, "GET", "/x", Some("Basic YWRtaW46c2VjcmV0")), Route::Static));
    assert!(credential_matches(Some("Basic YWRtaW46c2VjcmV0"), "YWRtaW46c2VjcmV0"));
    assert!(!credential_matches(Some("Bearer YWRtaW46c2VjcmV0"), "YWRtaW46c2VjcmV0"));
}

#[test]
fn token_is_base64_of_user_and_password() {
    assert_eq!(credential_token("admin", "secret"), Some("YWRtaW46c2VjcmV0".to_string()));
    assert_eq!(credential_token("a", ""), Some("YTo=".to_string()));
}

#[test]
fn routes_by_method_and_suffix() {
    let c = cfg(None);
    match route(&c, "POST", "/docs/__upload", None) {
        Route::Upload { dir } => assert_eq!(dir, "/docs"),
        other => panic!("unexpected {:?}", other),
    }
    match route(&c, "POST", "/__upload", None) {
        Route::Upload { dir } => assert_eq!(dir, "/"),
        other => panic!("unexpected {:?}", other),
    }
    match route(&c, "POST", "/a/__upload/__upload", None) {
        Route::Upload { dir } => assert_eq!(dir, "/a"),
        other => panic!("unexpected {:?}", other),
    }
    assert!(matches!(route(&c, "POST", "/a/__download", None), Route::Download));
    assert!(matches!(route(&c, "GET", "/a/__upload", None), Route::Static));
    assert!(matches!(route(&c, "HEAD", "/", None), Route::Static));
}

#[test]
fn plain_replies() {
    let r = not_found_response("/nope");
    assert_eq!(r.status, 404);
    assert_eq!(r.body, b"404 Not Found: /nope".to_vec());
    let t = text_response(400, "No files specified");
    assert_eq!(t.status, 400);
    assert_eq!(t.headers[0], ("Content-Type".to_string(), "text/plain".to_string()));
    let z = archive_response(vec![1, 2]);
    assert_eq!(z.status, 200);
    assert_eq!(z.headers[1].1, "attachment; filename=\"leak-download.zip\"");
}

#[test]
fn download_file_list() {
    let sel = download_selection(br#"{"files": ["/a.txt", "/dir/" , ""]}"#).unwrap();
    assert_eq!(sel, vec!["/a.txt".to_string(), "/dir/".to_string()]);
    assert!(download_selection(br#"{"other": 1}"#).is_none());
    assert!(download_selection(br#"{"files": []}"#).is_none());
    assert!(download_selection(b"not json").is_none());
}

#[test]
fn json_fields() {
    let body = r#"{"city":"Lyon","country":"France","query":"1.2.3.4"}"#;
    assert_eq!(extract_json_string(body, "city"), Some("Lyon".to_string()));
    assert_eq!(extract_json_string(body, "zip"), None);
    assert_eq!(location_label(body), Some("Lyon, France".to_string()));
    assert_eq!(location_label(r#"{"city":"","country":"France"}"#), Some("France".to_string()));
    assert_eq!(location_label(r#"{"city":"","country":""}"#), None);
    assert_eq!(extract_json_string_array(r#"{"files":[ "a" ,"b"]}"#, "files"), vec!["a", "b"]);
    assert!(extract_json_string_array(r#"{"files":["a""#, "files").is_empty());
}

#[test]
fn local_addresses() {
    assert!(is_local_ip("127.0.0.1"));
    assert!(is_local_ip("192.168.1.9"));
    assert!(is_local_ip("::1"));
    assert!(is_local_ip("fe80::1"));
    assert!(!is_local_ip("8.8.8.8"));
}

#[test]
fn upload_refusals_say_why() {
    let r = upload_error_response(UploadError::TooLarge);
    assert_eq!((r.status, r.body), (413, b"500MB max".to_vec()));
    let r = upload_error_response(UploadError::MissingBoundary);
    assert_eq!((r.status, r.body), (400, b"Missing boundary".to_vec()));
    let r = upload_error_response(UploadError::NoFiles);
    assert_eq!((r.status, r.body), (400, b"No file in upload".to_vec()));
    let r = upload_path_response(PathError::PathEscape);
    assert_eq!((r.status, r.body), (400, b"Invalid path".to_vec()));
}
