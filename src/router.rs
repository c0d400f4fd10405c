//! Request routing: the credential gate, the choice of handler, and the
//! plain responses that the handlers give.

use vstd::prelude::*;
use vstd::utf8::encode_utf8;
use crate::sandbox::{PathError, SandboxedPath};
use crate::text::{chars_of, chars_end_with, chars_start_with, copy_bytes, copy_chars, ends_with, starts_with, string_of};
use crate::upload::UploadError;
use crate::json::{extract_json_string_array, json_string_array};
use crate::text::{lossy_of, lossy_utf8};

verus! {

/// What the base64 crate's standard engine (with padding) gives for `b`.
pub uninterp spec fn base64_of(b: Seq<u8>) -> Seq<char>;

/// Relies on `base64::Engine::encode` with `general_purpose::STANDARD`:
/// standard alphabet with padding. It panics where the encoded length does
/// not fit in `usize`, which the bound on `b` rules out.
#[verifier::external_body]
fn base64_encode(b: &[u8]) -> (r: String)
    requires
        b@.len() <= usize::MAX / 2,
    ensures
        r@ == base64_of(b@),
{
    base64::Engine::encode(&base64::engine::general_purpose::STANDARD, b)
}

/// The text `user:pass` that a credential is made of.
pub open spec fn credential_text(user: Seq<char>, pass: Seq<char>) -> Seq<char> {
    user + seq![':'] + pass
}

/// The token that clients present for `user` and `pass`: the base64 form of
/// `user:pass`. `None` only for a pair too long to encode.
pub fn credential_token(user: &str, pass: &str) -> (r: Option<String>)
    ensures
        r is Some <==> encode_utf8(credential_text(user@, pass@)).len() <= usize::MAX / 2,
        r matches Some(t) ==> t@ == base64_of(encode_utf8(credential_text(user@, pass@))),
{
    let mut cs = chars_of(user);
    cs.push(':');
    let mut p = chars_of(pass);
    cs.append(&mut p);
    assert(cs@ =~= credential_text(user@, pass@));
    let text = string_of(&cs);
    let bytes = text.as_str().as_bytes();
    assert(bytes@ == encode_utf8(credential_text(user@, pass@)));
    if bytes.len() > usize::MAX / 2 {
        return None;
    }
    Some(base64_encode(bytes))
}

/// An `Authorization` header value that presents `expected` as a basic
/// credential.
pub open spec fn authorized(header: Option<Seq<char>>, expected: Seq<char>) -> bool {
    match header {
        None => false,
        Some(v) => starts_with(v, "Basic "@) && v.skip("Basic "@.len() as int) == expected,
    }
}

/// Whether the `Authorization` header (`None` where it is absent or not
/// visible ASCII) presents the expected token.
pub fn credential_matches(header: Option<&str>, expected: &str) -> (r: bool)
    ensures
        r == authorized(
            match header {
                None => None,
                Some(h) => Some(h@),
            },
            expected@,
        ),
{
    match header {
        None => false,
        Some(h) => {
            let v = chars_of(h);
            let prefix = chars_of("Basic ");
            if !chars_start_with(&v, &prefix) {
                return false;
            }
            let rest = copy_chars(&v, prefix.len(), v.len());
            assert(rest@ =~= v@.skip(prefix@.len() as int));
            let e = chars_of(expected);
            same_chars(&rest, &e)
        },
    }
}

/// Whether two character sequences are equal.
pub fn same_chars(a: &[char], b: &[char]) -> (r: bool)
    ensures
        r == (a@ == b@),
{
    if a.len() != b.len() {
        assert(a@.len() != b@.len());
        return false;
    }
    let mut i: usize = 0;
    while i < a.len()
        invariant
            a@.len() == b@.len(),
            i <= a@.len(),
            forall|k: int| 0 <= k < i ==> a@[k] == b@[k],
        decreases a@.len() - i,
    {
        if a[i] != b[i] {
            assert(a@[i as int] != b@[i as int]);
            return false;
        }
        i = i + 1;
    }
    assert(a@ =~= b@);
    true
}

/// A response as the handlers hand it to the transport.
#[derive(Debug)]
pub struct Reply {
    pub status: u16,
    pub headers: Vec<(String, String)>,
    pub body: Vec<u8>,
}

/// The headers of a reply as plain values.
pub open spec fn headers_view(r: Reply) -> Seq<(Seq<char>, Seq<char>)> {
    r.headers@.map_values(|h: (String, String)| (h.0@, h.1@))
}

/// The UTF-8 bytes of `s`.
pub fn text_bytes(s: &str) -> (r: Vec<u8>)
    ensures
        r@ == encode_utf8(s@),
{
    let b = s.as_bytes();
    let r = copy_bytes(b, 0, b.len());
    assert(r@ =~= b@);
    r
}

fn header(name: &str, value: &str) -> (r: (String, String))
    ensures
        r.0@ == name@,
        r.1@ == value@,
{
    (string_of(&chars_of(name)), string_of(&chars_of(value)))
}

/// A reply with the given status, body and content type, open to any origin.
pub fn http_response(status: u16, body: Vec<u8>, ctype: &str) -> (r: Reply)
    ensures
        r.status == status,
        r.body@ == body@,
        headers_view(r) == seq![
            ("Content-Type"@, ctype@),
            ("Access-Control-Allow-Origin"@, "*"@),
        ],
{
    let mut headers: Vec<(String, String)> = Vec::new();
    headers.push(header("Content-Type", ctype));
    headers.push(header("Access-Control-Allow-Origin", "*"));
    let r = Reply { status, headers, body };
    assert(headers_view(r) =~= seq![
        ("Content-Type"@, ctype@),
        ("Access-Control-Allow-Origin"@, "*"@),
    ]);
    r
}

/// A plain-text reply.
pub fn text_response(status: u16, text: &str) -> (r: Reply)
    ensures
        r.status == status,
        r.body@ == encode_utf8(text@),
        headers_view(r) == seq![
            ("Content-Type"@, "text/plain"@),
            ("Access-Control-Allow-Origin"@, "*"@),
        ],
{
    http_response(status, text_bytes(text), "text/plain")
}

/// The challenge sent when a credential is required and was not presented.
pub fn auth_required_response() -> (r: Reply)
    ensures
        r.status == 401,
        headers_view(r) == seq![
            ("WWW-Authenticate"@, "Basic realm=\"leak\""@),
            ("Content-Type"@, "text/plain"@),
        ],
        r.body@ == encode_utf8("Authentication required"@),
{
    let mut headers: Vec<(String, String)> = Vec::new();
    headers.push(header("WWW-Authenticate", "Basic realm=\"leak\""));
    headers.push(header("Content-Type", "text/plain"));
    let r = Reply { status: 401, headers, body: text_bytes("Authentication required") };
    assert(headers_view(r) =~= seq![
        ("WWW-Authenticate"@, "Basic realm=\"leak\""@),
        ("Content-Type"@, "text/plain"@),
    ]);
    r
}

/// The 404 reply for a path that could not be served; it echoes the path.
pub fn not_found_response(uri_path: &str) -> (r: Reply)
    ensures
        r.status == 404,
        r.body@ == encode_utf8("404 Not Found: "@ + uri_path@),
{
    let mut cs = chars_of("404 Not Found: ");
    let mut p = chars_of(uri_path);
    cs.append(&mut p);
    let text = string_of(&cs);
    http_response(404, text_bytes(text.as_str()), "text/plain; charset=utf-8")
}

/// The status and text that an upload refusal is answered with.
pub fn upload_error_response(e: UploadError) -> (r: Reply)
    ensures
        r.status == match e {
            UploadError::MissingBoundary => 400u16,
            UploadError::TooLarge => 413u16,
            UploadError::NoFiles => 400u16,
        },
        r.body@ == encode_utf8(
            match e {
                UploadError::MissingBoundary => "Missing boundary"@,
                UploadError::TooLarge => "500MB max"@,
                UploadError::NoFiles => "No file in upload"@,
            },
        ),
        headers_view(r) == seq![
            ("Content-Type"@, "text/plain"@),
            ("Access-Control-Allow-Origin"@, "*"@),
        ],
{
    match e {
        UploadError::MissingBoundary => text_response(400, "Missing boundary"),
        UploadError::TooLarge => text_response(413, "500MB max"),
        UploadError::NoFiles => text_response(400, "No file in upload"),
    }
}

/// The reply for an upload whose target directory did not resolve.
pub fn upload_path_response(e: PathError) -> (r: Reply)
    ensures
        r.status == 400,
        r.body@ == encode_utf8("Invalid path"@),
        headers_view(r) == seq![
            ("Content-Type"@, "text/plain"@),
            ("Access-Control-Allow-Origin"@, "*"@),
        ],
{
    match e {
        PathError::PathEscape => text_response(400, "Invalid path"),
        PathError::NotFound => text_response(400, "Invalid path"),
    }
}

/// The paths a download request selects: the `files` array of its body
/// (read as UTF-8, invalid sequences replaced). `None` where there are none.
pub fn download_selection(body: &[u8]) -> (r: Option<Vec<String>>)
    ensures
        json_string_array(lossy_of(body@), "files"@).len() == 0 ==> r is None,
        json_string_array(lossy_of(body@), "files"@).len() > 0 ==> (r matches Some(v) && v@.len()
            == json_string_array(lossy_of(body@), "files"@).len() && forall|k: int|
            0 <= k < v@.len() ==> #[trigger] v@[k]@ == json_string_array(lossy_of(body@), "files"@)[k]),
{
    let text = string_of(&lossy_utf8(body));
    let paths = extract_json_string_array(text.as_str(), "files");
    if paths.len() == 0 {
        None
    } else {
        Some(paths)
    }
}

/// The reply that carries a finished archive as a download.
pub fn archive_response(data: Vec<u8>) -> (r: Reply)
    ensures
        r.status == 200,
        r.body@ == data@,
        headers_view(r) == seq![
            ("Content-Type"@, "application/zip"@),
            ("Content-Disposition"@, "attachment; filename=\"leak-download.zip\""@),
            ("Access-Control-Allow-Origin"@, "*"@),
        ],
{
    let mut headers: Vec<(String, String)> = Vec::new();
    headers.push(header("Content-Type", "application/zip"));
    headers.push(header("Content-Disposition", "attachment; filename=\"leak-download.zip\""));
    headers.push(header("Access-Control-Allow-Origin", "*"));
    let r = Reply { status: 200, headers, body: data };
    assert(headers_view(r) =~= seq![
        ("Content-Type"@, "application/zip"@),
        ("Content-Disposition"@, "attachment; filename=\"leak-download.zip\""@),
        ("Access-Control-Allow-Origin"@, "*"@),
    ]);
    r
}

/// Immutable settings shared by every connection.
#[derive(Debug)]
pub struct ServerConfig {
    /// The directory that is served; nothing outside it is touched.
    pub root: SandboxedPath,
    /// The token every request must present, if any.
    pub credential: Option<String>,
}

/// Which handler a request goes to.
#[derive(Clone, Debug)]
pub enum Route {
    /// No valid credential was presented: answer with the challenge.
    Unauthorized,
    /// An upload into the directory at this request path.
    Upload { dir: String },
    /// A bundle of selected paths as one archive.
    Download,
    /// A file or directory listing at the request path.
    Static,
}

/// The kind of a route, without its data.
#[derive(Clone, Copy, Debug, PartialEq, Eq, Structural)]
pub enum RouteKind {
    Unauthorized,
    Upload,
    Download,
    Static,
}

/// The kind of `r`.
pub open spec fn kind_of(r: Route) -> RouteKind {
    match r {
        Route::Unauthorized => RouteKind::Unauthorized,
        Route::Upload { .. } => RouteKind::Upload,
        Route::Download => RouteKind::Download,
        Route::Static => RouteKind::Static,
    }
}

/// Where a request goes. The credential is checked before anything else;
/// then uploads and downloads are told apart by method and path suffix, and
/// everything else is a static request.
pub open spec fn route_kind(
    credential: Option<Seq<char>>,
    method: Seq<char>,
    path: Seq<char>,
    authorization: Option<Seq<char>>,
) -> RouteKind {
    if credential matches Some(c) && !authorized(authorization, c) {
        RouteKind::Unauthorized
    } else if method == "POST"@ && ends_with(path, "/__upload"@) {
        RouteKind::Upload
    } else if method == "POST"@ && ends_with(path, "/__download"@) {
        RouteKind::Download
    } else {
        RouteKind::Static
    }
}

/// `s` with every trailing repetition of `suffix` removed.
pub open spec fn trim_suffixes(s: Seq<char>, suffix: Seq<char>) -> Seq<char>
    decreases s.len(),
{
    if suffix.len() > 0 && ends_with(s, suffix) {
        trim_suffixes(s.take(s.len() - suffix.len()), suffix)
    } else {
        s
    }
}

/// The directory an upload path names: the path without its upload
/// suffixes, or `/` where nothing is left.
pub open spec fn upload_dir(path: Seq<char>) -> Seq<char> {
    let d = trim_suffixes(path, "/__upload"@);
    if d.len() == 0 {
        seq!['/']
    } else {
        d
    }
}

fn opt_view(o: Option<&str>) -> (r: Ghost<Option<Seq<char>>>)
    ensures
        r@ == match o {
            None => None,
            Some(h) => Some(h@),
        },
{
    Ghost(
        match o {
            None => None,
            Some(h) => Some(h@),
        },
    )
}

/// Routes a request by its method, path and `Authorization` header.
pub fn route(cfg: &ServerConfig, method: &str, path: &str, authorization: Option<&str>) -> (r: Route)
    ensures
        kind_of(r) == route_kind(
            match cfg.credential {
                None => None,
                Some(c) => Some(c@),
            },
            method@,
            path@,
            match authorization {
                None => None,
                Some(h) => Some(h@),
            },
        ),
        r matches Route::Upload { dir } ==> dir@ == upload_dir(path@),
{
    if let Some(expected) = &cfg.credential {
        if !credential_matches(authorization, expected.as_str()) {
            return Route::Unauthorized;
        }
    }
    let m = chars_of(method);
    let p = chars_of(path);
    let post = same_chars(&m, &chars_of("POST"));
    let up = chars_of("/__upload");
    if post && chars_end_with(&p, &up) {
        let mut end = p.len();
        assert(p@.take(end as int) =~= p@);
        while end >= up.len() && chars_end_with(&copy_chars(&p, 0, end), &up)
            invariant
                end <= p@.len(),
                up@ == "/__upload"@,
                trim_suffixes(p@, up@) == trim_suffixes(p@.take(end as int), up@),
            decreases end,
        {
            proof {
                reveal_strlit("/__upload");
            }
            assert(p@.take(end as int).take(end - up@.len()) =~= p@.take(end - up@.len()));
            end = end - up.len();
        }
        proof {
            reveal_strlit("/__upload");
        }
        let dir = if end == 0 {
            let mut slash: Vec<char> = Vec::new();
            slash.push('/');
            string_of(&slash)
        } else {
            string_of(&copy_chars(&p, 0, end))
        };
        assert(dir@ =~= upload_dir(p@));
        return Route::Upload { dir };
    }
    if post && chars_end_with(&p, &chars_of("/__download")) {
        return Route::Download;
    }
    Route::Static
}

/// When a credential is configured, a request that presents none is
/// answered with the challenge, whatever its method and path: no handler
/// runs, so nothing is resolved, written or archived.
pub proof fn lemma_no_credential_no_access(c: Seq<char>, method: Seq<char>, path: Seq<char>)
    ensures
        route_kind(Some(c), method, path, None) == RouteKind::Unauthorized,
{
}

/// The same holds of a request that presents a wrong credential.
pub proof fn lemma_wrong_credential_no_access(
    c: Seq<char>,
    method: Seq<char>,
    path: Seq<char>,
    header: Seq<char>,
)
    requires
        header != "Basic "@ + c,
    ensures
        route_kind(Some(c), method, path, Some(header)) == RouteKind::Unauthorized,
{
    if starts_with(header, "Basic "@) && header.skip("Basic "@.len() as int) == c {
        assert(header =~= "Basic "@ + c);
    }
}

} // verus!
