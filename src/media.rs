//! File extensions, the media types files are served with, and the icons a
//! listing shows for them.

use vstd::prelude::*;
use crate::archive::last_component;
use crate::router::same_chars;
use crate::text::{chars_of, copy_chars};

verus! {

/// The index of the last `.` in `f`.
pub open spec fn last_dot(f: Seq<char>) -> Option<int>
    decreases f.len(),
{
    if f.len() == 0 {
        None
    } else if f.last() == '.' {
        Some(f.len() - 1)
    } else {
        last_dot(f.drop_last())
    }
}

/// The extension of a path (as `Path::extension` gives it): what follows the
/// last dot of the final component, where that dot is not its first
/// character; none for `..`.
pub open spec fn extension_of(path: Seq<char>) -> Option<Seq<char>> {
    let f = last_component(path);
    if f == seq!['.', '.'] {
        None
    } else {
        match last_dot(f) {
            None => None,
            Some(k) => if k == 0 {
                None
            } else {
                Some(f.skip(k + 1))
            },
        }
    }
}

proof fn lemma_last_dot_bounds(f: Seq<char>)
    ensures
        last_dot(f) matches Some(k) ==> 0 <= k < f.len() && f[k] == '.' && forall|j: int|
            k < j < f.len() ==> f[j] != '.',
        last_dot(f) is None ==> forall|j: int| 0 <= j < f.len() ==> f[j] != '.',
    decreases f.len(),
{
    if f.len() > 0 && f.last() != '.' {
        lemma_last_dot_bounds(f.drop_last());
        assert(forall|j: int| 0 <= j < f.len() - 1 ==> f.drop_last()[j] == f[j]);
    }
}

/// The extension of `path`, as `extension_of` states.
pub fn extension(path: &str) -> (r: Option<Vec<char>>)
    ensures
        match extension_of(path@) {
            None => r is None,
            Some(e) => r matches Some(v) && v@ == e,
        },
{
    let p = chars_of(path);
    let n = p.len();
    let mut j = n;
    assert(p@.take(n as int) =~= p@);
    assert(p@.subrange(n as int, n as int) =~= Seq::<char>::empty());
    while j > 0 && p[j - 1] != '/'
        invariant
            j <= n == p@.len(),
            last_component(p@) == last_component(p@.take(j as int)) + p@.subrange(j as int, n as int),
        decreases j,
    {
        assert(p@.take(j as int).drop_last() =~= p@.take(j - 1));
        assert(p@.subrange(j - 1, n as int) =~= seq![p@[j - 1]] + p@.subrange(j as int, n as int));
        j = j - 1;
    }
    let f = copy_chars(&p, j, n);
    assert(f@ == last_component(p@));
    let fl = f.len();
    if fl == 2 && f[0] == '.' && f[1] == '.' {
        assert(f@ =~= seq!['.', '.']);
        return None;
    }
    proof {
        if fl == 2 {
            assert(f@ != seq!['.', '.']) by {
                if f@[0] == '.' {
                    assert(f@[1] != seq!['.', '.'][1]);
                } else {
                    assert(f@[0] != seq!['.', '.'][0]);
                }
            }
        }
        lemma_last_dot_bounds(f@);
    }
    let mut k = fl;
    while k > 0 && f[k - 1] != '.'
        invariant
            k <= fl == f@.len(),
            forall|m: int| k <= m < fl ==> f@[m] != '.',
        decreases k,
    {
        k = k - 1;
    }
    if k == 0 {
        return None;
    }
    let dot = k - 1;
    assert(last_dot(f@) == Some(dot as int)) by {
        lemma_last_dot_bounds(f@);
        match last_dot(f@) {
            Some(d) => {
                if d < dot {
                    assert(f@[dot as int] == '.');
                }
            },
            None => {
                assert(f@[dot as int] == '.');
            },
        }
    }
    if dot == 0 {
        return None;
    }
    let e = copy_chars(&f, dot + 1, fl);
    assert(e@ =~= f@.skip(dot + 1));
    Some(e)
}

fn is_ext(e: &Vec<char>, lit: &str) -> (r: bool)
    ensures
        r == (e@ == lit@),
{
    same_chars(e, &chars_of(lit))
}

/// The media type that a file is served with, chosen by its extension.
pub open spec fn content_type_for(ext: Option<Seq<char>>) -> Seq<char> {
    match ext {
        None => "application/octet-stream"@,
        Some(e) => if e == "html"@ || e == "htm"@ {
            "text/html; charset=utf-8"@
        } else if e == "css"@ {
            "text/css; charset=utf-8"@
        } else if e == "js"@ || e == "mjs"@ {
            "application/javascript; charset=utf-8"@
        } else if e == "json"@ {
            "application/json; charset=utf-8"@
        } else if e == "png"@ {
            "image/png"@
        } else if e == "jpg"@ || e == "jpeg"@ {
            "image/jpeg"@
        } else if e == "gif"@ {
            "image/gif"@
        } else if e == "svg"@ {
            "image/svg+xml"@
        } else if e == "ico"@ {
            "image/x-icon"@
        } else if e == "woff"@ {
            "font/woff"@
        } else if e == "woff2"@ {
            "font/woff2"@
        } else if e == "ttf"@ {
            "font/ttf"@
        } else if e == "pdf"@ {
            "application/pdf"@
        } else if e == "wasm"@ {
            "application/wasm"@
        } else if e == "xml"@ {
            "application/xml; charset=utf-8"@
        } else if e == "txt"@ || e == "md"@ {
            "text/plain; charset=utf-8"@
        } else if e == "mp4"@ {
            "video/mp4"@
        } else if e == "webm"@ {
            "video/webm"@
        } else if e == "mp3"@ {
            "audio/mpeg"@
        } else if e == "ogg"@ {
            "audio/ogg"@
        } else if e == "webp"@ {
            "image/webp"@
        } else {
            "application/octet-stream"@
        },
    }
}

/// The media type for the file at `path`.
pub fn content_type(path: &str) -> (r: &'static str)
    ensures
        r@ == content_type_for(extension_of(path@)),
{
    let e = match extension(path) {
        None => return "application/octet-stream",
        Some(e) => e,
    };
    if is_ext(&e, "html") || is_ext(&e, "htm") {
        "text/html; charset=utf-8"
    } else if is_ext(&e, "css") {
        "text/css; charset=utf-8"
    } else if is_ext(&e, "js") || is_ext(&e, "mjs") {
        "application/javascript; charset=utf-8"
    } else if is_ext(&e, "json") {
        "application/json; charset=utf-8"
    } else if is_ext(&e, "png") {
        "image/png"
    } else if is_ext(&e, "jpg") || is_ext(&e, "jpeg") {
        "image/jpeg"
    } else if is_ext(&e, "gif") {
        "image/gif"
    } else if is_ext(&e, "svg") {
        "image/svg+xml"
    } else if is_ext(&e, "ico") {
        "image/x-icon"
    } else if is_ext(&e, "woff") {
        "font/woff"
    } else if is_ext(&e, "woff2") {
        "font/woff2"
    } else if is_ext(&e, "ttf") {
        "font/ttf"
    } else if is_ext(&e, "pdf") {
        "application/pdf"
    } else if is_ext(&e, "wasm") {
        "application/wasm"
    } else if is_ext(&e, "xml") {
        "application/xml; charset=utf-8"
    } else if is_ext(&e, "txt") || is_ext(&e, "md") {
        "text/plain; charset=utf-8"
    } else if is_ext(&e, "mp4") {
        "video/mp4"
    } else if is_ext(&e, "webm") {
        "video/webm"
    } else if is_ext(&e, "mp3") {
        "audio/mpeg"
    } else if is_ext(&e, "ogg") {
        "audio/ogg"
    } else if is_ext(&e, "webp") {
        "image/webp"
    } else {
        "application/octet-stream"
    }
}

/// The icon a listing shows for an entry.
pub open spec fn icon_for(ext: Option<Seq<char>>, is_dir: bool) -> Seq<char> {
    if is_dir {
        "📁"@
    } else {
        match ext {
            None => "📄"@,
            Some(e) => if e == "html"@ || e == "htm"@ {
                "🌐"@
            } else if e == "css"@ {
                "🎨"@
            } else if e == "js"@ || e == "mjs"@ || e == "ts"@ {
                "⚡"@
            } else if e == "json"@ || e == "toml"@ || e == "yaml"@ || e == "yml"@ {
                "⚙️"@
            } else if e == "png"@ || e == "jpg"@ || e == "jpeg"@ || e == "gif"@ || e == "svg"@
                || e == "webp"@ || e == "ico"@ {
                "🖼️"@
            } else if e == "mp4"@ || e == "webm"@ || e == "mov"@ || e == "avi"@ {
                "🎬"@
            } else if e == "mp3"@ || e == "ogg"@ || e == "wav"@ || e == "flac"@ {
                "🎵"@
            } else if e == "pdf"@ {
                "📕"@
            } else if e == "zip"@ || e == "tar"@ || e == "gz"@ || e == "bz2"@ || e == "xz"@ || e
                == "7z"@ || e == "rar"@ {
                "📦"@
            } else if e == "rs"@ {
                "🦀"@
            } else if e == "py"@ {
                "🐍"@
            } else if e == "go"@ {
                "🐹"@
            } else if e == "rb"@ {
                "💎"@
            } else if e == "sh"@ || e == "bash"@ || e == "zsh"@ {
                "🐚"@
            } else if e == "md"@ || e == "txt"@ || e == "log"@ {
                "📄"@
            } else if e == "lock"@ {
                "🔒"@
            } else if e == "doc"@ || e == "docx"@ {
                "📝"@
            } else if e == "xls"@ || e == "xlsx"@ || e == "csv"@ {
                "📊"@
            } else if e == "c"@ || e == "cpp"@ || e == "h"@ || e == "hpp"@ {
                "⚙️"@
            } else if e == "java"@ || e == "jar"@ {
                "☕"@
            } else if e == "sql"@ || e == "db"@ || e == "sqlite"@ {
                "🗄️"@
            } else {
                "📄"@
            },
        }
    }
}

/// The icon for an entry named `name`.
pub fn file_icon(name: &str, is_dir: bool) -> (r: &'static str)
    ensures
        r@ == icon_for(extension_of(name@), is_dir),
{
    if is_dir {
        return "📁";
    }
    let e = match extension(name) {
        None => return "📄",
        Some(e) => e,
    };
    if is_ext(&e, "html") || is_ext(&e, "htm") {
        "🌐"
    } else if is_ext(&e, "css") {
        "🎨"
    } else if is_ext(&e, "js") || is_ext(&e, "mjs") || is_ext(&e, "ts") {
        "⚡"
    } else if is_ext(&e, "json") || is_ext(&e, "toml") || is_ext(&e, "yaml") || is_ext(&e, "yml") {
        "⚙️"
    } else if is_ext(&e, "png") || is_ext(&e, "jpg") || is_ext(&e, "jpeg") || is_ext(&e, "gif")
        || is_ext(&e, "svg") || is_ext(&e, "webp") || is_ext(&e, "ico") {
        "🖼️"
    } else if is_ext(&e, "mp4") || is_ext(&e, "webm") || is_ext(&e, "mov") || is_ext(&e, "avi") {
        "🎬"
    } else if is_ext(&e, "mp3") || is_ext(&e, "ogg") || is_ext(&e, "wav") || is_ext(&e, "flac") {
        "🎵"
    } else if is_ext(&e, "pdf") {
        "📕"
    } else if is_ext(&e, "zip") || is_ext(&e, "tar") || is_ext(&e, "gz") || is_ext(&e, "bz2")
        || is_ext(&e, "xz") || is_ext(&e, "7z") || is_ext(&e, "rar") {
        "📦"
    } else if is_ext(&e, "rs") {
        "🦀"
    } else if is_ext(&e, "py") {
        "🐍"
    } else if is_ext(&e, "go") {
        "🐹"
    } else if is_ext(&e, "rb") {
        "💎"
    } else if is_ext(&e, "sh") || is_ext(&e, "bash") || is_ext(&e, "zsh") {
        "🐚"
    } else if is_ext(&e, "md") || is_ext(&e, "txt") || is_ext(&e, "log") {
        "📄"
    } else if is_ext(&e, "lock") {
        "🔒"
    } else if is_ext(&e, "doc") || is_ext(&e, "docx") {
        "📝"
    } else if is_ext(&e, "xls") || is_ext(&e, "xlsx") || is_ext(&e, "csv") {
        "📊"
    } else if is_ext(&e, "c") || is_ext(&e, "cpp") || is_ext(&e, "h") || is_ext(&e, "hpp") {
        "⚙️"
    } else if is_ext(&e, "java") || is_ext(&e, "jar") {
        "☕"
    } else if is_ext(&e, "sql") || is_ext(&e, "db") || is_ext(&e, "sqlite") {
        "🗄️"
    } else {
        "📄"
    }
}

} // verus!
