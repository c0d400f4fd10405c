//! What an upload writes: file names made safe, and one write per part into
//! the target directory.

use vstd::prelude::*;
use crate::multipart::{UploadedPart, boundary_of, boundary_spec, multipart_parts, parse_multipart, part_view};
use crate::sandbox::{SandboxedPath, is_component};
use crate::text::{chars_of, copy_bytes, string_of};

verus! {

/// The largest request body an upload accepts: 500 MiB.
pub const UPLOAD_LIMIT: usize = 500 * 1024 * 1024;

/// Why an upload request was refused.
#[derive(Clone, Copy, Debug, PartialEq, Eq, Structural)]
pub enum UploadError {
    /// The content type is not multipart, or names no boundary.
    MissingBoundary,
    /// The body is larger than `UPLOAD_LIMIT`.
    TooLarge,
    /// The body holds no file part.
    NoFiles,
}

/// What `char::is_alphanumeric` gives for `c`.
pub uninterp spec fn alphanumeric(c: char) -> bool;

/// Relies on `char::is_alphanumeric`: whether `c` is Unicode alphabetic or
/// numeric. Only asked of characters outside ASCII.
#[verifier::external_body]
fn is_alphanumeric(c: char) -> (r: bool)
    ensures
        r == alphanumeric(c),
{
    c.is_alphanumeric()
}

/// An ASCII character that may stay in a stored file name: a letter, a
/// digit, `.`, `-`, `_` or a space.
pub open spec fn is_safe_ascii(u: u32) -> bool {
    (0x30 <= u <= 0x39) || (0x41 <= u <= 0x5A) || (0x61 <= u <= 0x7A) || u == 0x2E || u == 0x2D
        || u == 0x5F || u == 0x20
}

/// A character that may stay in a stored file name: a safe ASCII character,
/// or a letter or digit outside ASCII.
pub open spec fn is_safe_char(c: char) -> bool {
    if (c as u32) < 128 {
        is_safe_ascii(c as u32)
    } else {
        alphanumeric(c)
    }
}

/// A file name with every character outside the safe class replaced by `_`.
pub open spec fn sanitized(n: Seq<char>) -> Seq<char> {
    Seq::new(n.len(), |i: int| if is_safe_char(n[i]) { n[i] } else { '_' })
}

/// Replaces every character outside letters, digits, `.`, `-`, `_` and space
/// with `_`.
pub fn sanitize_filename(name: &str) -> (r: String)
    ensures
        r@ == sanitized(name@),
{
    let cs = chars_of(name);
    let mut out: Vec<char> = Vec::new();
    let mut i: usize = 0;
    while i < cs.len()
        invariant
            i <= cs@.len(),
            out@ == sanitized(cs@).take(i as int),
        decreases cs@.len() - i,
    {
        let c = cs[i];
        let u = c as u32;
        let keep = if u < 128 {
            (0x30 <= u && u <= 0x39) || (0x41 <= u && u <= 0x5A) || (0x61 <= u && u <= 0x7A) || u
                == 0x2E || u == 0x2D || u == 0x5F || u == 0x20
        } else {
            is_alphanumeric(c)
        };
        out.push(if keep { c } else { '_' });
        assert(sanitized(cs@).take(i + 1) =~= sanitized(cs@).take(i as int).push(
            sanitized(cs@)[i as int],
        ));
        i = i + 1;
    }
    assert(sanitized(cs@).take(i as int) =~= sanitized(cs@));
    string_of(&out)
}

/// One file to write: where, and what.
#[derive(Debug)]
pub struct FileWrite {
    pub target: SandboxedPath,
    pub data: Vec<u8>,
}

/// A write as plain values: target location and bytes.
pub open spec fn write_view(w: FileWrite) -> (Seq<char>, Seq<u8>) {
    (w.target.path_view(), w.data@)
}

/// The writes that the parts `parts` make in directory `dir`: each part is
/// stored under its sanitized name, and a part whose sanitized name is empty,
/// `.` or `..` is skipped.
pub open spec fn upload_writes(dir: Seq<char>, parts: Seq<(Seq<char>, Seq<u8>)>) -> Seq<
    (Seq<char>, Seq<u8>),
>
    decreases parts.len(),
{
    if parts.len() == 0 {
        seq![]
    } else {
        let prev = upload_writes(dir, parts.drop_last());
        let s = sanitized(parts.last().0);
        if is_component(s) {
            prev.push((dir + seq!['/'] + s, parts.last().1))
        } else {
            prev
        }
    }
}

/// The writes for `parts` in directory `dir`, in order.
pub fn plan_writes(dir: &SandboxedPath, parts: &Vec<UploadedPart>) -> (r: Vec<FileWrite>)
    ensures
        r@.len() == upload_writes(dir.path_view(), parts@.map_values(|p: UploadedPart| part_view(p))).len(),
        forall|k: int|
            0 <= k < r@.len() ==> write_view(#[trigger] r@[k]) == upload_writes(
                dir.path_view(),
                parts@.map_values(|p: UploadedPart| part_view(p)),
            )[k] && r@[k].target.root_view() == dir.root_view(),
{
    let ghost pv = parts@.map_values(|p: UploadedPart| part_view(p));
    let mut out: Vec<FileWrite> = Vec::new();
    let mut i: usize = 0;
    while i < parts.len()
        invariant
            i <= parts@.len(),
            pv == parts@.map_values(|p: UploadedPart| part_view(p)),
            out@.len() == upload_writes(dir.path_view(), pv.take(i as int)).len(),
            forall|k: int|
                0 <= k < out@.len() ==> write_view(#[trigger] out@[k]) == upload_writes(
                    dir.path_view(),
                    pv.take(i as int),
                )[k] && out@[k].target.root_view() == dir.root_view(),
        decreases parts@.len() - i,
    {
        assert(pv.take(i + 1).drop_last() =~= pv.take(i as int));
        let safe = sanitize_filename(parts[i].filename.as_str());
        match dir.child(safe.as_str()) {
            Some(target) => {
                let data = copy_bytes(parts[i].data.as_slice(), 0, parts[i].data.len());
                assert(data@ =~= parts@[i as int].data@);
                out.push(FileWrite { target, data });
            },
            None => {},
        }
        i = i + 1;
    }
    assert(pv.take(i as int) =~= pv);
    out
}

/// The boundary that an upload's content type names, or `MissingBoundary`.
pub fn upload_boundary(content_type: Option<&str>) -> (r: Result<String, UploadError>)
    ensures
        match content_type {
            None => r == Err::<String, UploadError>(UploadError::MissingBoundary),
            Some(ct) => match boundary_spec(ct@) {
                None => r == Err::<String, UploadError>(UploadError::MissingBoundary),
                Some(b) => r matches Ok(s) && s@ == b,
            },
        },
{
    match content_type {
        None => Err(UploadError::MissingBoundary),
        Some(ct) => match boundary_of(ct) {
            None => Err(UploadError::MissingBoundary),
            Some(b) => Ok(b),
        },
    }
}

/// The writes that an upload body makes in directory `dir`: refused when the
/// body exceeds `UPLOAD_LIMIT` or holds no file part; otherwise one write
/// per part whose sanitized name is usable.
pub fn plan_upload(dir: &SandboxedPath, boundary: &str, body: &[u8]) -> (r: Result<
    Vec<FileWrite>,
    UploadError,
>)
    ensures
        body@.len() > UPLOAD_LIMIT ==> r matches Err(UploadError::TooLarge),
        body@.len() <= UPLOAD_LIMIT && multipart_parts(body@, boundary@).len() == 0 ==> r matches Err(
            UploadError::NoFiles,
        ),
        body@.len() <= UPLOAD_LIMIT && multipart_parts(body@, boundary@).len() > 0 ==> (r matches Ok(
            w,
        ) && w@.len() == upload_writes(dir.path_view(), multipart_parts(body@, boundary@)).len()
            && forall|k: int|
            0 <= k < w@.len() ==> write_view(#[trigger] w@[k]) == upload_writes(
                dir.path_view(),
                multipart_parts(body@, boundary@),
            )[k] && w@[k].target.root_view() == dir.root_view()),
{
    if body.len() > UPLOAD_LIMIT {
        return Err(UploadError::TooLarge);
    }
    let parts = parse_multipart(body, boundary);
    if parts.len() == 0 {
        return Err(UploadError::NoFiles);
    }
    assert(parts@.map_values(|p: UploadedPart| part_view(p)) =~= multipart_parts(body@, boundary@));
    Ok(plan_writes(dir, &parts))
}

/// The contents of a store of files after `w` is written in order, each
/// write replacing what stood at its target.
pub open spec fn apply_writes(store: Map<Seq<char>, Seq<u8>>, w: Seq<(Seq<char>, Seq<u8>)>) -> Map<
    Seq<char>,
    Seq<u8>,
>
    decreases w.len(),
{
    if w.len() == 0 {
        store
    } else {
        apply_writes(store, w.drop_last()).insert(w.last().0, w.last().1)
    }
}

/// Uploading a file under a name that is already there replaces it: after
/// any first upload, a second upload of `name` leaves exactly its own bytes.
pub proof fn lemma_second_upload_wins(
    store: Map<Seq<char>, Seq<u8>>,
    dir: Seq<char>,
    first: Seq<(Seq<char>, Seq<u8>)>,
    name: Seq<char>,
    data: Seq<u8>,
)
    requires
        sanitized(name).len() > 0,
        sanitized(name) != seq!['.'],
        sanitized(name) != seq!['.', '.'],
    ensures
        apply_writes(
            apply_writes(store, upload_writes(dir, first)),
            upload_writes(dir, seq![(name, data)]),
        )[dir + seq!['/'] + sanitized(name)] == data,
{
    lemma_sanitized_has_no_slash(name);
    let one = seq![(name, data)];
    assert(one.drop_last() =~= Seq::<(Seq<char>, Seq<u8>)>::empty());
    assert(upload_writes(dir, one.drop_last()) =~= Seq::<(Seq<char>, Seq<u8>)>::empty());
    assert(one.last() == (name, data));
    let w = upload_writes(dir, one);
    assert(w =~= seq![(dir + seq!['/'] + sanitized(name), data)]);
    assert(w.drop_last() =~= Seq::<(Seq<char>, Seq<u8>)>::empty());
}

/// A sanitized name never holds a `/`, so it is one path component as soon
/// as it is not empty, `.` or `..`.
pub proof fn lemma_sanitized_has_no_slash(name: Seq<char>)
    ensures
        forall|i: int| 0 <= i < sanitized(name).len() ==> #[trigger] sanitized(name)[i] != '/',
        (sanitized(name).len() > 0 && sanitized(name) != seq!['.'] && sanitized(name) != seq![
            '.',
            '.',
        ]) ==> is_component(sanitized(name)),
{
    assert forall|i: int| 0 <= i < sanitized(name).len() implies #[trigger] sanitized(name)[i]
        != '/' by {
        let c = name[i];
        if is_safe_char(c) {
            assert(c as u32 != 0x2F);
        }
    }
}

/// A name made only of ASCII letters, digits, `.`, `-`, `_` and spaces is
/// stored exactly as given.
pub proof fn lemma_plain_name_kept(name: Seq<char>)
    requires
        forall|i: int| 0 <= i < name.len() ==> is_safe_ascii(#[trigger] name[i] as u32),
    ensures
        sanitized(name) == name,
{
    assert forall|i: int| 0 <= i < name.len() implies #[trigger] sanitized(name)[i] == name[i] by {
        assert(is_safe_ascii(name[i] as u32));
    }
    assert(sanitized(name) =~= name);
}

/// Uploading one part named `report 1.txt` into `dir` writes exactly one
/// file, `dir/report 1.txt`, with the part's bytes: the space survives.
pub proof fn lemma_report_name_written(dir: Seq<char>, data: Seq<u8>)
    ensures
        upload_writes(dir, seq![("report 1.txt"@, data)]) == seq![
            (dir + seq!['/'] + "report 1.txt"@, data),
        ],
{
    reveal_strlit("report 1.txt");
    let n = "report 1.txt"@;
    assert forall|i: int| 0 <= i < n.len() implies is_safe_ascii(#[trigger] n[i] as u32) by {}
    lemma_plain_name_kept(n);
    lemma_sanitized_has_no_slash(n);
    assert(n != seq!['.']) by {
        assert(n.len() != seq!['.'].len());
    }
    assert(n != seq!['.', '.']) by {
        assert(n.len() != seq!['.', '.'].len());
    }
    let one = seq![(n, data)];
    assert(one.drop_last() =~= Seq::<(Seq<char>, Seq<u8>)>::empty());
    assert(upload_writes(dir, one.drop_last()) =~= Seq::<(Seq<char>, Seq<u8>)>::empty());
    assert(one.last() == (n, data));
}

} // verus!
