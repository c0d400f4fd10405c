//! Decoding of `multipart/form-data` request bodies into named file parts,
//! and the plan of writes that an upload makes from them.

use vstd::prelude::*;
use vstd::utf8::encode_utf8;
use crate::text::{
    chars_of, copy_bytes, copy_chars, find, find_bytes, find_chars, find_from, lossy_of,
    lossy_utf8, lower_of, lowercase, string_of, trim_char, trim_matching, trim_whitespace, trim_ws,
    starts_with, ends_with, bytes_match_at, occurs_at,
};

verus! {

/// One file part of an upload: its file name and its payload.
#[derive(Debug)]
pub struct UploadedPart {
    pub filename: String,
    pub data: Vec<u8>,
}

/// A part as plain values.
pub open spec fn part_view(p: UploadedPart) -> (Seq<char>, Seq<u8>) {
    (p.filename@, p.data@)
}

/// The number of characters from `i` up to the next line feed or the end.
pub open spec fn line_len(s: Seq<char>, i: int) -> nat
    decreases s.len() - i,
{
    if i < 0 || i >= s.len() || s[i] == '\n' {
        0
    } else {
        1 + line_len(s, i + 1)
    }
}

/// The line that spans `s[i..e]`, without the carriage return that precedes
/// its line feed (as `str::lines` gives it).
pub open spec fn line_text(s: Seq<char>, i: int, e: int) -> Seq<char> {
    if i < e < s.len() && s[e - 1] == '\r' {
        s.subrange(i, e - 1)
    } else {
        s.subrange(i, e)
    }
}

/// The last component of a path written with `/` or `\` separators.
pub open spec fn base_name(n: Seq<char>) -> Seq<char>
    decreases n.len(),
{
    if n.len() == 0 {
        n
    } else if n.last() == '/' || n.last() == '\\' {
        seq![]
    } else {
        base_name(n.drop_last()).push(n.last())
    }
}

/// The file name that a header line gives, given its lower-cased form
/// `lower`: the line must name the content disposition (in any case), and
/// the name is what stands between `filename="` and the next quote, reduced
/// to its last path component.
pub open spec fn filename_given_lower(line: Seq<char>, lower: Seq<char>) -> Option<Seq<char>> {
    let key = "filename=\""@;
    if find(lower, "content-disposition"@) is None {
        None
    } else {
        match find(line, key) {
            None => None,
            Some(p) => match find_from(line, seq!['"'], p + key.len()) {
                None => None,
                Some(q) => Some(base_name(line.subrange(p + key.len(), q))),
            },
        }
    }
}

/// The file name that one header line gives.
pub open spec fn filename_in_line(line: Seq<char>) -> Option<Seq<char>> {
    filename_given_lower(line, lower_of(line))
}

/// The file name given by the first line from index `i` on that gives one.
pub open spec fn filename_from(s: Seq<char>, i: int) -> Option<Seq<char>>
    decreases s.len() - i,
{
    if i < 0 || i >= s.len() {
        None
    } else {
        let e = i + line_len(s, i);
        match filename_in_line(line_text(s, i, e)) {
            Some(n) => Some(n),
            None => if e >= s.len() {
                None
            } else {
                filename_from(s, e + 1)
            },
        }
    }
}

/// The last component of `n`, split at `/` and `\`.
fn base_name_exec(n: &[char]) -> (r: Vec<char>)
    ensures
        r@ == base_name(n@),
{
    let len = n.len();
    let mut j = len;
    assert(n@.take(len as int) =~= n@);
    assert(n@.subrange(len as int, len as int) =~= Seq::<char>::empty());
    while j > 0 && n[j - 1] != '/' && n[j - 1] != '\\'
        invariant
            j <= len == n@.len(),
            base_name(n@) == base_name(n@.take(j as int)) + n@.subrange(j as int, len as int),
        decreases j,
    {
        assert(n@.take(j as int).drop_last() =~= n@.take(j - 1));
        assert(n@.subrange(j - 1, len as int) =~= seq![n@[j - 1]] + n@.subrange(
            j as int,
            len as int,
        ));
        j = j - 1;
    }
    copy_chars(n, j, len)
}

/// The file name that one header line gives, where `lowered` is the line in
/// lower case.
pub fn filename_from_lowered(line: &str, lowered: &str) -> (r: Option<String>)
    ensures
        match filename_given_lower(line@, lowered@) {
            None => r is None,
            Some(n) => r matches Some(s) && s@ == n,
        },
{
    let line = chars_of(line);
    let lower = chars_of(lowered);
    let disposition = chars_of("content-disposition");
    let key = chars_of("filename=\"");
    let mut quote: Vec<char> = Vec::new();
    quote.push('"');
    assert(quote@ =~= seq!['"']);
    if find_chars(&lower, &disposition, 0).is_none() {
        return None;
    }
    let p = match find_chars(&line, &key, 0) {
        None => return None,
        Some(p) => p,
    };
    proof {
        crate::text::lemma_find_from(line@, key@, 0);
    }
    let ll = line.len();
    let start = p + key.len();
    match find_chars(&line, &quote, start) {
        None => None,
        Some(q) => {
            proof {
                crate::text::lemma_find_from(line@, quote@, start as int);
            }
            let name = base_name_exec(&copy_chars(&line, start, q));
            Some(string_of(&name))
        },
    }
}

/// The file name that the headers of a part give, if any.
pub fn extract_filename(headers: &str) -> (r: Option<String>)
    ensures
        match filename_from(headers@, 0) {
            None => r is None,
            Some(n) => r matches Some(s) && s@ == n,
        },
{
    let h = chars_of(headers);
    let n = h.len();
    let mut i: usize = 0;
    while i < n
        invariant
            n == h@.len(),
            h@ == headers@,
            filename_from(h@, 0) == filename_from(h@, i as int),
        decreases n - i,
    {
        let mut e = i;
        while e < n && h[e] != '\n'
            invariant
                n == h@.len(),
                i <= e <= n,
                line_len(h@, i as int) == (e - i) + line_len(h@, e as int),
            decreases n - e,
        {
            e = e + 1;
        }
        assert(line_len(h@, e as int) == 0);
        let line_end = if i < e && e < n && h[e - 1] == '\r' {
            e - 1
        } else {
            e
        };
        let line = copy_chars(&h, i, line_end);
        assert(line@ == line_text(h@, i as int, e as int));
        let lower = lowercase(&line);
        let ls = string_of(&line);
        match filename_from_lowered(ls.as_str(), string_of(&lower).as_str()) {
            Some(name) => {
                return Some(name);
            },
            None => {},
        }
        if e >= n {
            return None;
        }
        i = e + 1;
    }
    None
}

/// The boundary that a `Content-Type` value names: it must mention
/// `multipart/form-data`; the boundary is what follows the first
/// `boundary=` up to any later `boundary=`, trimmed of white space and then
/// of quotes.
pub open spec fn boundary_spec(ct: Seq<char>) -> Option<Seq<char>> {
    let key = "boundary="@;
    if find(ct, "multipart/form-data"@) is None {
        None
    } else {
        match find(ct, key) {
            None => None,
            Some(p) => {
                let rest = ct.skip(p + key.len());
                let piece = match find(rest, key) {
                    Some(q) => rest.take(q),
                    None => rest,
                };
                Some(trim_char(trim_ws(piece), '"'))
            },
        }
    }
}

/// The multipart boundary named by a `Content-Type` header value.
pub fn boundary_of(content_type: &str) -> (r: Option<String>)
    ensures
        match boundary_spec(content_type@) {
            None => r is None,
            Some(b) => r matches Some(s) && s@ == b,
        },
{
    let ct = chars_of(content_type);
    let form = chars_of("multipart/form-data");
    let key = chars_of("boundary=");
    if find_chars(&ct, &form, 0).is_none() {
        return None;
    }
    match find_chars(&ct, &key, 0) {
        None => None,
        Some(p) => {
            proof {
                crate::text::lemma_find_from(ct@, key@, 0);
            }
            let clen = ct.len();
            let rest = copy_chars(&ct, p + key.len(), clen);
            assert(rest@ =~= ct@.skip(p + key@.len()));
            let piece = match find_chars(&rest, &key, 0) {
                Some(q) => {
                    proof {
                        crate::text::lemma_find_from(rest@, key@, 0);
                    }
                    copy_chars(&rest, 0, q)
                },
                None => rest,
            };
            proof {
                if let Some(q) = find(rest@, key@) {
                    assert(rest@.subrange(0, q) =~= rest@.take(q));
                }
            }
            let trimmed = trim_whitespace(&piece);
            let unquoted = trim_matching(&trimmed, '"');
            Some(string_of(&unquoted))
        },
    }
}

/// The line that opens every part: `--` followed by the boundary.
pub open spec fn delimiter(boundary: Seq<char>) -> Seq<u8> {
    seq![45u8, 45u8] + encode_utf8(boundary)
}

/// A carriage return and a line feed.
pub open spec fn crlf() -> Seq<u8> {
    seq![13u8, 10u8]
}

/// The index just past each occurrence of `d` in `body` from `i` on, the
/// occurrences taken left to right without overlap.
pub open spec fn delimiter_ends(body: Seq<u8>, d: Seq<u8>, i: int) -> Seq<int>
    decreases body.len() + 1 - i,
{
    if d.len() == 0 || i < 0 || i + d.len() > body.len() {
        seq![]
    } else if occurs_at(body, d, i) {
        seq![i + d.len()] + delimiter_ends(body, d, i + d.len())
    } else {
        delimiter_ends(body, d, i + 1)
    }
}

/// The file part that the bytes between two delimiters hold, if they hold
/// one: a leading line break is dropped; a closing marker (`--`) holds none;
/// headers end at the first blank line; the payload loses one trailing line
/// break; and a part without a non-empty file name is a plain form field.
pub open spec fn part_from(whole: Seq<u8>) -> Option<(Seq<char>, Seq<u8>)> {
    let part = if starts_with(whole, crlf()) {
        whole.skip(2)
    } else {
        whole
    };
    if starts_with(part, seq![45u8, 45u8]) {
        None
    } else {
        match find(part, crlf() + crlf()) {
            None => None,
            Some(sep) => {
                let rest = part.skip(sep + 4);
                let data = if ends_with(rest, crlf()) {
                    rest.take(rest.len() - 2)
                } else {
                    rest
                };
                match filename_from(lossy_of(part.take(sep)), 0) {
                    Some(f) => if f.len() > 0 {
                        Some((f, data))
                    } else {
                        None
                    },
                    None => None,
                }
            },
        }
    }
}

/// The part that follows the `k`-th delimiter, which runs up to the next
/// delimiter or the end of the body.
pub open spec fn part_at(body: Seq<u8>, d: Seq<u8>, ends: Seq<int>, k: int) -> Option<
    (Seq<char>, Seq<u8>),
> {
    let start = ends[k];
    let end = if k + 1 < ends.len() {
        ends[k + 1] - d.len()
    } else {
        body.len() as int
    };
    if start >= end {
        None
    } else {
        part_from(body.subrange(start, end))
    }
}

/// The file parts after the first `n` delimiters, in order.
pub open spec fn parts_upto(body: Seq<u8>, d: Seq<u8>, ends: Seq<int>, n: int) -> Seq<
    (Seq<char>, Seq<u8>),
>
    decreases n,
{
    if n <= 0 {
        seq![]
    } else {
        parts_upto(body, d, ends, n - 1) + match part_at(body, d, ends, n - 1) {
            Some(p) => seq![p],
            None => seq![],
        }
    }
}

/// The file parts of a multipart body with the given boundary, in order.
pub open spec fn multipart_parts(body: Seq<u8>, boundary: Seq<char>) -> Seq<(Seq<char>, Seq<u8>)> {
    let d = delimiter(boundary);
    let ends = delimiter_ends(body, d, 0);
    parts_upto(body, d, ends, ends.len() as int)
}

proof fn lemma_delimiter_ends_bounds(body: Seq<u8>, d: Seq<u8>, i: int)
    requires
        0 <= i,
        d.len() > 0,
    ensures
        forall|k: int|
            0 <= k < delimiter_ends(body, d, i).len() ==> i + d.len() <= #[trigger] delimiter_ends(
                body,
                d,
                i,
            )[k] <= body.len(),
    decreases body.len() + 1 - i,
{
    if i + d.len() > body.len() {
    } else if occurs_at(body, d, i) {
        lemma_delimiter_ends_bounds(body, d, i + d.len());
        let rest = delimiter_ends(body, d, i + d.len());
        assert(delimiter_ends(body, d, i) == seq![i + d.len()] + rest);
        assert forall|k: int| 0 <= k < delimiter_ends(body, d, i).len() implies i + d.len()
            <= #[trigger] delimiter_ends(body, d, i)[k] <= body.len() by {
            if k > 0 {
                assert(delimiter_ends(body, d, i)[k] == rest[k - 1]);
            }
        }
    } else {
        lemma_delimiter_ends_bounds(body, d, i + 1);
        assert(delimiter_ends(body, d, i) == delimiter_ends(body, d, i + 1));
    }
}

/// The file part held by `body[start..end]`, if any.
fn decode_part(body: &[u8], start: usize, end: usize) -> (r: Option<UploadedPart>)
    requires
        start <= end <= body@.len(),
    ensures
        match part_from(body@.subrange(start as int, end as int)) {
            None => r is None,
            Some(p) => r matches Some(u) && part_view(u) == p,
        },
{
    let whole = copy_bytes(body, start, end);
    let wl = whole.len();
    let off: usize = if wl >= 2 && whole[0] == 13 && whole[1] == 10 {
        assert(whole@.take(2) =~= crlf());
        2
    } else {
        proof {
            if wl >= 2 {
                assert(whole@.take(2)[0] != crlf()[0] || whole@.take(2)[1] != crlf()[1]);
            }
        }
        0
    };
    let part = copy_bytes(&whole, off, wl);
    assert(off == 0 ==> part@ =~= whole@);
    assert(off == 2 ==> part@ =~= whole@.skip(2));
    let pl = part.len();
    if pl >= 2 && part[0] == 45 && part[1] == 45 {
        assert(part@.take(2) =~= seq![45u8, 45u8]);
        return None;
    }
    proof {
        if pl >= 2 {
            assert(part@.take(2)[0] != seq![45u8, 45u8][0] || part@.take(2)[1] != seq![
                45u8,
                45u8,
            ][1]);
        }
    }
    let mut blank: Vec<u8> = Vec::new();
    blank.push(13);
    blank.push(10);
    blank.push(13);
    blank.push(10);
    assert(blank@ =~= crlf() + crlf());
    match find_bytes(&part, &blank, 0) {
        None => None,
        Some(sep) => {
            proof {
                crate::text::lemma_find_from(part@, blank@, 0);
            }
            let data_start = sep + 4;
            let ghost rest = part@.skip(data_start as int);
            let mut data_end = pl;
            if pl - data_start >= 2 && part[pl - 2] == 13 && part[pl - 1] == 10 {
                assert(rest.skip(rest.len() - 2) =~= crlf());
                data_end = pl - 2;
            } else {
                proof {
                    if rest.len() >= 2 {
                        assert(rest.skip(rest.len() - 2)[0] != crlf()[0] || rest.skip(
                            rest.len() - 2,
                        )[1] != crlf()[1]);
                    }
                }
            }
            let data = copy_bytes(&part, data_start, data_end);
            assert(data@ =~= (if crate::text::ends_with(rest, crlf()) {
                rest.take(rest.len() - 2)
            } else {
                rest
            }));
            let head = copy_bytes(&part, 0, sep);
            assert(head@ =~= part@.take(sep as int));
            let headers = string_of(&lossy_utf8(&head));
            match extract_filename(headers.as_str()) {
                Some(f) => {
                    let fc = chars_of(f.as_str());
                    if fc.len() > 0 {
                        Some(UploadedPart { filename: f, data })
                    } else {
                        None
                    }
                },
                None => None,
            }
        },
    }
}

/// Splits a multipart body at every `--boundary` line and returns its file
/// parts in order. Whatever does not have the expected shape is skipped, so
/// a malformed body gives no parts rather than an error.
pub fn parse_multipart(body: &[u8], boundary: &str) -> (r: Vec<UploadedPart>)
    ensures
        r@.len() == multipart_parts(body@, boundary@).len(),
        forall|k: int|
            0 <= k < r@.len() ==> part_view(#[trigger] r@[k]) == multipart_parts(body@, boundary@)[k],
{
    let b = boundary.as_bytes();
    let mut d: Vec<u8> = Vec::new();
    d.push(45);
    d.push(45);
    let mut j: usize = 0;
    while j < b.len()
        invariant
            j <= b@.len(),
            d@ == seq![45u8, 45u8] + b@.take(j as int),
        decreases b@.len() - j,
    {
        d.push(b[j]);
        assert(b@.take(j + 1) =~= b@.take(j as int).push(b@[j as int]));
        j = j + 1;
    }
    assert(b@.take(j as int) =~= b@);
    assert(d@ == delimiter(boundary@));
    let ghost all = delimiter_ends(body@, d@, 0);
    proof {
        lemma_delimiter_ends_bounds(body@, d@, 0);
    }
    let n = body.len();
    let dl = d.len();
    let mut starts: Vec<usize> = Vec::new();
    let ghost mut g: Seq<int> = seq![];
    let mut i: usize = 0;
    while i <= n && dl <= n - i
        invariant
            n == body@.len(),
            dl == d@.len(),
            dl >= 2,
            all == delimiter_ends(body@, d@, 0),
            starts@.len() == g.len(),
            forall|k: int| 0 <= k < g.len() ==> #[trigger] starts@[k] as int == g[k],
            g + delimiter_ends(body@, d@, i as int) == all,
        decreases n + 1 - i,
    {
        if bytes_match_at(body, d.as_slice(), i) {
            assert(g.push(i + dl) + delimiter_ends(body@, d@, i + dl) =~= g + delimiter_ends(
                body@,
                d@,
                i as int,
            ));
            starts.push(i + dl);
            proof {
                g = g.push(i + dl);
            }
            i = i + dl;
        } else {
            i = i + 1;
        }
    }
    assert(g =~= all);
    let mut files: Vec<UploadedPart> = Vec::new();
    let ns = starts.len();
    let mut k: usize = 0;
    while k < ns
        invariant
            n == body@.len(),
            dl == d@.len(),
            d@ == delimiter(boundary@),
            all == delimiter_ends(body@, d@, 0),
            ns == all.len(),
            starts@.len() == ns,
            forall|m: int| 0 <= m < ns ==> #[trigger] starts@[m] as int == all[m],
            forall|m: int| 0 <= m < ns ==> dl <= #[trigger] all[m] <= n,
            k <= ns,
            files@.len() == parts_upto(body@, d@, all, k as int).len(),
            forall|m: int|
                0 <= m < files@.len() ==> part_view(#[trigger] files@[m]) == parts_upto(
                    body@,
                    d@,
                    all,
                    k as int,
                )[m],
        decreases ns - k,
    {
        let start = starts[k];
        let end = if k + 1 < ns {
            assert(all[k + 1] >= dl);
            starts[k + 1] - dl
        } else {
            n
        };
        let ghost before = parts_upto(body@, d@, all, k as int);
        if start < end {
            match decode_part(body, start, end) {
                Some(p) => {
                    files.push(p);
                },
                None => {},
            }
        }
        assert(parts_upto(body@, d@, all, k + 1) == before + match part_at(body@, d@, all, k as int) {
            Some(p) => seq![p],
            None => seq![],
        });
        k = k + 1;
    }
    files
}

} // verus!
