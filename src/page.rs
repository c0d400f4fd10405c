//! The pieces of a directory page that carry logic: escaped text, links,
//! breadcrumbs, relative ages and the listing's counts.

use vstd::prelude::*;
use vstd::utf8::encode_utf8;
use crate::listing::{DirectoryEntry, entry_view};
use crate::percent::{percent_encode, percent_encoded};
use crate::sandbox::joined;
use crate::text::{chars_end_with, chars_of, copy_chars, ends_with, split_chars, split_on, string_of};

verus! {

/// The HTML form of one character.
pub open spec fn escape_char(c: char) -> Seq<char> {
    if c == '&' {
        "&amp;"@
    } else if c == '<' {
        "&lt;"@
    } else if c == '>' {
        "&gt;"@
    } else if c == '"' {
        "&quot;"@
    } else {
        seq![c]
    }
}

/// `s` with `&`, `<`, `>` and `"` written as entities.
pub open spec fn escaped(s: Seq<char>) -> Seq<char>
    decreases s.len(),
{
    if s.len() == 0 {
        seq![]
    } else {
        escaped(s.drop_last()) + escape_char(s.last())
    }
}

/// Appends `lit` to `out`.
pub fn push_str(out: &mut Vec<char>, lit: &str)
    ensures
        final(out)@ == old(out)@ + lit@,
{
    let mut v = chars_of(lit);
    out.append(&mut v);
}

/// Appends the characters `cs` to `out`.
pub fn push_chars(out: &mut Vec<char>, cs: &Vec<char>)
    ensures
        final(out)@ == old(out)@ + cs@,
{
    let mut i: usize = 0;
    let ghost start = out@;
    while i < cs.len()
        invariant
            i <= cs@.len(),
            out@ == start + cs@.take(i as int),
        decreases cs@.len() - i,
    {
        out.push(cs[i]);
        assert(cs@.take(i + 1) =~= cs@.take(i as int).push(cs@[i as int]));
        i = i + 1;
    }
    assert(cs@.take(i as int) =~= cs@);
}

fn escape_chars(s: &Vec<char>) -> (r: Vec<char>)
    ensures
        r@ == escaped(s@),
{
    let mut out: Vec<char> = Vec::new();
    let mut i: usize = 0;
    while i < s.len()
        invariant
            i <= s@.len(),
            out@ == escaped(s@.take(i as int)),
        decreases s@.len() - i,
    {
        assert(s@.take(i + 1).drop_last() =~= s@.take(i as int));
        let c = s[i];
        if c == '&' {
            push_str(&mut out, "&amp;");
        } else if c == '<' {
            push_str(&mut out, "&lt;");
        } else if c == '>' {
            push_str(&mut out, "&gt;");
        } else if c == '"' {
            push_str(&mut out, "&quot;");
        } else {
            out.push(c);
        }
        i = i + 1;
    }
    assert(s@.take(i as int) =~= s@);
    out
}

/// Escapes `&`, `<`, `>` and `"` for use in HTML text and attributes.
pub fn html_escape(input: &str) -> (r: String)
    ensures
        r@ == escaped(input@),
{
    string_of(&escape_chars(&chars_of(input)))
}

/// The decimal digit for `d < 10`.
pub open spec fn digit(d: nat) -> char {
    (d + 48) as char
}

/// The decimal form of `n`.
pub open spec fn decimal(n: nat) -> Seq<char>
    decreases n,
{
    if n < 10 {
        seq![digit(n)]
    } else {
        decimal(n / 10).push(digit(n % 10))
    }
}

/// Appends the decimal form of `n` to `out`.
pub fn push_decimal(out: &mut Vec<char>, n: u64)
    ensures
        final(out)@ == old(out)@ + decimal(n as nat),
    decreases n,
{
    if n >= 10 {
        push_decimal(out, n / 10);
    }
    let d = (n % 10) as u8;
    out.push((d + 48) as char);
}

/// The `n` in decimal.
pub fn decimal_string(n: u64) -> (r: String)
    ensures
        r@ == decimal(n as nat),
{
    let mut out: Vec<char> = Vec::new();
    push_decimal(&mut out, n);
    string_of(&out)
}

/// How long ago `secs` seconds is, in its largest whole unit: years of 365
/// days, months of 30 days, days, hours, minutes or seconds.
pub open spec fn age_text(secs: nat) -> Seq<char> {
    let d = secs / 86400;
    let h = (secs / 3600) % 24;
    let m = (secs / 60) % 60;
    let s = secs % 60;
    if d / 365 > 0 {
        decimal(d / 365) + "y ago"@
    } else if d / 30 > 0 {
        decimal(d / 30) + "mo ago"@
    } else if d > 0 {
        decimal(d) + "d ago"@
    } else if h > 0 {
        decimal(h) + "h ago"@
    } else if m > 0 {
        decimal(m) + "m ago"@
    } else {
        decimal(s) + "s ago"@
    }
}

/// The age of an entry for display, such as `3d ago`.
pub fn format_time(secs: u64) -> (r: String)
    ensures
        r@ == age_text(secs as nat),
{
    let d = secs / 86400;
    let h = (secs / 3600) % 24;
    let m = (secs / 60) % 60;
    let s = secs % 60;
    let mut out: Vec<char> = Vec::new();
    if d / 365 > 0 {
        push_decimal(&mut out, d / 365);
        push_str(&mut out, "y ago");
    } else if d / 30 > 0 {
        push_decimal(&mut out, d / 30);
        push_str(&mut out, "mo ago");
    } else if d > 0 {
        push_decimal(&mut out, d);
        push_str(&mut out, "d ago");
    } else if h > 0 {
        push_decimal(&mut out, h);
        push_str(&mut out, "h ago");
    } else if m > 0 {
        push_decimal(&mut out, m);
        push_str(&mut out, "m ago");
    } else {
        push_decimal(&mut out, s);
        push_str(&mut out, "s ago");
    }
    string_of(&out)
}

/// The non-empty pieces of `ps`, in order.
pub open spec fn non_empty(ps: Seq<Seq<char>>) -> Seq<Seq<char>>
    decreases ps.len(),
{
    if ps.len() == 0 {
        seq![]
    } else if ps.last().len() > 0 {
        non_empty(ps.drop_last()).push(ps.last())
    } else {
        non_empty(ps.drop_last())
    }
}

/// The link for crumb `i` of `parts`: the last one is plain text, the
/// others link to the path up to them.
pub open spec fn crumb(parts: Seq<Seq<char>>, i: int) -> Seq<char> {
    "<span class=\"sep\">/</span>"@ + if i == parts.len() - 1 {
        "<span>"@ + escaped(parts[i]) + "</span>"@
    } else {
        "<a href=\""@ + joined(parts.take(i + 1)) + "\">"@ + escaped(parts[i]) + "</a>"@
    }
}

/// The first `k` crumbs.
pub open spec fn crumbs(parts: Seq<Seq<char>>, k: int) -> Seq<char>
    decreases k,
{
    if k <= 0 {
        seq![]
    } else {
        crumbs(parts, k - 1) + crumb(parts, k - 1)
    }
}

/// The breadcrumb trail of a request path: a link home, then one crumb per
/// non-empty path piece.
pub open spec fn breadcrumbs(uri_path: Seq<char>) -> Seq<char> {
    let parts = non_empty(split_on(uri_path, '/'));
    "<a href=\"/\">~</a>"@ + crumbs(parts, parts.len() as int)
}

/// The breadcrumb trail for a directory page.
pub fn build_breadcrumbs(uri_path: &str) -> (r: String)
    ensures
        r@ == breadcrumbs(uri_path@),
{
    let pieces = split_chars(&chars_of(uri_path), '/');
    let ghost ps = split_on(uri_path@, '/');
    let mut parts: Vec<Vec<char>> = Vec::new();
    let mut i: usize = 0;
    while i < pieces.len()
        invariant
            i <= pieces@.len(),
            pieces@.len() == ps.len(),
            forall|m: int| 0 <= m < ps.len() ==> #[trigger] pieces@[m]@ == ps[m],
            parts@.len() == non_empty(ps.take(i as int)).len(),
            forall|m: int| 0 <= m < parts@.len() ==> #[trigger] parts@[m]@ == non_empty(ps.take(i as int))[m],
        decreases pieces@.len() - i,
    {
        assert(ps.take(i + 1).drop_last() =~= ps.take(i as int));
        if pieces[i].len() > 0 {
            parts.push(copy_chars(&pieces[i], 0, pieces[i].len()));
            assert(parts@.last()@ =~= ps[i as int]);
        }
        i = i + 1;
    }
    assert(ps.take(i as int) =~= ps);
    let ghost pv = non_empty(ps);
    let mut out = chars_of("<a href=\"/\">~</a>");
    let mut href: Vec<char> = Vec::new();
    let n = parts.len();
    let mut k: usize = 0;
    while k < n
        invariant
            n == parts@.len() == pv.len(),
            forall|m: int| 0 <= m < n ==> #[trigger] parts@[m]@ == pv[m],
            k <= n,
            href@ == joined(pv.take(k as int)),
            out@ == "<a href=\"/\">~</a>"@ + crumbs(pv, k as int),
        decreases n - k,
    {
        assert(pv.take(k + 1).drop_last() =~= pv.take(k as int));
        href.push('/');
        push_chars(&mut href, &parts[k]);
        assert(href@ =~= joined(pv.take(k + 1)));
        let esc = escape_chars(&parts[k]);
        push_str(&mut out, "<span class=\"sep\">/</span>");
        if k == n - 1 {
            push_str(&mut out, "<span>");
            push_chars(&mut out, &esc);
            push_str(&mut out, "</span>");
        } else {
            push_str(&mut out, "<a href=\"");
            push_chars(&mut out, &href);
            push_str(&mut out, "\">");
            push_chars(&mut out, &esc);
            push_str(&mut out, "</a>");
        }
        assert(out@ =~= "<a href=\"/\">~</a>"@ + crumbs(pv, k + 1));
        k = k + 1;
    }
    string_of(&out)
}

/// The link to an entry named `name` of the directory at `uri_path`;
/// directories get a trailing slash.
pub open spec fn entry_link(uri_path: Seq<char>, name: Seq<char>, is_dir: bool) -> Seq<char> {
    let base = if ends_with(uri_path, seq!['/']) {
        uri_path + percent_encoded(encode_utf8(name))
    } else {
        uri_path + seq!['/'] + percent_encoded(encode_utf8(name))
    };
    if is_dir {
        base.push('/')
    } else {
        base
    }
}

/// The link to an entry of the directory page at `uri_path`.
pub fn entry_href(uri_path: &str, name: &str, is_dir: bool) -> (r: String)
    ensures
        r@ == entry_link(uri_path@, name@, is_dir),
{
    let mut out = chars_of(uri_path);
    let mut slash: Vec<char> = Vec::new();
    slash.push('/');
    assert(slash@ =~= seq!['/']);
    if !chars_end_with(&out, &slash) {
        out.push('/');
    }
    let enc = chars_of(percent_encode(name).as_str());
    push_chars(&mut out, &enc);
    if is_dir {
        out.push('/');
    }
    string_of(&out)
}

/// The link to the page at `uri_path` followed by `action` (such as
/// `__upload`).
pub open spec fn action_link(uri_path: Seq<char>, action: Seq<char>) -> Seq<char> {
    if ends_with(uri_path, seq!['/']) {
        uri_path + action
    } else {
        uri_path + seq!['/'] + action
    }
}

/// The target of an action on the directory page at `uri_path`.
pub fn action_target(uri_path: &str, action: &str) -> (r: String)
    ensures
        r@ == action_link(uri_path@, action@),
{
    let mut out = chars_of(uri_path);
    let mut slash: Vec<char> = Vec::new();
    slash.push('/');
    assert(slash@ =~= seq!['/']);
    if !chars_end_with(&out, &slash) {
        out.push('/');
    }
    push_str(&mut out, action);
    string_of(&out)
}

/// `s` without its trailing slashes.
pub open spec fn trim_trailing_slashes(s: Seq<char>) -> Seq<char>
    decreases s.len(),
{
    if s.len() > 0 && s.last() == '/' {
        trim_trailing_slashes(s.drop_last())
    } else {
        s
    }
}

/// The index of the last `/` in `s`.
pub open spec fn last_slash(s: Seq<char>) -> Option<int>
    decreases s.len(),
{
    if s.len() == 0 {
        None
    } else if s.last() == '/' {
        Some(s.len() - 1)
    } else {
        last_slash(s.drop_last())
    }
}

/// The link one level up from the directory page at `uri_path`.
pub open spec fn parent_link(uri_path: Seq<char>) -> Seq<char> {
    if encode_utf8(uri_path).len() > 1 {
        let t = trim_trailing_slashes(uri_path);
        match last_slash(t) {
            Some(p) => if p == 0 {
                seq!['/']
            } else {
                t.take(p)
            },
            None => seq!['/'],
        }
    } else {
        seq!['/']
    }
}

/// The link to the parent of the directory page at `uri_path`.
pub fn parent_href(uri_path: &str) -> (r: String)
    ensures
        r@ == parent_link(uri_path@),
{
    let mut slash: Vec<char> = Vec::new();
    slash.push('/');
    assert(slash@ =~= seq!['/']);
    if uri_path.as_bytes().len() <= 1 {
        return string_of(&slash);
    }
    let s = chars_of(uri_path);
    let mut end = s.len();
    assert(s@.take(end as int) =~= s@);
    while end > 0 && s[end - 1] == '/'
        invariant
            end <= s@.len(),
            trim_trailing_slashes(s@) == trim_trailing_slashes(s@.take(end as int)),
        decreases end,
    {
        assert(s@.take(end as int).drop_last() =~= s@.take(end - 1));
        end = end - 1;
    }
    let ghost t = s@.take(end as int);
    assert(trim_trailing_slashes(t) == t);
    let mut j = end;
    while j > 0 && s[j - 1] != '/'
        invariant
            j <= end <= s@.len(),
            t == s@.take(end as int),
            last_slash(t) == last_slash(s@.take(j as int)),
        decreases j,
    {
        assert(s@.take(j as int).drop_last() =~= s@.take(j - 1));
        j = j - 1;
    }
    if j == 0 {
        assert(s@.take(0) =~= Seq::<char>::empty());
        return string_of(&slash);
    }
    let p = j - 1;
    assert(last_slash(s@.take(j as int)) == Some(p as int));
    if p == 0 {
        return string_of(&slash);
    }
    let r = copy_chars(&s, 0, p);
    assert(r@ =~= t.take(p as int));
    string_of(&r)
}

/// How many listed entries are directories.
pub open spec fn dir_count(s: Seq<(Seq<char>, bool, u64, u64)>) -> nat
    decreases s.len(),
{
    if s.len() == 0 {
        0
    } else {
        dir_count(s.drop_last()) + if s.last().1 {
            1nat
        } else {
            0nat
        }
    }
}

/// The total size of the listed files (directories not counted).
pub open spec fn file_bytes(s: Seq<(Seq<char>, bool, u64, u64)>) -> nat
    decreases s.len(),
{
    if s.len() == 0 {
        0
    } else {
        file_bytes(s.drop_last()) + if s.last().1 {
            0nat
        } else {
            s.last().2 as nat
        }
    }
}

/// The counts shown above a listing: directories, files, and the files'
/// total size (held at `u64::MAX` where it would exceed it).
pub fn listing_stats(entries: &Vec<DirectoryEntry>) -> (r: (usize, usize, u64))
    ensures
        r.0 == dir_count(entries@.map_values(|e: DirectoryEntry| entry_view(e))),
        r.0 + r.1 == entries@.len(),
        r.2 == if file_bytes(entries@.map_values(|e: DirectoryEntry| entry_view(e))) <= u64::MAX {
            file_bytes(entries@.map_values(|e: DirectoryEntry| entry_view(e)))
        } else {
            u64::MAX as nat
        },
{
    let ghost v = entries@.map_values(|e: DirectoryEntry| entry_view(e));
    let mut dirs: usize = 0;
    let mut files: usize = 0;
    let mut total: u64 = 0;
    let mut i: usize = 0;
    while i < entries.len()
        invariant
            i <= entries@.len(),
            v == entries@.map_values(|e: DirectoryEntry| entry_view(e)),
            dirs == dir_count(v.take(i as int)),
            dirs + files == i,
            total == if file_bytes(v.take(i as int)) <= u64::MAX {
                file_bytes(v.take(i as int))
            } else {
                u64::MAX as nat
            },
        decreases entries@.len() - i,
    {
        assert(v.take(i + 1).drop_last() =~= v.take(i as int));
        if entries[i].is_dir {
            dirs = dirs + 1;
        } else {
            files = files + 1;
            total = total.saturating_add(entries[i].size);
        }
        i = i + 1;
    }
    assert(v.take(i as int) =~= v);
    (dirs, files, total)
}

} // verus!
