//! Sequence searching and the conversions between `str`, `String` and
//! character or byte vectors that the rest of the library works on.

use vstd::prelude::*;
use vstd::utf8::{decode_utf8, valid_utf8};

verus! {

/// `pat` occurs in `s` starting at index `i`.
pub open spec fn occurs_at<T>(s: Seq<T>, pat: Seq<T>, i: int) -> bool {
    0 <= i && i + pat.len() <= s.len() && s.subrange(i, i + pat.len()) == pat
}

/// The first index at or after `i` at which `pat` occurs in `s`.
pub open spec fn find_from<T>(s: Seq<T>, pat: Seq<T>, i: int) -> Option<int>
    decreases s.len() + 1 - i,
{
    if i < 0 || i + pat.len() > s.len() {
        None
    } else if occurs_at(s, pat, i) {
        Some(i)
    } else {
        find_from(s, pat, i + 1)
    }
}

/// The first index at which `pat` occurs in `s`.
pub open spec fn find<T>(s: Seq<T>, pat: Seq<T>) -> Option<int> {
    find_from(s, pat, 0)
}

/// `s` begins with `pat`.
pub open spec fn starts_with<T>(s: Seq<T>, pat: Seq<T>) -> bool {
    pat.len() <= s.len() && s.take(pat.len() as int) == pat
}

/// `s` ends with `pat`.
pub open spec fn ends_with<T>(s: Seq<T>, pat: Seq<T>) -> bool {
    pat.len() <= s.len() && s.skip(s.len() - pat.len()) == pat
}

/// What a search result means: the match is the first one at or after `i`.
pub proof fn lemma_find_from<T>(s: Seq<T>, pat: Seq<T>, i: int)
    requires
        0 <= i,
    ensures
        match find_from(s, pat, i) {
            Some(k) => i <= k && occurs_at(s, pat, k) && forall|j: int|
                i <= j < k ==> !#[trigger] occurs_at(s, pat, j),
            None => forall|j: int| i <= j ==> !#[trigger] occurs_at(s, pat, j),
        },
    decreases s.len() + 1 - i,
{
    if i + pat.len() > s.len() {
    } else if occurs_at(s, pat, i) {
    } else {
        lemma_find_from(s, pat, i + 1);
    }
}

/// Whether `pat` occurs in `s` at `i`, compared element by element.
fn chars_match_at(s: &[char], pat: &[char], i: usize) -> (r: bool)
    requires
        i + pat@.len() <= s@.len(),
    ensures
        r == occurs_at(s@, pat@, i as int),
{
    let n = s.len();
    let mut j: usize = 0;
    while j < pat.len()
        invariant
            n == s@.len(),
            i + pat@.len() <= s@.len(),
            j <= pat@.len(),
            forall|k: int| 0 <= k < j ==> s@[i + k] == pat@[k],
        decreases pat@.len() - j,
    {
        if s[i + j] != pat[j] {
            assert(s@.subrange(i as int, i + pat@.len())[j as int] != pat@[j as int]);
            return false;
        }
        j = j + 1;
    }
    assert(s@.subrange(i as int, i + pat@.len()) =~= pat@);
    true
}

/// Whether `pat` occurs in `s` at `i`, compared byte by byte.
pub fn bytes_match_at(s: &[u8], pat: &[u8], i: usize) -> (r: bool)
    requires
        i + pat@.len() <= s@.len(),
    ensures
        r == occurs_at(s@, pat@, i as int),
{
    let n = s.len();
    let mut j: usize = 0;
    while j < pat.len()
        invariant
            n == s@.len(),
            i + pat@.len() <= s@.len(),
            j <= pat@.len(),
            forall|k: int| 0 <= k < j ==> s@[i + k] == pat@[k],
        decreases pat@.len() - j,
    {
        if s[i + j] != pat[j] {
            assert(s@.subrange(i as int, i + pat@.len())[j as int] != pat@[j as int]);
            return false;
        }
        j = j + 1;
    }
    assert(s@.subrange(i as int, i + pat@.len()) =~= pat@);
    true
}

/// The first index at or after `from` at which `pat` occurs in `s`.
pub fn find_chars(s: &[char], pat: &[char], from: usize) -> (r: Option<usize>)
    ensures
        r matches Some(k) ==> find_from(s@, pat@, from as int) == Some(k as int),
        r is None ==> find_from(s@, pat@, from as int) is None,
{
    let n = s.len();
    let mut i = from;
    while i <= n && pat.len() <= n - i
        invariant
            n == s@.len(),
            from <= i,
            find_from(s@, pat@, from as int) == find_from(s@, pat@, i as int),
        decreases s@.len() + 1 - i,
    {
        if chars_match_at(s, pat, i) {
            return Some(i);
        }
        if i == n {
            assert(find_from(s@, pat@, i + 1) is None);
            return None;
        }
        i = i + 1;
    }
    None
}

/// The first index at or after `from` at which `pat` occurs in `s`.
pub fn find_bytes(s: &[u8], pat: &[u8], from: usize) -> (r: Option<usize>)
    ensures
        r matches Some(k) ==> find_from(s@, pat@, from as int) == Some(k as int),
        r is None ==> find_from(s@, pat@, from as int) is None,
{
    let n = s.len();
    let mut i = from;
    while i <= n && pat.len() <= n - i
        invariant
            n == s@.len(),
            from <= i,
            find_from(s@, pat@, from as int) == find_from(s@, pat@, i as int),
        decreases s@.len() + 1 - i,
    {
        if bytes_match_at(s, pat, i) {
            return Some(i);
        }
        if i == n {
            assert(find_from(s@, pat@, i + 1) is None);
            return None;
        }
        i = i + 1;
    }
    None
}

/// Whether `s` begins with `pat`.
pub fn chars_start_with(s: &[char], pat: &[char]) -> (r: bool)
    ensures
        r == starts_with(s@, pat@),
{
    if pat.len() > s.len() {
        return false;
    }
    let r = chars_match_at(s, pat, 0);
    assert(s@.subrange(0, pat@.len() as int) == s@.take(pat@.len() as int));
    r
}

/// Whether `s` ends with `pat`.
pub fn chars_end_with(s: &[char], pat: &[char]) -> (r: bool)
    ensures
        r == ends_with(s@, pat@),
{
    if pat.len() > s.len() {
        return false;
    }
    let i = s.len() - pat.len();
    let r = chars_match_at(s, pat, i);
    assert(s@.subrange(i as int, s@.len() as int) == s@.skip(i as int));
    r
}

/// The characters of `s`, in order.
///
/// Relies on `str::chars`, collected into a vector.
#[verifier::external_body]
pub(crate) fn chars_of(s: &str) -> (r: Vec<char>)
    ensures
        r@ == s@,
{
    s.chars().collect()
}

/// The string made of the characters `cs`.
///
/// Relies on `String: FromIterator<&char>`.
#[verifier::external_body]
pub(crate) fn string_of(cs: &[char]) -> (r: String)
    ensures
        r@ == cs@,
{
    cs.iter().collect()
}

/// What `str::to_lowercase` gives for a string of these characters.
pub uninterp spec fn lower_of(s: Seq<char>) -> Seq<char>;

/// Relies on `str::to_lowercase`: Unicode lower-casing, a function of the
/// characters alone.
#[verifier::external_body]
pub(crate) fn lowercase(s: &[char]) -> (r: Vec<char>)
    ensures
        r@ == lower_of(s@),
{
    s.iter().collect::<String>().to_lowercase().chars().collect()
}

/// What `String::from_utf8_lossy` gives for these bytes.
pub uninterp spec fn lossy_of(b: Seq<u8>) -> Seq<char>;

/// Relies on `String::from_utf8_lossy`: invalid sequences become U+FFFD, and
/// valid UTF-8 is decoded as it stands.
#[verifier::external_body]
pub(crate) fn lossy_utf8(b: &[u8]) -> (r: Vec<char>)
    ensures
        r@ == lossy_of(b@),
        valid_utf8(b@) ==> r@ == decode_utf8(b@),
{
    String::from_utf8_lossy(b).chars().collect()
}

/// `char::is_whitespace`: the Unicode `White_Space` characters.
pub open spec fn is_whitespace(c: char) -> bool {
    let u = c as u32;
    (9 <= u <= 13) || u == 32 || u == 0x85 || u == 0xA0 || u == 0x1680 || (0x2000 <= u <= 0x200A)
        || u == 0x2028 || u == 0x2029 || u == 0x202F || u == 0x205F || u == 0x3000
}

/// Whether `c` is Unicode white space.
pub fn is_whitespace_exec(c: char) -> (r: bool)
    ensures
        r == is_whitespace(c),
{
    let u = c as u32;
    (9 <= u && u <= 13) || u == 32 || u == 0x85 || u == 0xA0 || u == 0x1680 || (0x2000 <= u && u
        <= 0x200A) || u == 0x2028 || u == 0x2029 || u == 0x202F || u == 0x205F || u == 0x3000
}

/// `s` without the leading characters that satisfy `p`.
pub open spec fn trim_start_where(s: Seq<char>, p: spec_fn(char) -> bool) -> Seq<char>
    decreases s.len(),
{
    if s.len() > 0 && p(s[0]) {
        trim_start_where(s.drop_first(), p)
    } else {
        s
    }
}

/// `s` without the trailing characters that satisfy `p`.
pub open spec fn trim_end_where(s: Seq<char>, p: spec_fn(char) -> bool) -> Seq<char>
    decreases s.len(),
{
    if s.len() > 0 && p(s.last()) {
        trim_end_where(s.drop_last(), p)
    } else {
        s
    }
}

/// `s` without the characters satisfying `p` at either end.
pub open spec fn trim_where(s: Seq<char>, p: spec_fn(char) -> bool) -> Seq<char> {
    trim_end_where(trim_start_where(s, p), p)
}

/// White space, as a predicate.
pub open spec fn whitespace_pred() -> spec_fn(char) -> bool {
    |x: char| is_whitespace(x)
}

/// Being `c`, as a predicate.
pub open spec fn char_pred(c: char) -> spec_fn(char) -> bool {
    |x: char| x == c
}

/// `str::trim`: white space removed at both ends.
pub open spec fn trim_ws(s: Seq<char>) -> Seq<char> {
    trim_where(s, whitespace_pred())
}

/// `str::trim_matches(c)`: every `c` removed at both ends.
pub open spec fn trim_char(s: Seq<char>, c: char) -> Seq<char> {
    trim_where(s, char_pred(c))
}

fn trimmed_here(x: char, ws: bool, c: char) -> (r: bool)
    ensures
        r == if ws {
            is_whitespace(x)
        } else {
            x == c
        },
{
    if ws {
        is_whitespace_exec(x)
    } else {
        x == c
    }
}

/// The bounds `(a, b)` of what is left of `s[lo..hi]` once characters that
/// are white space (`ws`) or equal to `c` (otherwise) are trimmed at both ends.
fn trim_bounds(s: &[char], lo: usize, hi: usize, ws: bool, c: char) -> (r: (usize, usize))
    requires
        lo <= hi <= s@.len(),
    ensures
        lo <= r.0 <= r.1 <= hi,
        ws ==> s@.subrange(r.0 as int, r.1 as int) == trim_ws(s@.subrange(lo as int, hi as int)),
        !ws ==> s@.subrange(r.0 as int, r.1 as int) == trim_char(
            s@.subrange(lo as int, hi as int),
            c,
        ),
{
    let ghost p: spec_fn(char) -> bool = if ws {
        whitespace_pred()
    } else {
        char_pred(c)
    };
    let ghost t = s@.subrange(lo as int, hi as int);
    let mut a = lo;
    assert(t.skip(0) =~= t);
    while a < hi && trimmed_here(s[a], ws, c)
        invariant
            lo <= a <= hi <= s@.len(),
            p == (if ws {
                whitespace_pred()
            } else {
                char_pred(c)
            }),
            t == s@.subrange(lo as int, hi as int),
            trim_start_where(t, p) == trim_start_where(t.skip(a - lo), p),
        decreases hi - a,
    {
        assert(p(s@[a as int]));
        assert(t.skip(a - lo).drop_first() =~= t.skip(a + 1 - lo));
        a = a + 1;
    }
    assert(trim_start_where(t.skip(a - lo), p) == t.skip(a - lo));
    let ghost u = t.skip(a - lo);
    let mut b = hi;
    assert(u.take(u.len() as int) =~= u);
    while b > a && trimmed_here(s[b - 1], ws, c)
        invariant
            lo <= a <= b <= hi <= s@.len(),
            p == (if ws {
                whitespace_pred()
            } else {
                char_pred(c)
            }),
            u == s@.subrange(a as int, hi as int),
            trim_end_where(u, p) == trim_end_where(u.take(b - a), p),
        decreases b - a,
    {
        assert(p(s@[b - 1]));
        assert(u.take(b - a).drop_last() =~= u.take(b - 1 - a));
        b = b - 1;
    }
    assert(u.take(b - a) =~= s@.subrange(a as int, b as int));
    (a, b)
}

/// The characters `s[a..b]` in a vector of their own.
pub fn copy_chars(s: &[char], a: usize, b: usize) -> (r: Vec<char>)
    requires
        a <= b <= s@.len(),
    ensures
        r@ == s@.subrange(a as int, b as int),
{
    let mut r: Vec<char> = Vec::new();
    let mut i = a;
    while i < b
        invariant
            a <= i <= b <= s@.len(),
            r@ == s@.subrange(a as int, i as int),
        decreases b - i,
    {
        r.push(s[i]);
        assert(s@.subrange(a as int, i + 1) =~= s@.subrange(a as int, i as int).push(s@[i as int]));
        i = i + 1;
    }
    r
}

/// The bytes `s[a..b]` in a vector of their own.
pub fn copy_bytes(s: &[u8], a: usize, b: usize) -> (r: Vec<u8>)
    requires
        a <= b <= s@.len(),
    ensures
        r@ == s@.subrange(a as int, b as int),
{
    let mut r: Vec<u8> = Vec::new();
    let mut i = a;
    while i < b
        invariant
            a <= i <= b <= s@.len(),
            r@ == s@.subrange(a as int, i as int),
        decreases b - i,
    {
        r.push(s[i]);
        assert(s@.subrange(a as int, i + 1) =~= s@.subrange(a as int, i as int).push(s@[i as int]));
        i = i + 1;
    }
    r
}

/// `str::trim` on a character slice.
pub fn trim_whitespace(s: &[char]) -> (r: Vec<char>)
    ensures
        r@ == trim_ws(s@),
{
    let (a, b) = trim_bounds(s, 0, s.len(), true, ' ');
    assert(s@.subrange(0, s@.len() as int) =~= s@);
    copy_chars(s, a, b)
}

/// `str::trim_matches(c)` on a character slice.
pub fn trim_matching(s: &[char], c: char) -> (r: Vec<char>)
    ensures
        r@ == trim_char(s@, c),
{
    let (a, b) = trim_bounds(s, 0, s.len(), false, c);
    assert(s@.subrange(0, s@.len() as int) =~= s@);
    copy_chars(s, a, b)
}

/// The number of characters from `i` up to the next `c` or the end.
pub open spec fn run_len(s: Seq<char>, i: int, c: char) -> nat
    decreases s.len() - i,
{
    if i < 0 || i >= s.len() || s[i] == c {
        0
    } else {
        1 + run_len(s, i + 1, c)
    }
}

/// The pieces of `s` from index `i` on, split at every `c`.
pub open spec fn pieces_from(s: Seq<char>, i: int, c: char) -> Seq<Seq<char>>
    decreases s.len() - i,
{
    if i < 0 || i > s.len() {
        seq![]
    } else {
        let e = i + run_len(s, i, c);
        let piece = s.subrange(i, e);
        if e >= s.len() {
            seq![piece]
        } else {
            seq![piece] + pieces_from(s, e + 1, c)
        }
    }
}

/// `str::split(c)`: the pieces between the occurrences of `c`, empty ones
/// included.
pub open spec fn split_on(s: Seq<char>, c: char) -> Seq<Seq<char>> {
    pieces_from(s, 0, c)
}

/// The pieces of `s` between occurrences of `c`, as `split_on` states.
pub fn split_chars(s: &[char], c: char) -> (r: Vec<Vec<char>>)
    ensures
        r@.len() == split_on(s@, c).len(),
        forall|k: int| 0 <= k < r@.len() ==> #[trigger] r@[k]@ == split_on(s@, c)[k],
{
    let n = s.len();
    let mut out: Vec<Vec<char>> = Vec::new();
    let ghost mut g: Seq<Seq<char>> = seq![];
    let mut i: usize = 0;
    loop
        invariant
            n == s@.len(),
            i <= n,
            g + pieces_from(s@, i as int, c) == split_on(s@, c),
            out@.len() == g.len(),
            forall|k: int| 0 <= k < g.len() ==> #[trigger] out@[k]@ == g[k],
        decreases n - i,
    {
        let mut e = i;
        while e < n && s[e] != c
            invariant
                n == s@.len(),
                i <= e <= n,
                run_len(s@, i as int, c) == (e - i) + run_len(s@, e as int, c),
            decreases n - e,
        {
            e = e + 1;
        }
        assert(run_len(s@, e as int, c) == 0);
        let piece = copy_chars(s, i, e);
        let ghost pv = piece@;
        out.push(piece);
        if e >= n {
            proof {
                assert(pieces_from(s@, i as int, c) == seq![pv]);
                g = g.push(pv);
            }
            assert(g =~= split_on(s@, c));
            return out;
        }
        proof {
            assert(pieces_from(s@, i as int, c) == seq![pv] + pieces_from(s@, e + 1, c));
            assert(g.push(pv) + pieces_from(s@, e + 1, c) =~= g + pieces_from(s@, i as int, c));
            g = g.push(pv);
        }
        i = e + 1;
    }
}

} // verus!
