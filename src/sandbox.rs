//! Sandboxed paths: the single place where untrusted request paths become
//! filesystem locations, always inside a fixed root.
//!
//! Resolution runs in two steps around one filesystem call. `plan` decodes the
//! request path and settles `.` and `..` lexically; a path that climbs above
//! the root is refused there, before anything touches the disk. The caller
//! canonicalizes the planned location (resolving symbolic links) and hands the
//! result to `confirm`, which accepts it only if it still lies within the root.
//!
//! Because `..` is settled before symbolic links are resolved, `link/..`
//! names the root itself even where `link` points elsewhere; resolving links
//! first would follow `link` and step up from its target. Either way the
//! result lies within the root: what `confirm` accepts always does.

use vstd::prelude::*;
use crate::percent::{decoded_text, percent_decode};
use crate::text::{chars_of, string_of};

verus! {

/// Why a request path could not be resolved.
#[derive(Clone, Copy, Debug, PartialEq, Eq, Structural)]
pub enum PathError {
    /// The path leads outside the root.
    PathEscape,
    /// Nothing exists at the path.
    NotFound,
}

/// An absolute path.
pub open spec fn is_absolute(p: Seq<char>) -> bool {
    p.len() > 0 && p[0] == '/'
}

/// `p` is `root` itself, or its leading components are exactly those of
/// `root` (a boundary check, not a bare string prefix).
pub open spec fn within(root: Seq<char>, p: Seq<char>) -> bool {
    p == root || (root.len() < p.len() && p.take(root.len() as int) == root && (p[root.len() as int]
        == '/' || (root.len() > 0 && root.last() == '/')))
}

/// A name that can stand as one component below a directory.
pub open spec fn is_component(n: Seq<char>) -> bool {
    n.len() > 0 && n != seq!['.'] && n != seq!['.', '.'] && forall|i: int|
        0 <= i < n.len() ==> n[i] != '/'
}

/// The number of characters from `i` up to the next `/` or the end.
pub open spec fn segment_len(s: Seq<char>, i: int) -> nat
    decreases s.len() - i,
{
    if i < 0 || i >= s.len() || s[i] == '/' {
        0
    } else {
        1 + segment_len(s, i + 1)
    }
}

/// One segment applied to the components reached so far: empty and `.`
/// segments change nothing, `..` drops the last component and fails when
/// there is none left.
pub open spec fn step(acc: Option<Seq<Seq<char>>>, seg: Seq<char>) -> Option<Seq<Seq<char>>> {
    match acc {
        None => None,
        Some(a) => if seg.len() == 0 || seg == seq!['.'] {
            Some(a)
        } else if seg == seq!['.', '.'] {
            if a.len() == 0 {
                None
            } else {
                Some(a.drop_last())
            }
        } else {
            Some(a.push(seg))
        },
    }
}

/// The segments of `s` from index `i` on, applied to `acc` in turn.
pub open spec fn normalize_from(s: Seq<char>, i: int, acc: Option<Seq<Seq<char>>>) -> Option<
    Seq<Seq<char>>,
>
    decreases s.len() - i,
{
    if i < 0 || i > s.len() {
        acc
    } else {
        let e = i + segment_len(s, i);
        let next = step(acc, s.subrange(i, e));
        if e >= s.len() {
            next
        } else {
            normalize_from(s, e + 1, next)
        }
    }
}

/// The components that a relative path names once `.` and `..` are settled,
/// or `None` where it climbs above its starting point.
pub open spec fn normalize(s: Seq<char>) -> Option<Seq<Seq<char>>> {
    normalize_from(s, 0, Some(seq![]))
}

/// The components joined, each preceded by `/`.
pub open spec fn joined(segs: Seq<Seq<char>>) -> Seq<char>
    decreases segs.len(),
{
    if segs.len() == 0 {
        seq![]
    } else {
        joined(segs.drop_last()) + seq!['/'] + segs.last()
    }
}

/// `s` without its leading slashes.
pub open spec fn trim_leading_slashes(s: Seq<char>) -> Seq<char>
    decreases s.len(),
{
    if s.len() > 0 && s[0] == '/' {
        trim_leading_slashes(s.drop_first())
    } else {
        s
    }
}

/// The relative path that a request path stands for: leading slashes
/// dropped, then percent-decoded.
pub open spec fn request_relative(p: Seq<char>) -> Seq<char> {
    decoded_text(trim_leading_slashes(p))
}

/// A decoded relative path that would leave the root: an absolute path, or
/// one whose `..` segments climb above its start.
pub open spec fn escapes_root(d: Seq<char>) -> bool {
    is_absolute(d) || normalize(d) is None
}

/// The first step of resolving request path `p` under `root`: `Ok(None)` for
/// the root itself (an empty path), `Ok(Some(c))` where location `c` is to be
/// looked up, or the error.
pub open spec fn path_plan(root: Seq<char>, p: Seq<char>) -> Result<Option<Seq<char>>, PathError> {
    let d = request_relative(p);
    if d.len() == 0 {
        Ok(None)
    } else if escapes_root(d) {
        Err(PathError::PathEscape)
    } else {
        Ok(Some(root + joined(normalize(d)->0)))
    }
}

/// Where a resolution stands between its two steps.
#[derive(Clone, Debug)]
pub enum PathPlan {
    /// The root itself: no lookup is needed.
    Root,
    /// This location, inside the root, is to be canonicalized.
    Lookup(String),
}

/// A location that lies within the root. Only `new_root`, `confirm` and
/// `child` make one.
#[derive(Debug)]
pub struct SandboxedPath {
    root: String,
    path: String,
}

impl SandboxedPath {
    #[verifier::type_invariant]
    spec fn inv(self) -> bool {
        is_absolute(self.root@) && within(self.root@, self.path@)
    }

    /// The root this path is confined to.
    pub closed spec fn root_view(&self) -> Seq<char> {
        self.root@
    }

    /// The location itself.
    pub closed spec fn path_view(&self) -> Seq<char> {
        self.path@
    }

    /// The root directory itself, given in canonical absolute form.
    pub fn new_root(root: String) -> (r: Option<SandboxedPath>)
        ensures
            r is Some <==> is_absolute(root@),
            r matches Some(p) ==> p.root_view() == root@ && p.path_view() == root@,
    {
        let cs = chars_of(root.as_str());
        if cs.len() == 0 || cs[0] != '/' {
            return None;
        }
        let path = root.clone();
        Some(SandboxedPath { root, path })
    }

    /// The root this path is confined to.
    pub fn root(&self) -> (r: String)
        ensures
            r@ == self.root_view(),
    {
        self.root.clone()
    }

    /// The location itself.
    pub fn path(&self) -> (r: String)
        ensures
            r@ == self.path_view(),
            is_absolute(self.root_view()),
            within(self.root_view(), self.path_view()),
    {
        proof {
            use_type_invariant(self);
        }
        self.path.clone()
    }

    /// Whether this is the root directory itself.
    pub fn is_root(&self) -> (r: bool)
        ensures
            r == (self.path_view() == self.root_view()),
    {
        let a = chars_of(self.path.as_str());
        let b = chars_of(self.root.as_str());
        if a.len() != b.len() {
            assert(a@.len() != b@.len());
            return false;
        }
        let mut i: usize = 0;
        while i < a.len()
            invariant
                a@ == self.path@,
                b@ == self.root@,
                a@.len() == b@.len(),
                i <= a@.len(),
                forall|k: int| 0 <= k < i ==> a@[k] == b@[k],
            decreases a@.len() - i,
        {
            if a[i] != b[i] {
                assert(a@[i as int] != b@[i as int]);
                return false;
            }
            i = i + 1;
        }
        assert(a@ =~= b@);
        true
    }

    /// The first step of resolving `request_path` under this path's root:
    /// decode it and settle `.` and `..` without touching the filesystem.
    pub fn plan(&self, request_path: &str) -> (r: Result<PathPlan, PathError>)
        ensures
            match path_plan(self.root_view(), request_path@) {
                Err(e) => r == Err::<PathPlan, PathError>(e),
                Ok(None) => r matches Ok(PathPlan::Root),
                Ok(Some(c)) => r matches Ok(PathPlan::Lookup(s)) && s@ == c,
            },
    {
        let raw = chars_of(request_path);
        let mut start: usize = 0;
        assert(raw@.skip(0) =~= raw@);
        while start < raw.len() && raw[start] == '/'
            invariant
                start <= raw@.len(),
                trim_leading_slashes(raw@) == trim_leading_slashes(raw@.skip(start as int)),
            decreases raw@.len() - start,
        {
            assert(raw@.skip(start as int).drop_first() =~= raw@.skip(start + 1));
            start = start + 1;
        }
        let trimmed = string_of(&raw.as_slice()[start..raw.len()]);
        assert(trimmed@ =~= raw@.skip(start as int));
        assert(trim_leading_slashes(raw@.skip(start as int)) == raw@.skip(start as int));
        let decoded = chars_of(percent_decode(trimmed.as_str()).as_str());
        if decoded.len() == 0 {
            return Ok(PathPlan::Root);
        }
        if decoded[0] == '/' {
            return Err(PathError::PathEscape);
        }
        match normalize_exec(&decoded) {
            None => Err(PathError::PathEscape),
            Some(segs) => {
                let mut out = chars_of(self.root.as_str());
                let ghost g = normalize(decoded@)->0;
                let mut k: usize = 0;
                while k < segs.len()
                    invariant
                        segs@.len() == g.len(),
                        forall|j: int| 0 <= j < g.len() ==> #[trigger] segs@[j]@ == g[j],
                        k <= g.len(),
                        out@ == self.root@ + joined(g.take(k as int)),
                    decreases g.len() - k,
                {
                    assert(g.take(k + 1).drop_last() =~= g.take(k as int));
                    out.push('/');
                    let mut m: usize = 0;
                    let ghost before = out@;
                    while m < segs[k].len()
                        invariant
                            k < segs@.len(),
                            m <= segs@[k as int]@.len(),
                            out@ == before + segs@[k as int]@.take(m as int),
                        decreases segs@[k as int]@.len() - m,
                    {
                        out.push(segs[k][m]);
                        assert(segs@[k as int]@.take(m + 1) =~= segs@[k as int]@.take(m as int).push(
                            segs@[k as int]@[m as int],
                        ));
                        m = m + 1;
                    }
                    assert(segs@[k as int]@.take(m as int) =~= segs@[k as int]@);
                    assert(out@ =~= self.root@ + joined(g.take(k + 1)));
                    k = k + 1;
                }
                assert(g.take(k as int) =~= g);
                Ok(PathPlan::Lookup(string_of(&out)))
            },
        }
    }

    /// The second step: `canonical` is what canonicalizing the planned
    /// location gave (`None` where that failed). The result is accepted only
    /// where it lies within the root.
    pub fn confirm(&self, plan: &PathPlan, canonical: Option<String>) -> (r: Result<
        SandboxedPath,
        PathError,
    >)
        ensures
            match plan {
                PathPlan::Root => r matches Ok(q) && q.path_view() == self.root_view()
                    && q.root_view() == self.root_view(),
                PathPlan::Lookup(_) => match canonical {
                    None => r == Err::<SandboxedPath, PathError>(PathError::NotFound),
                    Some(c) => if within(self.root_view(), c@) {
                        r matches Ok(q) && q.path_view() == c@ && q.root_view()
                            == self.root_view()
                    } else {
                        r == Err::<SandboxedPath, PathError>(PathError::PathEscape)
                    },
                },
            },
    {
        proof {
            use_type_invariant(self);
        }
        match plan {
            PathPlan::Root => Ok(SandboxedPath { root: self.root.clone(), path: self.root.clone() }),
            PathPlan::Lookup(_) => match canonical {
                None => Err(PathError::NotFound),
                Some(c) => {
                    let root = chars_of(self.root.as_str());
                    let p = chars_of(c.as_str());
                    if is_within(&root, &p) {
                        Ok(SandboxedPath { root: self.root.clone(), path: c })
                    } else {
                        Err(PathError::PathEscape)
                    }
                },
            },
        }
    }

    /// The entry named `name` directly inside this location, where `name` is
    /// a single component (not empty, `.`, `..`, and without `/`).
    pub fn child(&self, name: &str) -> (r: Option<SandboxedPath>)
        ensures
            r is Some <==> is_component(name@),
            r matches Some(q) ==> q.root_view() == self.root_view() && q.path_view()
                == self.path_view() + seq!['/'] + name@,
    {
        proof {
            use_type_invariant(self);
        }
        let n = chars_of(name);
        if n.len() == 0 || (n.len() == 1 && n[0] == '.') || (n.len() == 2 && n[0] == '.' && n[1]
            == '.') {
            proof {
                if n@.len() == 1 {
                    assert(n@ =~= seq!['.']);
                }
                if n@.len() == 2 {
                    assert(n@ =~= seq!['.', '.']);
                }
            }
            return None;
        }
        let mut i: usize = 0;
        while i < n.len()
            invariant
                n@ == name@,
                i <= n@.len(),
                forall|k: int| 0 <= k < i ==> n@[k] != '/',
            decreases n@.len() - i,
        {
            if n[i] == '/' {
                assert(n@[i as int] == '/');
                return None;
            }
            i = i + 1;
        }
        proof {
            if n@.len() == 1 {
                assert(n@ != seq!['.']) by {
                    assert(n@[0] != seq!['.'][0]);
                }
            }
            if n@.len() == 2 {
                assert(n@ != seq!['.', '.']) by {
                    if n@[0] == '.' {
                        assert(n@[1] != seq!['.', '.'][1]);
                    } else {
                        assert(n@[0] != seq!['.', '.'][0]);
                    }
                }
            }
        }
        let mut out = chars_of(self.path.as_str());
        out.push('/');
        let mut j: usize = 0;
        let ghost before = out@;
        while j < n.len()
            invariant
                j <= n@.len(),
                out@ == before + n@.take(j as int),
            decreases n@.len() - j,
        {
            out.push(n[j]);
            assert(n@.take(j + 1) =~= n@.take(j as int).push(n@[j as int]));
            j = j + 1;
        }
        assert(n@.take(j as int) =~= n@);
        let path = string_of(&out);
        proof {
            let r = self.root@;
            let p = self.path@;
            assert(path@ == p + seq!['/'] + n@);
            if p == r {
                assert(path@.take(r.len() as int) =~= r);
            } else {
                assert(path@.take(r.len() as int) =~= p.take(r.len() as int));
            }
        }
        Some(SandboxedPath { root: self.root.clone(), path })
    }
}

/// Whether `p` lies within `root`, component by component.
fn is_within(root: &Vec<char>, p: &Vec<char>) -> (r: bool)
    ensures
        r == within(root@, p@),
{
    let n = root.len();
    if p.len() < n {
        return false;
    }
    let mut i: usize = 0;
    while i < n
        invariant
            n == root@.len(),
            n <= p@.len(),
            i <= n,
            forall|k: int| 0 <= k < i ==> root@[k] == p@[k],
        decreases n - i,
    {
        if root[i] != p[i] {
            assert(p@.take(n as int)[i as int] != root@[i as int]);
            return false;
        }
        i = i + 1;
    }
    assert(p@.take(n as int) =~= root@);
    if p.len() == n {
        assert(p@ =~= root@);
        return true;
    }
    p[n] == '/' || (n > 0 && root[n - 1] == '/')
}

/// Lexical normalisation of a relative path, as `normalize` states it.
fn normalize_exec(s: &Vec<char>) -> (r: Option<Vec<Vec<char>>>)
    ensures
        match normalize(s@) {
            None => r is None,
            Some(segs) => r matches Some(v) && v@.len() == segs.len() && forall|k: int|
                0 <= k < segs.len() ==> #[trigger] v@[k]@ == segs[k],
        },
{
    let n = s.len();
    let mut stack: Vec<Vec<char>> = Vec::new();
    let ghost mut g: Seq<Seq<char>> = seq![];
    let mut i: usize = 0;
    loop
        invariant
            n == s@.len(),
            i <= n,
            normalize(s@) == normalize_from(s@, i as int, Some(g)),
            stack@.len() == g.len(),
            forall|k: int| 0 <= k < g.len() ==> #[trigger] stack@[k]@ == g[k],
        decreases n - i,
    {
        let mut seg: Vec<char> = Vec::new();
        let mut e = i;
        while e < n && s[e] != '/'
            invariant
                n == s@.len(),
                i <= e <= n,
                seg@ == s@.subrange(i as int, e as int),
                segment_len(s@, i as int) == (e - i) + segment_len(s@, e as int),
            decreases n - e,
        {
            seg.push(s[e]);
            assert(s@.subrange(i as int, e + 1) =~= s@.subrange(i as int, e as int).push(s@[e as int]));
            e = e + 1;
        }
        assert(segment_len(s@, e as int) == 0);
        let ghost next = step(Some(g), seg@);
        if seg.len() == 0 || (seg.len() == 1 && seg[0] == '.') {
            proof {
                if seg@.len() == 1 {
                    assert(seg@ =~= seq!['.']);
                }
            }
        } else if seg.len() == 2 && seg[0] == '.' && seg[1] == '.' {
            assert(seg@ =~= seq!['.', '.']);
            if stack.len() == 0 {
                proof {
                    if e < n {
                        lemma_failed_stays_failed(s@, e + 1);
                    }
                }
                return None;
            }
            stack.pop();
            proof {
                g = g.drop_last();
            }
        } else {
            proof {
                if seg@.len() == 1 {
                    assert(seg@ != seq!['.']) by {
                        assert(seg@[0] != seq!['.'][0]);
                    }
                }
                if seg@.len() == 2 {
                    assert(seg@ != seq!['.', '.']) by {
                        if seg@[0] == '.' {
                            assert(seg@[1] != seq!['.', '.'][1]);
                        } else {
                            assert(seg@[0] != seq!['.', '.'][0]);
                        }
                    }
                }
            }
            stack.push(seg);
            proof {
                g = g.push(seg@);
            }
        }
        assert(Some(g) == next);
        if e >= n {
            assert(stack@.len() == g.len());
            return Some(stack);
        }
        i = e + 1;
    }
}

/// Once a `..` has climbed too far, no later segment brings the path back.
proof fn lemma_failed_stays_failed(s: Seq<char>, i: int)
    ensures
        normalize_from(s, i, None) is None,
    decreases s.len() - i,
{
    if 0 <= i <= s.len() {
        let e = i + segment_len(s, i);
        if e < s.len() {
            lemma_failed_stays_failed(s, e + 1);
        }
    }
}

/// Every location that `plan` hands out for lookup lies within the root, so
/// the one filesystem call of a resolution never reaches outside it.
pub proof fn lemma_planned_lookup_within(root: Seq<char>, p: Seq<char>)
    ensures
        path_plan(root, p) matches Ok(Some(c)) ==> within(root, c),
{
    if let Ok(Some(c)) = path_plan(root, p) {
        let segs = normalize(request_relative(p))->0;
        lemma_joined_starts_with_slash(segs);
        if segs.len() == 0 {
            assert(c =~= root);
        } else {
            assert(c.take(root.len() as int) =~= root);
        }
    }
}

proof fn lemma_joined_starts_with_slash(segs: Seq<Seq<char>>)
    ensures
        segs.len() > 0 ==> joined(segs).len() > 0 && joined(segs)[0] == '/',
        segs.len() == 0 ==> joined(segs) == Seq::<char>::empty(),
    decreases segs.len(),
{
    if segs.len() > 0 {
        lemma_joined_starts_with_slash(segs.drop_last());
    }
}

/// A request path whose decoded form climbs above the root, or names an
/// absolute location, is refused with `PathEscape` at the planning step,
/// before any lookup is made.
pub proof fn lemma_traversal_refused(root: Seq<char>, p: Seq<char>)
    requires
        escapes_root(request_relative(p)),
    ensures
        path_plan(root, p) == Err::<Option<Seq<char>>, PathError>(PathError::PathEscape),
{
}

} // verus!
