//! Directory listings: which entries are shown and in what order.

use vstd::prelude::*;
use vstd::seq_lib::group_to_multiset_ensures;
use crate::text::{chars_of, lower_of, lowercase};

verus! {

broadcast use group_to_multiset_ensures;

/// One entry of a directory.
#[derive(Debug)]
pub struct DirectoryEntry {
    pub name: String,
    pub is_dir: bool,
    /// Size in bytes (zero where it could not be read).
    pub size: u64,
    /// Seconds since the last modification (zero where unknown).
    pub age: u64,
}

/// An entry as plain values.
pub open spec fn entry_view(e: DirectoryEntry) -> (Seq<char>, bool, u64, u64) {
    (e.name@, e.is_dir, e.size, e.age)
}

/// Entries as plain values.
pub open spec fn entries_view(v: Seq<DirectoryEntry>) -> Seq<(Seq<char>, bool, u64, u64)> {
    v.map_values(|e: DirectoryEntry| entry_view(e))
}

/// Entries whose name starts with a dot are not shown.
pub open spec fn is_hidden(name: Seq<char>) -> bool {
    name.len() > 0 && name[0] == '.'
}

/// The entries of `s` that are shown, in their order.
pub open spec fn visible(s: Seq<(Seq<char>, bool, u64, u64)>) -> Seq<(Seq<char>, bool, u64, u64)>
    decreases s.len(),
{
    if s.len() == 0 {
        seq![]
    } else if is_hidden(s.last().0) {
        visible(s.drop_last())
    } else {
        visible(s.drop_last()).push(s.last())
    }
}

/// Lexicographic order on character sequences, by code point.
pub open spec fn lex_lt(a: Seq<char>, b: Seq<char>) -> bool
    decreases a.len(),
{
    if a.len() == 0 {
        b.len() > 0
    } else if b.len() == 0 {
        false
    } else if a[0] != b[0] {
        (a[0] as u32) < (b[0] as u32)
    } else {
        lex_lt(a.drop_first(), b.drop_first())
    }
}

/// Listing order: directories before files, then names compared without
/// regard to case.
pub open spec fn listed_before(a: (Seq<char>, bool, u64, u64), b: (Seq<char>, bool, u64, u64)) -> bool {
    (a.1 && !b.1) || (a.1 == b.1 && lex_lt(lower_of(a.0), lower_of(b.0)))
}

/// No entry of `s` is listed before one that precedes it.
pub open spec fn in_listing_order(s: Seq<(Seq<char>, bool, u64, u64)>) -> bool {
    forall|i: int, j: int| 0 <= i < j < s.len() ==> !listed_before(#[trigger] s[j], #[trigger] s[i])
}

/// Two entries with the same listing key: both directories or both files,
/// and names equal once lower-cased.
pub open spec fn same_key(a: (Seq<char>, bool, u64, u64), b: (Seq<char>, bool, u64, u64)) -> bool {
    a.1 == b.1 && lower_of(a.0) == lower_of(b.0)
}

/// `out` takes its entries from `all` at the distinct positions `pos`, none
/// of them hidden, and entries with the same key keep the order they had
/// in `all`.
pub open spec fn arranged_from(
    out: Seq<(Seq<char>, bool, u64, u64)>,
    all: Seq<(Seq<char>, bool, u64, u64)>,
    pos: Seq<int>,
) -> bool {
    &&& pos.len() == out.len()
    &&& forall|i: int|
        0 <= i < out.len() ==> 0 <= #[trigger] pos[i] < all.len() && out[i] == all[pos[i]]
            && !is_hidden(out[i].0)
    &&& forall|i: int, j: int| 0 <= i < j < out.len() ==> #[trigger] pos[i] != #[trigger] pos[j]
    &&& forall|i: int, j: int|
        0 <= i < j < out.len() && same_key(#[trigger] out[i], #[trigger] out[j]) ==> pos[i] < pos[j]
}

proof fn lemma_lex_lt_transitive(a: Seq<char>, b: Seq<char>, c: Seq<char>)
    requires
        lex_lt(a, b),
        lex_lt(b, c),
    ensures
        lex_lt(a, c),
    decreases a.len(),
{
    if a.len() > 0 && b.len() > 0 && c.len() > 0 && a[0] == b[0] && b[0] == c[0] {
        lemma_lex_lt_transitive(a.drop_first(), b.drop_first(), c.drop_first());
    }
}

proof fn lemma_lex_lt_irreflexive(a: Seq<char>)
    ensures
        !lex_lt(a, a),
    decreases a.len(),
{
    if a.len() > 0 {
        lemma_lex_lt_irreflexive(a.drop_first());
    }
}

proof fn lemma_listed_before_transitive(
    a: (Seq<char>, bool, u64, u64),
    b: (Seq<char>, bool, u64, u64),
    c: (Seq<char>, bool, u64, u64),
)
    requires
        listed_before(a, b),
        listed_before(b, c),
    ensures
        listed_before(a, c),
{
    if a.1 == b.1 && b.1 == c.1 {
        lemma_lex_lt_transitive(lower_of(a.0), lower_of(b.0), lower_of(c.0));
    }
}

proof fn lemma_lex_lt_total(a: Seq<char>, b: Seq<char>)
    ensures
        lex_lt(a, b) || lex_lt(b, a) || a == b,
    decreases a.len(),
{
    if a.len() > 0 && b.len() > 0 && a[0] == b[0] {
        lemma_lex_lt_total(a.drop_first(), b.drop_first());
        if a.drop_first() == b.drop_first() {
            assert(a =~= seq![a[0]] + a.drop_first());
            assert(b =~= seq![b[0]] + b.drop_first());
        }
    } else if a.len() > 0 && b.len() > 0 {
        assert(a[0] != b[0]);
        vstd::utf8::char_u32_cast(a[0], a[0] as u32);
        vstd::utf8::char_u32_cast(b[0], b[0] as u32);
        assert((a[0] as u32) != (b[0] as u32));
    } else if a.len() == 0 && b.len() == 0 {
        assert(a =~= b);
    }
}

proof fn lemma_listed_before_asymmetric(a: (Seq<char>, bool, u64, u64), b: (Seq<char>, bool, u64, u64))
    requires
        listed_before(a, b),
    ensures
        !listed_before(b, a),
{
    if listed_before(b, a) {
        lemma_listed_before_transitive(a, b, a);
        lemma_lex_lt_irreflexive(lower_of(a.0));
    }
}

/// Entries that are not ordered either way share their listing key, so
/// whatever is listed before one is listed before the other.
proof fn lemma_listed_before_total(a: (Seq<char>, bool, u64, u64), b: (Seq<char>, bool, u64, u64))
    ensures
        listed_before(a, b) || listed_before(b, a) || (a.1 == b.1 && lower_of(a.0) == lower_of(b.0)),
{
    lemma_lex_lt_total(lower_of(a.0), lower_of(b.0));
}

/// Whether `a` comes before `b` by code point.
fn lex_lt_exec(a: &[char], b: &[char]) -> (r: bool)
    ensures
        r == lex_lt(a@, b@),
{
    let mut i: usize = 0;
    assert(a@.skip(0) =~= a@);
    assert(b@.skip(0) =~= b@);
    while i < a.len() && i < b.len() && a[i] == b[i]
        invariant
            i <= a@.len(),
            i <= b@.len(),
            lex_lt(a@, b@) == lex_lt(a@.skip(i as int), b@.skip(i as int)),
        decreases a@.len() - i,
    {
        assert(a@.skip(i as int).drop_first() =~= a@.skip(i + 1));
        assert(b@.skip(i as int).drop_first() =~= b@.skip(i + 1));
        i = i + 1;
    }
    if i == a.len() {
        i < b.len()
    } else if i == b.len() {
        false
    } else {
        (a[i] as u32) < (b[i] as u32)
    }
}

fn listed_before_exec(a: &DirectoryEntry, b: &DirectoryEntry) -> (r: bool)
    ensures
        r == listed_before(entry_view(*a), entry_view(*b)),
{
    if a.is_dir != b.is_dir {
        return a.is_dir;
    }
    let la = lowercase(&chars_of(a.name.as_str()));
    let lb = lowercase(&chars_of(b.name.as_str()));
    lex_lt_exec(&la, &lb)
}

/// The entries that a listing shows, in listing order: hidden entries are
/// left out, and every other entry appears once.
pub fn list_entries(raw: Vec<DirectoryEntry>) -> (r: Vec<DirectoryEntry>)
    ensures
        r@.map_values(|e: DirectoryEntry| entry_view(e)).to_multiset() == visible(
            raw@.map_values(|e: DirectoryEntry| entry_view(e)),
        ).to_multiset(),
        r@.len() == visible(raw@.map_values(|e: DirectoryEntry| entry_view(e))).len(),
        in_listing_order(r@.map_values(|e: DirectoryEntry| entry_view(e))),
        exists|pos: Seq<int>| #[trigger] arranged_from(entries_view(r@), entries_view(raw@), pos),
{
    let ghost all = raw@.map_values(|e: DirectoryEntry| entry_view(e));
    let mut rest = raw;
    let mut out: Vec<DirectoryEntry> = Vec::new();
    let ghost mut pos: Seq<int> = seq![];
    while rest.len() > 0
        invariant
            rest@.map_values(|e: DirectoryEntry| entry_view(e)) == all.take(rest@.len() as int),
            rest@.len() <= all.len(),
            arranged_from(out@.map_values(|e: DirectoryEntry| entry_view(e)), all, pos),
            forall|i: int| 0 <= i < pos.len() ==> rest@.len() <= #[trigger] pos[i],
            out@.map_values(|e: DirectoryEntry| entry_view(e)).to_multiset().add(
                visible(rest@.map_values(|e: DirectoryEntry| entry_view(e))).to_multiset(),
            ) == visible(all).to_multiset(),
            in_listing_order(out@.map_values(|e: DirectoryEntry| entry_view(e))),
        decreases rest@.len(),
    {
        let ghost rv = rest@.map_values(|e: DirectoryEntry| entry_view(e));
        let e = rest.pop().unwrap();
        let ghost ev = entry_view(e);
        assert(rest@.map_values(|e: DirectoryEntry| entry_view(e)) =~= rv.drop_last());
        assert(rv.last() == ev);
        let ghost k = rest@.len() as int;
        assert(all.take(k + 1).drop_last() =~= all.take(k));
        assert(all[k] == ev);
        let first = chars_of(e.name.as_str());
        if first.len() > 0 && first[0] == '.' {
            continue;
        }
        assert(visible(rv) == visible(rv.drop_last()).push(ev));
        let ghost ov = out@.map_values(|e: DirectoryEntry| entry_view(e));
        let mut p: usize = 0;
        let mut found = false;
        while !found && p < out.len()
            invariant
                p <= out@.len(),
                ov == out@.map_values(|e: DirectoryEntry| entry_view(e)),
                ev == entry_view(e),
                found ==> p < ov.len() && !listed_before(ov[p as int], ev),
                forall|i: int| 0 <= i < p ==> listed_before(#[trigger] ov[i], ev),
            decreases out@.len() - p + (if found { 0int } else { 1int }),
        {
            if !listed_before_exec(&out[p], &e) {
                found = true;
            } else {
                p = p + 1;
            }
        }
        out.insert(p, e);
        proof {
            let nv = out@.map_values(|e: DirectoryEntry| entry_view(e));
            assert(nv =~= ov.insert(p as int, ev));
            assert forall|i: int, j: int| 0 <= i < j < nv.len() implies !listed_before(
                #[trigger] nv[j],
                #[trigger] nv[i],
            ) by {
                if i < p && j == p {
                    assert(listed_before(ov[i], ev));
                    lemma_listed_before_asymmetric(ov[i], ev);
                } else if i == p && j > p {
                    assert(nv[j] == ov[j - 1]);
                    if listed_before(ov[j - 1], ev) {
                        assert(!listed_before(ov[p as int], ev));
                        if j - 1 > p {
                            assert(!listed_before(ov[j - 1], ov[p as int]));
                            lemma_listed_before_total(ov[p as int], ov[j - 1]);
                            if listed_before(ov[p as int], ov[j - 1]) {
                                lemma_listed_before_transitive(ov[p as int], ov[j - 1], ev);
                            }
                        }
                    }
                } else if i < p && j > p {
                    assert(nv[j] == ov[j - 1]);
                } else if i > p {
                    assert(nv[j] == ov[j - 1]);
                    assert(nv[i] == ov[i - 1]);
                }
            }
            let ov_pos = pos;
            let np = pos.insert(p as int, k);
            assert forall|i: int| 0 <= i < nv.len() implies 0 <= #[trigger] np[i] < all.len()
                && nv[i] == all[np[i]] && !is_hidden(nv[i].0) && k <= np[i] by {
                if i > p {
                    assert(np[i] == ov_pos[i - 1]);
                    assert(nv[i] == ov[i - 1]);
                } else if i < p {
                    assert(np[i] == ov_pos[i]);
                    assert(nv[i] == ov[i]);
                }
            }
            assert forall|i: int, j: int| 0 <= i < j < nv.len() implies #[trigger] np[i]
                != #[trigger] np[j] by {
                if i < p && j > p {
                    assert(np[i] == ov_pos[i] && np[j] == ov_pos[j - 1]);
                } else if i > p {
                    assert(np[i] == ov_pos[i - 1] && np[j] == ov_pos[j - 1]);
                } else if j < p {
                    assert(np[i] == ov_pos[i] && np[j] == ov_pos[j]);
                } else if i == p {
                    assert(np[j] == ov_pos[j - 1]);
                } else {
                    assert(np[i] == ov_pos[i]);
                }
            }
            assert forall|i: int, j: int|
                0 <= i < j < nv.len() && same_key(#[trigger] nv[i], #[trigger] nv[j]) implies np[i]
                < np[j] by {
                if i < p && j > p {
                    assert(np[i] == ov_pos[i] && np[j] == ov_pos[j - 1]);
                    assert(nv[i] == ov[i] && nv[j] == ov[j - 1]);
                } else if i > p {
                    assert(np[i] == ov_pos[i - 1] && np[j] == ov_pos[j - 1]);
                    assert(nv[i] == ov[i - 1] && nv[j] == ov[j - 1]);
                } else if j < p {
                    assert(np[i] == ov_pos[i] && np[j] == ov_pos[j]);
                    assert(nv[i] == ov[i] && nv[j] == ov[j]);
                } else if i == p {
                    assert(np[j] == ov_pos[j - 1]);
                } else {
                    assert(listed_before(ov[i], ev));
                    assert(nv[i] == ov[i] && nv[j] == ev);
                    lemma_lex_lt_irreflexive(lower_of(ev.0));
                }
            }
            pos = np;
            assert(arranged_from(nv, all, pos));
            let w = visible(rv.drop_last());
            assert(w.push(ev).to_multiset() =~= w.to_multiset().insert(ev));
            assert(visible(rv).to_multiset() == visible(rv.drop_last()).to_multiset().insert(ev));
        }
    }
    assert(rest@.map_values(|e: DirectoryEntry| entry_view(e)) =~= Seq::<
        (Seq<char>, bool, u64, u64),
    >::empty());
    proof {
        let ov = out@.map_values(|e: DirectoryEntry| entry_view(e));
        assert(visible(Seq::<(Seq<char>, bool, u64, u64)>::empty()).to_multiset() =~= vstd::multiset::Multiset::empty());
        assert(ov.to_multiset() =~= visible(all).to_multiset());
        assert(ov.to_multiset().len() == visible(all).to_multiset().len());
        assert(arranged_from(ov, all, pos));
        assert(arranged_from(entries_view(out@), entries_view(raw@), pos));
    }
    out
}

/// An empty directory lists no entries.
pub proof fn lemma_empty_directory_lists_nothing()
    ensures
        visible(Seq::<(Seq<char>, bool, u64, u64)>::empty()).len() == 0,
{
}

/// An entry whose name does not start with a dot is among those listed.
pub proof fn lemma_visible_entry_listed(s: Seq<(Seq<char>, bool, u64, u64)>, k: int)
    requires
        0 <= k < s.len(),
        !is_hidden(s[k].0),
    ensures
        visible(s).contains(s[k]),
    decreases s.len(),
{
    if k == s.len() - 1 {
        assert(visible(s) == visible(s.drop_last()).push(s[k]));
        assert(visible(s)[visible(s).len() - 1] == s[k]);
    } else {
        lemma_visible_entry_listed(s.drop_last(), k);
        let w = visible(s.drop_last());
        let j = choose|j: int| 0 <= j < w.len() && w[j] == s[k];
        if is_hidden(s.last().0) {
        } else {
            assert(visible(s)[j] == s[k]);
        }
    }
}

} // verus!
