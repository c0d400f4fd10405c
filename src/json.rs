//! Tolerant extraction of single fields from small JSON texts: the file list
//! of a download request and the fields of a location lookup. These are no
//! JSON parsers: a missing field gives an empty result, never an error.

use vstd::prelude::*;
use crate::text::{
    chars_of, copy_chars, find, find_chars, find_from, split_chars, split_on, string_of,
    trim_char, trim_matching, trim_whitespace, trim_ws,
};

verus! {

/// The text between `"key":"` and the next quote.
pub open spec fn json_string(json: Seq<char>, key: Seq<char>) -> Option<Seq<char>> {
    let pat = seq!['"'] + key + seq!['"', ':', '"'];
    match find(json, pat) {
        None => None,
        Some(p) => match find_from(json, seq!['"'], p + pat.len()) {
            None => None,
            Some(q) => Some(json.subrange(p + pat.len(), q)),
        },
    }
}

/// The string value of field `key`, read as the text between `"key":"` and
/// the next quote.
pub fn extract_json_string(json: &str, key: &str) -> (r: Option<String>)
    ensures
        match json_string(json@, key@) {
            None => r is None,
            Some(v) => r matches Some(s) && s@ == v,
        },
{
    let j = chars_of(json);
    let mut pat: Vec<char> = Vec::new();
    pat.push('"');
    let mut k = chars_of(key);
    pat.append(&mut k);
    pat.push('"');
    pat.push(':');
    pat.push('"');
    assert(pat@ =~= seq!['"'] + key@ + seq!['"', ':', '"']);
    let mut quote: Vec<char> = Vec::new();
    quote.push('"');
    assert(quote@ =~= seq!['"']);
    let jl = j.len();
    match find_chars(&j, &pat, 0) {
        None => None,
        Some(p) => {
            proof {
                crate::text::lemma_find_from(j@, pat@, 0);
            }
            let start = p + pat.len();
            match find_chars(&j, &quote, start) {
                None => None,
                Some(q) => {
                    proof {
                        crate::text::lemma_find_from(j@, quote@, start as int);
                    }
                    Some(string_of(&copy_chars(&j, start, q)))
                },
            }
        },
    }
}

/// A piece of an array's text once white space and then quotes are trimmed.
pub open spec fn clean_item(p: Seq<char>) -> Seq<char> {
    trim_char(trim_ws(p), '"')
}

/// The cleaned pieces that are not empty, in order.
pub open spec fn kept_items(ps: Seq<Seq<char>>) -> Seq<Seq<char>>
    decreases ps.len(),
{
    if ps.len() == 0 {
        seq![]
    } else if clean_item(ps.last()).len() > 0 {
        kept_items(ps.drop_last()).push(clean_item(ps.last()))
    } else {
        kept_items(ps.drop_last())
    }
}

/// The items of the array that follows `"key"`: the text between the next
/// `[` and the following `]`, split at commas, each piece trimmed of white
/// space and quotes, empty pieces dropped. Empty where any marker is missing.
pub open spec fn json_string_array(json: Seq<char>, key: Seq<char>) -> Seq<Seq<char>> {
    let pat = seq!['"'] + key + seq!['"'];
    match find(json, pat) {
        None => seq![],
        Some(p) => {
            let after_key = json.skip(p + pat.len());
            match find(after_key, seq!['[']) {
                None => seq![],
                Some(b) => {
                    let inner = after_key.skip(b + 1);
                    match find(inner, seq![']']) {
                        None => seq![],
                        Some(e) => kept_items(split_on(inner.take(e), ',')),
                    }
                },
            }
        },
    }
}

fn single(c: char) -> (r: Vec<char>)
    ensures
        r@ == seq![c],
{
    let mut v: Vec<char> = Vec::new();
    v.push(c);
    assert(v@ =~= seq![c]);
    v
}

/// The string items of the array field `key`, as `json_string_array` states.
pub fn extract_json_string_array(json: &str, key: &str) -> (r: Vec<String>)
    ensures
        r@.len() == json_string_array(json@, key@).len(),
        forall|k: int| 0 <= k < r@.len() ==> #[trigger] r@[k]@ == json_string_array(json@, key@)[k],
{
    let j = chars_of(json);
    let mut pat: Vec<char> = Vec::new();
    pat.push('"');
    let mut k = chars_of(key);
    pat.append(&mut k);
    pat.push('"');
    assert(pat@ =~= seq!['"'] + key@ + seq!['"']);
    let p = match find_chars(&j, &pat, 0) {
        None => return Vec::new(),
        Some(p) => p,
    };
    proof {
        crate::text::lemma_find_from(j@, pat@, 0);
    }
    let jl = j.len();
    let after_key = copy_chars(&j, p + pat.len(), jl);
    assert(after_key@ =~= j@.skip(p + pat@.len()));
    let b = match find_chars(&after_key, &single('['), 0) {
        None => return Vec::new(),
        Some(b) => b,
    };
    proof {
        crate::text::lemma_find_from(after_key@, seq!['['], 0);
    }
    let al = after_key.len();
    let inner = copy_chars(&after_key, b + 1, al);
    assert(inner@ =~= after_key@.skip(b + 1));
    let e = match find_chars(&inner, &single(']'), 0) {
        None => return Vec::new(),
        Some(e) => e,
    };
    proof {
        crate::text::lemma_find_from(inner@, seq![']'], 0);
    }
    let body = copy_chars(&inner, 0, e);
    assert(body@ =~= inner@.take(e as int));
    let pieces = split_chars(&body, ',');
    let ghost ps = split_on(body@, ',');
    let mut out: Vec<String> = Vec::new();
    let mut i: usize = 0;
    while i < pieces.len()
        invariant
            i <= pieces@.len(),
            pieces@.len() == ps.len(),
            forall|m: int| 0 <= m < ps.len() ==> #[trigger] pieces@[m]@ == ps[m],
            out@.len() == kept_items(ps.take(i as int)).len(),
            forall|m: int| 0 <= m < out@.len() ==> #[trigger] out@[m]@ == kept_items(ps.take(i as int))[m],
        decreases pieces@.len() - i,
    {
        assert(ps.take(i + 1).drop_last() =~= ps.take(i as int));
        assert(ps.take(i + 1).last() == ps[i as int]);
        let t = trim_matching(&trim_whitespace(&pieces[i]), '"');
        if t.len() > 0 {
            out.push(string_of(&t));
        }
        i = i + 1;
    }
    assert(ps.take(i as int) =~= ps);
    out
}

/// Addresses that are never looked up: loopback, private and link-local.
pub open spec fn is_local_address(ip: Seq<char>) -> bool {
    crate::text::starts_with(ip, "127."@) || crate::text::starts_with(ip, "10."@)
        || crate::text::starts_with(ip, "192.168."@) || crate::text::starts_with(ip, "172."@) || ip
        == "::1"@ || crate::text::starts_with(ip, "fe80"@)
}

/// Whether the address `ip` is local, so that no location is looked up.
pub fn is_local_ip(ip: &str) -> (r: bool)
    ensures
        r == is_local_address(ip@),
{
    let s = chars_of(ip);
    let one = chars_of("::1");
    crate::text::chars_start_with(&s, &chars_of("127.")) || crate::text::chars_start_with(
        &s,
        &chars_of("10."),
    ) || crate::text::chars_start_with(&s, &chars_of("192.168."))
        || crate::text::chars_start_with(&s, &chars_of("172.")) || crate::router::same_chars(
        &s,
        &one,
    ) || crate::text::chars_start_with(&s, &chars_of("fe80"))
}

/// The place a location lookup answered with: `city, country`, the country
/// alone where the city is empty, nothing where both are empty or missing.
pub open spec fn location_text(body: Seq<char>) -> Option<Seq<char>> {
    match (json_string(body, "city"@), json_string(body, "country"@)) {
        (Some(city), Some(country)) => if city.len() == 0 && country.len() == 0 {
            None
        } else if city.len() == 0 {
            Some(country)
        } else {
            Some(city + ", "@ + country)
        },
        _ => None,
    }
}

/// The place named in a location lookup's answer.
pub fn location_label(body: &str) -> (r: Option<String>)
    ensures
        match location_text(body@) {
            None => r is None,
            Some(t) => r matches Some(s) && s@ == t,
        },
{
    let city = match extract_json_string(body, "city") {
        None => return None,
        Some(c) => c,
    };
    let country = match extract_json_string(body, "country") {
        None => return None,
        Some(c) => c,
    };
    let cc = chars_of(city.as_str());
    let nc = chars_of(country.as_str());
    if cc.len() == 0 && nc.len() == 0 {
        return None;
    }
    if cc.len() == 0 {
        return Some(country);
    }
    let mut out = cc;
    let mut sep = chars_of(", ");
    out.append(&mut sep);
    let mut rest = nc;
    out.append(&mut rest);
    Some(string_of(&out))
}

} // verus!
