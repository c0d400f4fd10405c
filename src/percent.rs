//! Percent-encoding of URL path pieces, and the lenient decoding that
//! request paths go through.

use vstd::prelude::*;
use vstd::utf8::{decode_utf8, encode_utf8, valid_utf8};
use crate::text::{chars_of, lossy_of, lossy_utf8, string_of};

verus! {

/// The value of an ASCII hexadecimal digit.
pub open spec fn hex_value(b: u8) -> Option<u8> {
    if 48 <= b <= 57 {
        Some((b - 48) as u8)
    } else if 65 <= b <= 70 {
        Some((b - 55) as u8)
    } else if 97 <= b <= 102 {
        Some((b - 87) as u8)
    } else {
        None
    }
}

/// Two bytes read as a base-16 number the way `u8::from_str_radix` reads
/// them: two hex digits, or a plus sign followed by one.
pub open spec fn hex_pair(a: u8, b: u8) -> Option<u8> {
    if a == 43 {
        hex_value(b)
    } else {
        match (hex_value(a), hex_value(b)) {
            (Some(x), Some(y)) => Some((16 * x + y) as u8),
            _ => None,
        }
    }
}

/// Percent-decoding of `b` from index `i` on: `%` and two digits that read
/// as a byte become that byte, everything else is kept.
pub open spec fn decode_from(b: Seq<u8>, i: int) -> Seq<u8>
    decreases b.len() - i,
{
    if i < 0 || i >= b.len() {
        seq![]
    } else if b[i] == 37 && i + 2 < b.len() && hex_pair(b[i + 1], b[i + 2]) is Some {
        seq![hex_pair(b[i + 1], b[i + 2])->0] + decode_from(b, i + 3)
    } else {
        seq![b[i]] + decode_from(b, i + 1)
    }
}

/// The percent-decoded form of a byte string.
pub open spec fn percent_decoded(b: Seq<u8>) -> Seq<u8> {
    decode_from(b, 0)
}

/// The text a percent-encoded string decodes to: the decoded bytes read as
/// UTF-8, with invalid sequences replaced where there are any.
pub open spec fn decoded_text(s: Seq<char>) -> Seq<char> {
    let b = percent_decoded(encode_utf8(s));
    if valid_utf8(b) {
        decode_utf8(b)
    } else {
        lossy_of(b)
    }
}

/// Bytes that stand for themselves in an encoded path piece.
pub open spec fn is_unreserved(b: u8) -> bool {
    (65 <= b <= 90) || (97 <= b <= 122) || (48 <= b <= 57) || b == 45 || b == 95 || b == 46
        || b == 126
}

/// The ASCII code of the upper-case hexadecimal digit for `d < 16`.
pub open spec fn hex_digit_byte(d: u8) -> u8 {
    if d < 10 {
        (d + 48) as u8
    } else {
        (d + 55) as u8
    }
}

/// The bytes that one byte is encoded as: itself where it is unreserved,
/// `%XX` otherwise.
pub open spec fn encoded_piece(x: u8) -> Seq<u8> {
    if is_unreserved(x) {
        seq![x]
    } else {
        seq![37u8, hex_digit_byte(x / 16), hex_digit_byte(x % 16)]
    }
}

/// The percent-encoded form of `b`, as bytes.
pub open spec fn encoded_bytes(b: Seq<u8>) -> Seq<u8>
    decreases b.len(),
{
    if b.len() == 0 {
        seq![]
    } else {
        encoded_piece(b[0]) + encoded_bytes(b.drop_first())
    }
}

/// The percent-encoded form of `b`, as (ASCII) text.
pub open spec fn percent_encoded(b: Seq<u8>) -> Seq<char> {
    encoded_bytes(b).map_values(|x: u8| x as char)
}

fn hex_digit_exec(d: u8) -> (c: u8)
    requires
        d < 16,
    ensures
        c == hex_digit_byte(d),
{
    if d < 10 {
        d + 48
    } else {
        d + 55
    }
}

/// Encodes every byte of `input` outside `A-Z a-z 0-9 - _ . ~` as `%XX`.
pub fn percent_encode(input: &str) -> (r: String)
    ensures
        r@ == percent_encoded(encode_utf8(input@)),
{
    let b = input.as_bytes();
    let n = b.len();
    let mut i: usize = n;
    let mut tail: Vec<u8> = Vec::new();
    // Built back to front so that the result follows the recursion directly.
    while i > 0
        invariant
            n == b@.len(),
            i <= n,
            b@ == encode_utf8(input@),
            tail@ == encoded_bytes(b@.skip(i as int)),
        decreases i,
    {
        i = i - 1;
        let x = b[i];
        assert(b@.skip(i as int).drop_first() =~= b@.skip(i + 1));
        let mut piece: Vec<u8> = Vec::new();
        if (65 <= x && x <= 90) || (97 <= x && x <= 122) || (48 <= x && x <= 57) || x == 45 || x
            == 95 || x == 46 || x == 126 {
            piece.push(x);
        } else {
            piece.push(37);
            piece.push(hex_digit_exec(x / 16));
            piece.push(hex_digit_exec(x % 16));
        }
        assert(piece@ =~= encoded_piece(x));
        piece.append(&mut tail);
        tail = piece;
        assert(tail@ =~= encoded_bytes(b@.skip(i as int)));
    }
    assert(b@.skip(0) =~= b@);
    let mut out: Vec<char> = Vec::new();
    let mut k: usize = 0;
    while k < tail.len()
        invariant
            k <= tail@.len(),
            out@ == tail@.take(k as int).map_values(|x: u8| x as char),
        decreases tail@.len() - k,
    {
        out.push(tail[k] as char);
        assert(tail@.take(k + 1).map_values(|x: u8| x as char) =~= tail@.take(k as int).map_values(
            |x: u8| x as char,
        ).push(tail@[k as int] as char));
        k = k + 1;
    }
    assert(tail@.take(k as int) =~= tail@);
    string_of(&out)
}

fn hex_value_exec(b: u8) -> (r: Option<u8>)
    ensures
        r == hex_value(b),
{
    if 48 <= b && b <= 57 {
        Some(b - 48)
    } else if 65 <= b && b <= 70 {
        Some(b - 55)
    } else if 97 <= b && b <= 102 {
        Some(b - 87)
    } else {
        None
    }
}

fn hex_pair_exec(a: u8, b: u8) -> (r: Option<u8>)
    ensures
        r == hex_pair(a, b),
{
    if a == 43 {
        hex_value_exec(b)
    } else {
        match (hex_value_exec(a), hex_value_exec(b)) {
            (Some(x), Some(y)) => {
                assert(x < 16 && y < 16);
                Some(16 * x + y)
            },
            _ => None,
        }
    }
}

/// The bytes that percent-decoding `b` gives.
pub fn percent_decode_bytes(b: &[u8]) -> (r: Vec<u8>)
    ensures
        r@ == percent_decoded(b@),
{
    let n = b.len();
    let mut out: Vec<u8> = Vec::new();
    let mut i: usize = 0;
    while i < n
        invariant
            n == b@.len(),
            i <= n,
            out@ + decode_from(b@, i as int) == percent_decoded(b@),
        decreases n - i,
    {
        if b[i] == 37 && n - i > 2 {
            if let Some(v) = hex_pair_exec(b[i + 1], b[i + 2]) {
                assert(out@.push(v) + decode_from(b@, i + 3) =~= out@ + decode_from(b@, i as int));
                out.push(v);
                i = i + 3;
                continue;
            }
        }
        assert(out@.push(b@[i as int]) + decode_from(b@, i + 1) =~= out@ + decode_from(
            b@,
            i as int,
        ));
        out.push(b[i]);
        i = i + 1;
    }
    assert(out@ =~= out@ + decode_from(b@, i as int));
    out
}

/// Decodes `%XX` sequences in `input`; what does not decode is kept, and the
/// bytes are read back as UTF-8 with invalid sequences replaced.
pub fn percent_decode(input: &str) -> (r: String)
    ensures
        r@ == decoded_text(input@),
{
    let bytes = percent_decode_bytes(input.as_bytes());
    let cs = lossy_utf8(&bytes);
    string_of(&cs)
}

/// Decoding from index `i` reads only what stands from `i` on.
proof fn lemma_decode_from_skip(s: Seq<u8>, i: int)
    requires
        0 <= i <= s.len(),
    ensures
        decode_from(s, i) == decode_from(s.skip(i), 0),
    decreases s.len() - i,
{
    let t = s.skip(i);
    if i < s.len() {
        if s[i] == 37 && i + 2 < s.len() && hex_pair(s[i + 1], s[i + 2]) is Some {
            lemma_decode_from_skip(s, i + 3);
            lemma_decode_from_skip(t, 3);
            assert(t.skip(3) =~= s.skip(i + 3));
        } else {
            lemma_decode_from_skip(s, i + 1);
            lemma_decode_from_skip(t, 1);
            assert(t.skip(1) =~= s.skip(i + 1));
        }
    } else {
        assert(t =~= Seq::<u8>::empty());
    }
}

proof fn lemma_hex_digit_reads_back(d: u8)
    requires
        d < 16,
    ensures
        hex_value(hex_digit_byte(d)) == Some(d),
        hex_digit_byte(d) != 43,
{
}

/// Decoding undoes encoding, byte for byte.
proof fn lemma_decode_encoded_bytes(b: Seq<u8>)
    ensures
        percent_decoded(encoded_bytes(b)) == b,
    decreases b.len(),
{
    if b.len() > 0 {
        let x = b[0];
        let rest = encoded_bytes(b.drop_first());
        let e = encoded_bytes(b);
        assert(e == encoded_piece(x) + rest);
        lemma_decode_encoded_bytes(b.drop_first());
        if is_unreserved(x) {
            lemma_decode_from_skip(e, 1);
            assert(e.skip(1) =~= rest);
        } else {
            lemma_hex_digit_reads_back(x / 16);
            lemma_hex_digit_reads_back(x % 16);
            assert(16 * (x / 16) + x % 16 == x);
            assert(hex_pair(e[1], e[2]) == Some(x));
            lemma_decode_from_skip(e, 3);
            assert(e.skip(3) =~= rest);
        }
        assert(seq![x] + b.drop_first() =~= b);
    }
}

proof fn lemma_encoded_bytes_ascii(b: Seq<u8>)
    ensures
        forall|i: int| 0 <= i < encoded_bytes(b).len() ==> #[trigger] encoded_bytes(b)[i] < 128,
    decreases b.len(),
{
    if b.len() > 0 {
        lemma_encoded_bytes_ascii(b.drop_first());
        let p = encoded_piece(b[0]);
        let rest = encoded_bytes(b.drop_first());
        assert(encoded_bytes(b) == p + rest);
        assert forall|i: int| 0 <= i < encoded_bytes(b).len() implies #[trigger] encoded_bytes(b)[i] < 128 by {
            if i >= p.len() {
                assert(encoded_bytes(b)[i] == rest[i - p.len()]);
            }
        }
    }
}

/// The encoded text is ASCII, so its UTF-8 bytes are the encoded bytes.
proof fn lemma_encoded_text_bytes(b: Seq<u8>)
    ensures
        encode_utf8(percent_encoded(b)) == encoded_bytes(b),
{
    let e = encoded_bytes(b);
    let t = percent_encoded(b);
    lemma_encoded_bytes_ascii(b);
    assert(vstd::utf8::is_ascii_chars(t)) by {
        assert forall|i: int| 0 <= i < t.len() implies '\0' <= #[trigger] t[i] <= '\u{7f}' by {
            assert(e[i] < 128);
        }
    }
    vstd::utf8::is_ascii_chars_encode_utf8(t);
    assert forall|i: int| 0 <= i < e.len() implies #[trigger] encode_utf8(t)[i] == e[i] by {
        assert(t[i] as u8 == encode_utf8(t)[i]);
    }
    assert(encode_utf8(t) =~= e);
}

/// Decoding what `percent_encode` gives returns the original text.
pub proof fn lemma_decode_inverts_encode(s: Seq<char>)
    ensures
        decoded_text(percent_encoded(encode_utf8(s))) == s,
{
    lemma_encoded_text_bytes(encode_utf8(s));
    lemma_decode_encoded_bytes(encode_utf8(s));
    vstd::utf8::encode_utf8_valid_utf8(s);
    vstd::utf8::encode_utf8_decode_utf8(s);
}

} // verus!
