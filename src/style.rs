//! Terminal presentation: coloured status codes and methods for the request
//! log, the clock shown beside each line, and a QR code drawn with block
//! characters.

use vstd::prelude::*;
use crate::page::{decimal, digit, push_chars, push_decimal, push_str};
use crate::router::same_chars;
use crate::text::{chars_of, string_of};

verus! {

/// How a response status is shown in the log: green for success, yellow
/// for redirects, red for errors, dim otherwise.
pub open spec fn status_text(code: u16) -> Seq<char> {
    if 200 <= code <= 299 {
        "\x1b[42m\x1b[30m\x1b[1m "@ + decimal(code as nat) + " \x1b[0m"@
    } else if 300 <= code <= 399 {
        "\x1b[43m\x1b[30m\x1b[1m "@ + decimal(code as nat) + " \x1b[0m"@
    } else if 400 <= code <= 599 {
        "\x1b[41m\x1b[37m\x1b[1m "@ + decimal(code as nat) + " \x1b[0m"@
    } else {
        "\x1b[2m"@ + decimal(code as nat) + "\x1b[0m"@
    }
}

/// The log form of a response status.
pub fn status_style(code: u16) -> (r: String)
    ensures
        r@ == status_text(code),
{
    let mut out: Vec<char> = Vec::new();
    if 200 <= code && code <= 299 {
        push_str(&mut out, "\x1b[42m\x1b[30m\x1b[1m ");
        push_decimal(&mut out, code as u64);
        push_str(&mut out, " \x1b[0m");
    } else if 300 <= code && code <= 399 {
        push_str(&mut out, "\x1b[43m\x1b[30m\x1b[1m ");
        push_decimal(&mut out, code as u64);
        push_str(&mut out, " \x1b[0m");
    } else if 400 <= code && code <= 599 {
        push_str(&mut out, "\x1b[41m\x1b[37m\x1b[1m ");
        push_decimal(&mut out, code as u64);
        push_str(&mut out, " \x1b[0m");
    } else {
        push_str(&mut out, "\x1b[2m");
        push_decimal(&mut out, code as u64);
        push_str(&mut out, "\x1b[0m");
    }
    string_of(&out)
}

/// The colour a request method is shown in.
pub open spec fn method_colour(m: Seq<char>) -> Seq<char> {
    if m == "GET"@ {
        "\x1b[32m\x1b[1m"@
    } else if m == "POST"@ {
        "\x1b[34m\x1b[1m"@
    } else if m == "PUT"@ {
        "\x1b[33m\x1b[1m"@
    } else if m == "DELETE"@ {
        "\x1b[31m\x1b[1m"@
    } else {
        "\x1b[2m"@
    }
}

/// The log form of a request method.
pub fn method_style(m: &str) -> (r: String)
    ensures
        r@ == method_colour(m@) + m@ + "\x1b[0m"@,
{
    let mc = chars_of(m);
    let mut out: Vec<char> = Vec::new();
    if same_chars(&mc, &chars_of("GET")) {
        push_str(&mut out, "\x1b[32m\x1b[1m");
    } else if same_chars(&mc, &chars_of("POST")) {
        push_str(&mut out, "\x1b[34m\x1b[1m");
    } else if same_chars(&mc, &chars_of("PUT")) {
        push_str(&mut out, "\x1b[33m\x1b[1m");
    } else if same_chars(&mc, &chars_of("DELETE")) {
        push_str(&mut out, "\x1b[31m\x1b[1m");
    } else {
        push_str(&mut out, "\x1b[2m");
    }
    push_chars(&mut out, &mc);
    push_str(&mut out, "\x1b[0m");
    string_of(&out)
}

/// Two decimal digits for `n < 100`.
pub open spec fn two_digits(n: nat) -> Seq<char> {
    seq![digit(n / 10), digit(n % 10)]
}

/// The time of day (UTC) of `now` seconds since the epoch, as dim
/// `HH:MM:SS`.
pub open spec fn clock_text(now: nat) -> Seq<char> {
    "\x1b[2m"@ + two_digits((now / 3600) % 24) + seq![':'] + two_digits((now / 60) % 60) + seq![
        ':',
    ] + two_digits(now % 60) + "\x1b[0m"@
}

fn push_two_digits(out: &mut Vec<char>, n: u64)
    requires
        n < 100,
    ensures
        final(out)@ == old(out)@ + two_digits(n as nat),
{
    out.push(((n / 10) as u8 + 48) as char);
    out.push(((n % 10) as u8 + 48) as char);
}

/// The clock shown at the start of a log line, for `now` seconds since the
/// epoch.
pub fn ts(now: u64) -> (r: String)
    ensures
        r@ == clock_text(now as nat),
{
    let mut out: Vec<char> = Vec::new();
    push_str(&mut out, "\x1b[2m");
    push_two_digits(&mut out, (now / 3600) % 24);
    out.push(':');
    push_two_digits(&mut out, (now / 60) % 60);
    out.push(':');
    push_two_digits(&mut out, now % 60);
    push_str(&mut out, "\x1b[0m");
    string_of(&out)
}

/// What the qrcode crate makes of `data`: the modules row by row (dark as
/// `true`) and the width, or `None` where the data does not fit a code.
pub uninterp spec fn qr_of(data: Seq<u8>) -> Option<(Seq<bool>, nat)>;

/// Relies on `qrcode::QrCode::new` (medium error correction, smallest
/// version that fits), `QrCode::to_colors` and `QrCode::width`: a square of
/// `width * width` modules, row by row.
#[verifier::external_body]
fn qr_encode(data: &[u8]) -> (r: Option<(Vec<bool>, usize)>)
    ensures
        match r {
            None => qr_of(data@) is None,
            Some((m, w)) => qr_of(data@) == Some((m@, w as nat)) && w > 0 && m@.len() == w * w,
        },
{
    let code = qrcode::QrCode::new(data).ok()?;
    let colors = code.to_colors().iter().map(|c| *c == qrcode::Color::Dark).collect();
    Some((colors, code.width()))
}

/// The block character for a top and a bottom module.
pub open spec fn block(top: bool, bottom: bool) -> char {
    if top && bottom {
        '█'
    } else if top {
        '▀'
    } else if bottom {
        '▄'
    } else {
        ' '
    }
}

/// The line that draws rows `y` and `y + 1` of a square code of width `w`
/// (a missing bottom row counts as light), indented by four spaces.
pub open spec fn qr_line(m: Seq<bool>, w: nat, y: int) -> Seq<char> {
    "    "@ + Seq::new(
        w,
        |x: int| block(m[y * w + x], if y + 1 < w { m[(y + 1) * w + x] } else { false }),
    )
}

/// The lines that draw a square code of width `w`, two rows per line.
pub open spec fn qr_text(m: Seq<bool>, w: nat) -> Seq<Seq<char>> {
    Seq::new((w + 1) / 2, |k: int| qr_line(m, w, 2 * k))
}

fn block_exec(top: bool, bottom: bool) -> (c: char)
    ensures
        c == block(top, bottom),
{
    if top && bottom {
        '█'
    } else if top {
        '▀'
    } else if bottom {
        '▄'
    } else {
        ' '
    }
}

/// Draws a square code of `width * width` modules, two rows per line.
pub fn render_qr_lines(modules: &Vec<bool>, width: usize) -> (r: Vec<String>)
    requires
        width > 0,
        modules@.len() == width * width,
    ensures
        r@.len() == qr_text(modules@, width as nat).len(),
        forall|k: int| 0 <= k < r@.len() ==> #[trigger] r@[k]@ == qr_text(modules@, width as nat)[k],
{
    let ghost m = modules@;
    let ghost w = width as nat;
    let total = modules.len();
    let nl = (width - 1) / 2 + 1;
    assert(nl == (w + 1) / 2);
    let mut lines: Vec<String> = Vec::new();
    let mut k: usize = 0;
    while k < nl
        invariant
            m == modules@,
            w == width,
            width > 0,
            total == m.len(),
            m.len() == w * w,
            nl == (w + 1) / 2,
            k <= nl,
            lines@.len() == k,
            forall|j: int| 0 <= j < k ==> #[trigger] lines@[j]@ == qr_text(m, w)[j],
        decreases nl - k,
    {
        let y = 2 * k;
        assert(y < width);
        let mut line = chars_of("    ");
        let ghost head = line@;
        let mut x: usize = 0;
        while x < width
            invariant
                m == modules@,
                w == width,
                total == m.len(),
                m.len() == w * w,
                y < width,
                x <= width,
                head == "    "@,
                line@.len() == head.len() + x,
                forall|j: int| 0 <= j < head.len() ==> #[trigger] line@[j] == head[j],
                forall|j: int|
                    head.len() <= j < head.len() + x ==> #[trigger] line@[j] == block(
                        m[y * w + (j - head.len())],
                        if y + 1 < w {
                            m[(y + 1) * w + (j - head.len())]
                        } else {
                            false
                        },
                    ),
            decreases width - x,
        {
            assert(y * w <= y * w + x < w * w) by (nonlinear_arith)
                requires
                    y < w,
                    x < w,
            ;
            let top = modules[y * width + x];
            let bottom = if y + 1 < width {
                assert((y + 1) * w <= (y + 1) * w + x < w * w) by (nonlinear_arith)
                    requires
                        y + 1 < w,
                        x < w,
                ;
                modules[(y + 1) * width + x]
            } else {
                false
            };
            line.push(block_exec(top, bottom));
            x = x + 1;
        }
        assert(line@ =~= qr_line(m, w, y as int));
        lines.push(string_of(&line));
        k = k + 1;
    }
    assert(lines@.len() == qr_text(m, w).len());
    lines
}

/// The lines that draw `text` as a QR code; none where it does not fit one.
pub fn qr_lines(text: &str) -> (r: Vec<String>)
    ensures
        match qr_of(vstd::utf8::encode_utf8(text@)) {
            None => r@.len() == 0,
            Some((m, w)) => r@.len() == qr_text(m, w).len() && forall|k: int|
                0 <= k < r@.len() ==> #[trigger] r@[k]@ == qr_text(m, w)[k],
        },
{
    match qr_encode(text.as_bytes()) {
        None => Vec::new(),
        Some((m, w)) => render_qr_lines(&m, w),
    }
}

} // verus!
