//! Command-line arguments, and the choice and launch line of a public tunnel.

use vstd::prelude::*;
use crate::page::{decimal, decimal_string, push_chars};
use crate::router::same_chars;
use crate::text::{chars_of, chars_start_with, copy_chars, find, find_chars, is_whitespace, is_whitespace_exec, starts_with, string_of};

verus! {

/// What the command line asks for.
#[derive(Debug)]
pub struct Args {
    pub port: u16,
    /// The directory to serve; the current directory where none is given.
    pub dir: Option<String>,
    pub public: bool,
    /// The user and password every request must present.
    pub auth: Option<(String, String)>,
    pub tls: bool,
}

/// Why the command line gives no server to run.
#[derive(Debug)]
pub enum ArgsError {
    /// Help was asked for, or nothing was given.
    Help,
    /// No port was given.
    MissingPort,
    /// The port is not a number from 0 to 65535.
    InvalidPort(String),
}

/// The value of a string of decimal digits.
pub open spec fn digits_value(d: Seq<char>) -> nat
    decreases d.len(),
{
    if d.len() == 0 {
        0
    } else {
        10 * digits_value(d.drop_last()) + ((d.last() as u32) - 48) as nat
    }
}

/// All characters are ASCII digits.
pub open spec fn all_digits(d: Seq<char>) -> bool {
    forall|i: int| 0 <= i < d.len() ==> 48 <= (#[trigger] d[i]) as u32 <= 57
}

/// A port as `str::parse::<u16>` reads it: an optional `+`, then one or
/// more digits whose value fits in 16 bits.
pub open spec fn port_value(s: Seq<char>) -> Option<u16> {
    let d = if s.len() > 0 && s[0] == '+' {
        s.drop_first()
    } else {
        s
    };
    if d.len() > 0 && all_digits(d) && digits_value(d) <= 65535 {
        Some(digits_value(d) as u16)
    } else {
        None
    }
}

/// Reads a port number.
pub fn parse_port(s: &str) -> (r: Option<u16>)
    ensures
        r == port_value(s@),
{
    let cs = chars_of(s);
    let start: usize = if cs.len() > 0 && cs[0] == '+' {
        1
    } else {
        0
    };
    let ghost d = if cs@.len() > 0 && cs@[0] == '+' {
        cs@.drop_first()
    } else {
        cs@
    };
    assert(d =~= cs@.skip(start as int));
    if start >= cs.len() {
        return None;
    }
    let mut v: u32 = 0;
    let mut i = start;
    while i < cs.len()
        invariant
            cs@ == s@,
            d == (if s@.len() > 0 && s@[0] == '+' {
                s@.drop_first()
            } else {
                s@
            }),
            start <= i <= cs@.len(),
            d == cs@.skip(start as int),
            all_digits(d.take(i - start)),
            v == digits_value(d.take(i - start)),
            v <= 65535,
        decreases cs@.len() - i,
    {
        let c = cs[i] as u32;
        assert(d.take(i + 1 - start).drop_last() =~= d.take(i - start));
        if c < 48 || c > 57 {
            assert(d[i - start] == cs@[i as int]);
            assert(!(48 <= (d[i - start] as u32) <= 57));
            assert(!all_digits(d));
            return None;
        }
        let next = 10 * v + (c - 48);
        assert(next == digits_value(d.take(i + 1 - start)));
        if next > 65535 {
            proof {
                if all_digits(d) {
                    lemma_digits_value_prefix(d, i + 1 - start);
                }
            }
            return None;
        }
        v = next;
        i = i + 1;
    }
    assert(d.take(i - start) =~= d);
    Some(v as u16)
}

/// A number's prefixes are never worth more than the number.
proof fn lemma_digits_value_prefix(d: Seq<char>, k: int)
    requires
        0 <= k <= d.len(),
        all_digits(d),
    ensures
        digits_value(d.take(k)) <= digits_value(d),
    decreases d.len() - k,
{
    if k < d.len() {
        lemma_digits_value_prefix(d, k + 1);
        assert(d.take(k + 1).drop_last() =~= d.take(k));
        assert(48 <= d[k] as u32 <= 57);
        let a = digits_value(d.take(k));
        let b = digits_value(d.take(k + 1));
        assert(b == 10 * a + ((d[k] as u32) - 48) as nat);
        assert(a <= b) by (nonlinear_arith)
            requires
                b == 10 * a + ((d[k] as u32) - 48) as nat,
        ;
    } else {
        assert(d.take(k) =~= d);
    }
}

/// Some argument equals `a`.
pub open spec fn has_arg(raw: Seq<Seq<char>>, a: Seq<char>) -> bool {
    exists|i: int| 0 <= i < raw.len() && raw[i] == a
}

/// Argument `i` is an option or the value of `--auth`, not a positional one.
pub open spec fn skipped(raw: Seq<Seq<char>>, i: int) -> bool {
    starts_with(raw[i], "-"@) || (i >= 1 && raw[i - 1] == "--auth"@)
}

/// The positional arguments among the first `n`, in order.
pub open spec fn positional(raw: Seq<Seq<char>>, n: int) -> Seq<Seq<char>>
    decreases n,
{
    if n <= 0 {
        seq![]
    } else if skipped(raw, n - 1) {
        positional(raw, n - 1)
    } else {
        positional(raw, n - 1).push(raw[n - 1])
    }
}

/// The index of the first argument equal to `a`.
pub open spec fn first_index(raw: Seq<Seq<char>>, a: Seq<char>, i: int) -> Option<int>
    decreases raw.len() - i,
{
    if i < 0 || i >= raw.len() {
        None
    } else if raw[i] == a {
        Some(i)
    } else {
        first_index(raw, a, i + 1)
    }
}

/// The user and password after the first `--auth`: the next argument split
/// at its first colon; none where it has no colon or is missing.
pub open spec fn auth_pair(raw: Seq<Seq<char>>) -> Option<(Seq<char>, Seq<char>)> {
    match first_index(raw, "--auth"@, 0) {
        None => None,
        Some(i) => if i + 1 < raw.len() {
            match find(raw[i + 1], seq![':']) {
                None => None,
                Some(c) => Some((raw[i + 1].take(c), raw[i + 1].skip(c + 1))),
            }
        } else {
            None
        },
    }
}

/// Help is asked for: `--help` or `-h` is given, or nothing is.
pub open spec fn wants_help(raw: Seq<Seq<char>>) -> bool {
    raw.len() == 0 || has_arg(raw, "--help"@) || has_arg(raw, "-h"@)
}

fn arg_is(raw: &Vec<String>, a: &str) -> (r: bool)
    ensures
        r == has_arg(raw@.map_values(|s: String| s@), a@),
{
    let ghost rv = raw@.map_values(|s: String| s@);
    let want = chars_of(a);
    let mut i: usize = 0;
    while i < raw.len()
        invariant
            i <= raw@.len(),
            rv == raw@.map_values(|s: String| s@),
            want@ == a@,
            forall|k: int| 0 <= k < i ==> rv[k] != a@,
        decreases raw@.len() - i,
    {
        if same_chars(&chars_of(raw[i].as_str()), &want) {
            assert(rv[i as int] == a@);
            return true;
        }
        i = i + 1;
    }
    false
}

/// Reads the command line (without the program name).
pub fn parse_args(raw: &Vec<String>) -> (r: Result<Args, ArgsError>)
    ensures
        ({
            let rv = raw@.map_values(|s: String| s@);
            let pos = positional(rv, rv.len() as int);
            if wants_help(rv) {
                r matches Err(ArgsError::Help)
            } else if pos.len() == 0 {
                r matches Err(ArgsError::MissingPort)
            } else {
                match port_value(pos[0]) {
                    None => r matches Err(ArgsError::InvalidPort(p)) && p@ == pos[0],
                    Some(port) => r matches Ok(a) && a.port == port && a.public == (has_arg(
                        rv,
                        "--public"@,
                    ) || has_arg(rv, "-p"@)) && a.tls == has_arg(rv, "--tls"@) && (match auth_pair(
                        rv,
                    ) {
                        None => a.auth is None,
                        Some((u, p)) => a.auth matches Some((au, ap)) && au@ == u && ap@ == p,
                    }) && (if pos.len() > 1 {
                        a.dir matches Some(d) && d@ == pos[1]
                    } else {
                        a.dir is None
                    }),
                }
            }
        }),
{
    let ghost rv = raw@.map_values(|s: String| s@);
    if raw.len() == 0 || arg_is(raw, "--help") || arg_is(raw, "-h") {
        return Err(ArgsError::Help);
    }
    let public = arg_is(raw, "--public") || arg_is(raw, "-p");
    let tls = arg_is(raw, "--tls");
    let dash = chars_of("-");
    let auth_flag = chars_of("--auth");
    let mut pos: Vec<String> = Vec::new();
    let mut auth_at: Option<usize> = None;
    let mut i: usize = 0;
    while i < raw.len()
        invariant
            i <= raw@.len(),
            rv == raw@.map_values(|s: String| s@),
            dash@ == "-"@,
            auth_flag@ == "--auth"@,
            pos@.len() == positional(rv, i as int).len(),
            forall|k: int| 0 <= k < pos@.len() ==> #[trigger] pos@[k]@ == positional(rv, i as int)[k],
            match auth_at {
                None => first_index(rv, "--auth"@, 0) == first_index(rv, "--auth"@, i as int),
                Some(j) => j < i && first_index(rv, "--auth"@, 0) == Some(j as int),
            },
        decreases raw@.len() - i,
    {
        let a = chars_of(raw[i].as_str());
        let is_auth = same_chars(&a, &auth_flag);
        if auth_at.is_none() && is_auth {
            auth_at = Some(i);
        }
        let prev_auth = i >= 1 && same_chars(&chars_of(raw[i - 1].as_str()), &auth_flag);
        if !(chars_start_with(&a, &dash) || prev_auth) {
            pos.push(string_of(&a));
        }
        assert(skipped(rv, i as int) == (starts_with(a@, "-"@) || prev_auth));
        i = i + 1;
    }
    proof {
        if auth_at is None {
            assert(first_index(rv, "--auth"@, i as int) is None);
        }
    }
    if pos.len() == 0 {
        return Err(ArgsError::MissingPort);
    }
    let port = match parse_port(pos[0].as_str()) {
        None => return Err(ArgsError::InvalidPort(string_of(&chars_of(pos[0].as_str())))),
        Some(p) => p,
    };
    let auth = match auth_at {
        None => None,
        Some(j) => {
            if j + 1 < raw.len() {
                let v = chars_of(raw[j + 1].as_str());
                let mut colon: Vec<char> = Vec::new();
                colon.push(':');
                assert(colon@ =~= seq![':']);
                match find_chars(&v, &colon, 0) {
                    None => None,
                    Some(c) => {
                        proof {
                            crate::text::lemma_find_from(v@, colon@, 0);
                        }
                        let vl = v.len();
                        let user = copy_chars(&v, 0, c);
                        let pass = copy_chars(&v, c + 1, vl);
                        assert(user@ =~= v@.take(c as int));
                        assert(pass@ =~= v@.skip(c + 1));
                        Some((string_of(&user), string_of(&pass)))
                    },
                }
            } else {
                None
            }
        },
    };
    let dir = if pos.len() > 1 {
        Some(string_of(&chars_of(pos[1].as_str())))
    } else {
        None
    };
    Ok(Args { port, dir, public, auth, tls })
}

/// The services a server can be made public through.
#[derive(Clone, Copy, Debug, PartialEq, Eq, Structural)]
pub enum TunnelProvider {
    Localtunnel,
    Cloudflared,
    Serveo,
}

impl TunnelProvider {
    /// The provider's name.
    pub fn name(&self) -> (r: &'static str)
        ensures
            r@ == match *self {
                TunnelProvider::Localtunnel => "localtunnel"@,
                TunnelProvider::Cloudflared => "cloudflared"@,
                TunnelProvider::Serveo => "serveo"@,
            },
    {
        match self {
            TunnelProvider::Localtunnel => "localtunnel",
            TunnelProvider::Cloudflared => "cloudflared",
            TunnelProvider::Serveo => "serveo",
        }
    }
}

/// The first provider whose tool is installed, in order of preference.
pub fn pick_tunnel(has_lt: bool, has_cloudflared: bool, has_ssh: bool) -> (r: Option<TunnelProvider>)
    ensures
        r == if has_lt {
            Some(TunnelProvider::Localtunnel)
        } else if has_cloudflared {
            Some(TunnelProvider::Cloudflared)
        } else if has_ssh {
            Some(TunnelProvider::Serveo)
        } else {
            None
        },
{
    if has_lt {
        Some(TunnelProvider::Localtunnel)
    } else if has_cloudflared {
        Some(TunnelProvider::Cloudflared)
    } else if has_ssh {
        Some(TunnelProvider::Serveo)
    } else {
        None
    }
}

/// How a tunnel is started and where its public address shows up.
#[derive(Debug)]
pub struct TunnelCommand {
    pub program: String,
    pub args: Vec<String>,
    /// The address is announced on standard error rather than standard output.
    pub scan_stderr: bool,
    /// Text that the announced address contains.
    pub pattern: String,
}

fn owned(s: &str) -> (r: String)
    ensures
        r@ == s@,
{
    string_of(&chars_of(s))
}

/// The arguments of a tunnel command, as plain values.
pub open spec fn args_view(c: TunnelCommand) -> Seq<Seq<char>> {
    c.args@.map_values(|s: String| s@)
}

/// The command that opens a tunnel of `prov` to local `port`.
pub fn tunnel_command(prov: TunnelProvider, port: u16) -> (r: TunnelCommand)
    ensures
        match prov {
            TunnelProvider::Localtunnel => r.program@ == "lt"@ && args_view(r) == seq![
                "--port"@,
                decimal(port as nat),
            ] && !r.scan_stderr && r.pattern@ == "https://"@,
            TunnelProvider::Cloudflared => r.program@ == "cloudflared"@ && args_view(r) == seq![
                "tunnel"@,
                "--url"@,
                "http://127.0.0.1:"@ + decimal(port as nat),
            ] && r.scan_stderr && r.pattern@ == ".trycloudflare.com"@,
            TunnelProvider::Serveo => r.program@ == "ssh"@ && args_view(r) == seq![
                "-o"@,
                "StrictHostKeyChecking=no"@,
                "-o"@,
                "ServerAliveInterval=60"@,
                "-R"@,
                "80:localhost:"@ + decimal(port as nat),
                "serveo.net"@,
            ] && !r.scan_stderr && r.pattern@ == "https://"@,
        },
{
    let num = chars_of(decimal_string(port as u64).as_str());
    let mut args: Vec<String> = Vec::new();
    match prov {
        TunnelProvider::Localtunnel => {
            args.push(owned("--port"));
            args.push(string_of(&num));
            let r = TunnelCommand { program: owned("lt"), args, scan_stderr: false, pattern: owned("https://") };
            assert(args_view(r) =~= seq!["--port"@, decimal(port as nat)]);
            r
        },
        TunnelProvider::Cloudflared => {
            let mut url = chars_of("http://127.0.0.1:");
            push_chars(&mut url, &num);
            args.push(owned("tunnel"));
            args.push(owned("--url"));
            args.push(string_of(&url));
            let r = TunnelCommand {
                program: owned("cloudflared"),
                args,
                scan_stderr: true,
                pattern: owned(".trycloudflare.com"),
            };
            assert(args_view(r) =~= seq![
                "tunnel"@,
                "--url"@,
                "http://127.0.0.1:"@ + decimal(port as nat),
            ]);
            r
        },
        TunnelProvider::Serveo => {
            let mut fwd = chars_of("80:localhost:");
            push_chars(&mut fwd, &num);
            args.push(owned("-o"));
            args.push(owned("StrictHostKeyChecking=no"));
            args.push(owned("-o"));
            args.push(owned("ServerAliveInterval=60"));
            args.push(owned("-R"));
            args.push(string_of(&fwd));
            args.push(owned("serveo.net"));
            let r = TunnelCommand { program: owned("ssh"), args, scan_stderr: false, pattern: owned("https://") };
            assert(args_view(r) =~= seq![
                "-o"@,
                "StrictHostKeyChecking=no"@,
                "-o"@,
                "ServerAliveInterval=60"@,
                "-R"@,
                "80:localhost:"@ + decimal(port as nat),
                "serveo.net"@,
            ]);
            r
        },
    }
}

/// The number of non-white-space characters from `i` on.
pub open spec fn word_len(s: Seq<char>, i: int) -> nat
    decreases s.len() - i,
{
    if i < 0 || i >= s.len() || is_whitespace(s[i]) {
        0
    } else {
        1 + word_len(s, i + 1)
    }
}

/// A word never runs past the end of the text.
pub proof fn lemma_word_len_bound(s: Seq<char>, i: int)
    requires
        0 <= i,
    ensures
        i + word_len(s, i) <= if i <= s.len() {
            s.len() as int
        } else {
            i
        },
    decreases s.len() - i,
{
    if i < s.len() && !is_whitespace(s[i]) {
        lemma_word_len_bound(s, i + 1);
    }
}

/// The first word (maximal run of non-white-space) from `i` on that
/// contains `pat`.
pub open spec fn word_containing(s: Seq<char>, pat: Seq<char>, i: int) -> Option<Seq<char>>
    decreases s.len() - i,
{
    if i < 0 || i >= s.len() {
        None
    } else if is_whitespace(s[i]) {
        word_containing(s, pat, i + 1)
    } else {
        proof {
            lemma_word_len_bound(s, i + 1);
        }
        let w = s.subrange(i, i + word_len(s, i));
        if find(w, pat) is Some {
            Some(w)
        } else {
            word_containing(s, pat, i + word_len(s, i))
        }
    }
}

/// The first white-space separated word of `line` that contains `pattern`:
/// where a tunnel tool announces its public address.
pub fn find_public_url(line: &str, pattern: &str) -> (r: Option<String>)
    ensures
        match word_containing(line@, pattern@, 0) {
            None => r is None,
            Some(w) => r matches Some(s) && s@ == w,
        },
{
    let s = chars_of(line);
    let pat = chars_of(pattern);
    let n = s.len();
    let mut i: usize = 0;
    while i < n
        invariant
            n == s@.len(),
            s@ == line@,
            i <= n,
            pat@ == pattern@,
            word_containing(s@, pat@, 0) == word_containing(s@, pat@, i as int),
        decreases n - i,
    {
        if is_whitespace_exec(s[i]) {
            i = i + 1;
        } else {
            let mut e = i;
            while e < n && !is_whitespace_exec(s[e])
                invariant
                    n == s@.len(),
                    i <= e <= n,
                    word_len(s@, i as int) == (e - i) + word_len(s@, e as int),
                decreases n - e,
            {
                e = e + 1;
            }
            assert(word_len(s@, e as int) == 0);
            let w = copy_chars(&s, i, e);
            if find_chars(&w, &pat, 0).is_some() {
                return Some(string_of(&w));
            }
            i = e;
        }
    }
    None
}

} // verus!
