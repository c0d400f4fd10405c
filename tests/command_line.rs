use leak::cli::{find_public_url, parse_args, parse_port, pick_tunnel, tunnel_command, ArgsError, TunnelProvider};
use leak::style::{ts, method_style, qr_lines, render_qr_lines, status_style};

fn args(v: &[&str]) -> Vec<String> {
    v.iter().map(|s| s.to_string()).collect()
}

#[test]
fn help_and_missing_port() {
    assert!(matches!(parse_args(&args(&[])), Err(ArgsError::Help)));
    assert!(matches!(parse_args(&args(&["8080", "-h"])), Err(ArgsError::Help)));
    assert!(matches!(parse_args(&args(&["--tls"])), Err(ArgsError::MissingPort)));
    match parse_args(&args(&["http"])) {
        Err(ArgsError::InvalidPort(p)) => assert_eq!(p, "http"),
        other => panic!("unexpected {:?}", other),
    }
    assert!(matches!(parse_args(&args(&["70000"])), Err(ArgsError::InvalidPort(_))));
}

#[test]
fn full_command_line() {
    let a = parse_args(&args(&["443", "./dist", "--tls", "--auth", "admin:se:cret", "-p"])).unwrap();
    assert_eq!(a.port, 443);
    assert_eq!(a.dir.as_deref(), Some("./dist"));
    assert!(a.tls);
    assert!(a.public);
    assert_eq!(a.auth, Some(("admin".to_string(), "se:cret".to_string())));
    let b = parse_args(&args(&["--auth", "nocolon", "8080"])).unwrap();
    assert_eq!(b.port, 8080);
    assert_eq!(b.auth, None);
    assert_eq!(b.dir, None);
    assert!(!b.public && !b.tls);
}

#[test]
fn ports() {
    assert_eq!(parse_port("0"), Some(0));
    assert_eq!(parse_port("65535"), Some(65535));
    assert_eq!(parse_port("+80"), Some(80));
    assert_eq!(parse_port("65536"), None);
    assert_eq!(parse_port("+"), None);
    assert_eq!(parse_port(""), None);
    assert_eq!(parse_port("8o"), None);
}

#[test]
fn tunnels() {
    assert_eq!(pick_tunnel(false, true, true), Some(TunnelProvider::Cloudflared));
    assert_eq!(pick_tunnel(false, false, false), None);
    assert_eq!(TunnelProvider::Serveo.name(), "serveo");
    let c = tunnel_command(TunnelProvider::Cloudflared, 8080);
    assert_eq!(c.program, "cloudflared");
    assert_eq!(c.args, vec!["tunnel", "--url", "http://127.0.0.1:8080"]);
    assert!(c.scan_stderr);
    let s = tunnel_command(TunnelProvider::Serveo, 80);
    assert_eq!(s.args[5], "80:localhost:80");
    let l = tunnel_command(TunnelProvider::Localtunnel, 3000);
    assert_eq!(l.args, vec!["--port", "3000"]);
    assert_eq!(
        find_public_url("INF |  https://abc.trycloudflare.com  |", ".trycloudflare.com"),
        Some("https://abc.trycloudflare.com".to_string())
    );
    assert_eq!(find_public_url("your url is: https://x.loca.lt", "https://"), Some("https://x.loca.lt".to_string()));
    assert_eq!(find_public_url("nothing here", "https://"), None);
}

#[test]
fn log_styles() {
    assert_eq!(status_style(200), "\x1b[42m\x1b[30m\x1b[1m 200 \x1b[0m");
    assert_eq!(status_style(404), "\x1b[41m\x1b[37m\x1b[1m 404 \x1b[0m");
    assert_eq!(status_style(101), "\x1b[2m101\x1b[0m");
    assert_eq!(method_style("POST"), "\x1b[34m\x1b[1mPOST\x1b[0m");
    assert_eq!(method_style("PATCH"), "\x1b[2mPATCH\x1b[0m");
    assert_eq!(ts(3600 * 25 + 61), "\x1b[2m01:01:01\x1b[0m");
}

#[test]
fn qr_drawing() {
    let m = vec![true, false, false, true];
    assert_eq!(render_qr_lines(&m, 2), vec!["    ▀▄"]);
    let m3 = vec![true, true, false, false, true, false, true, false, true];
    assert_eq!(render_qr_lines(&m3, 3), vec!["    ▀█ ", "    ▀ ▀"]);
    let lines = qr_lines("http://192.168.1.2:8080");
    assert!(lines.len() >= 10);
    assert!(lines.iter().all(|l| l.starts_with("    ")));
    assert!(lines.iter().any(|l| l.contains('█')));
}
