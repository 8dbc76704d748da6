use headlint::cli::{Args, ArgsError, Output};
use headlint::fetch::{Probe, Response};
use headlint::lint;
use headlint::report::{Level, Section};
use headlint::text::{parse_usize_str, trim_str};
use headlint::tui::{key_of, tab_title, Key, Nav, Press};

fn args(v: &[&str]) -> Result<Args, ArgsError> {
    Args::parse(v.iter().map(|s| s.to_string()).collect())
}

#[test]
fn cli_arguments() {
    let a = args(&["polidog.jp"]).ok().unwrap();
    assert_eq!((a.url.as_str(), a.output, a.validate), ("https://polidog.jp", Output::Tui, false));
    let a = args(&["--validate", "http://x.y"]).ok().unwrap();
    assert_eq!((a.url.as_str(), a.output, a.validate), ("http://x.y", Output::Text, true));
    let a = args(&["--validate", "x", "--json"]).ok().unwrap();
    assert_eq!((a.output, a.validate), (Output::Json, true));
    assert_eq!(args(&["x", "-h"]).err(), Some(ArgsError::Help));
    assert_eq!(args(&["--bogus", "--help"]).err(), Some(ArgsError::Usage));
    assert_eq!(args(&["a", "b"]).err(), Some(ArgsError::Usage));
    assert_eq!(args(&[]).err(), Some(ArgsError::Usage));
    assert_eq!(args(&["--json"]).err(), Some(ArgsError::Usage));
}

#[test]
fn tui_navigation() {
    let mut n = Nav::new();
    assert!(!n.on_key(Key::Prev, 4, 10));
    assert_eq!((n.tab, n.scroll), (3, 0));
    assert!(!n.on_key(Key::Next, 4, 10));
    assert_eq!(n.tab, 0);
    n.on_key(Key::PageDown, 4, 5);
    assert_eq!(n.scroll, 4);
    n.on_key(Key::Down, 4, 5);
    assert_eq!(n.scroll, 4);
    n.on_key(Key::Up, 4, 5);
    assert_eq!(n.scroll, 3);
    n.on_key(Key::PageUp, 4, 5);
    assert_eq!(n.scroll, 0);
    n.on_key(Key::Down, 4, 0);
    assert_eq!(n.scroll, 0);
    n.scroll = 2;
    n.on_key(Key::Next, 4, 10);
    assert_eq!((n.tab, n.scroll), (1, 0));
    assert!(n.on_key(Key::Quit, 4, 10));
    assert!(!n.on_key(Key::Other, 4, 10));
}

#[test]
fn tab_titles() {
    let mut s = Section::new("OGP");
    assert_eq!(tab_title(&s), "OGP");
    s.add("a".into(), Level::Ng, "".into());
    s.add("b".into(), Level::Warn, "".into());
    s.add("c".into(), Level::Warn, "".into());
    assert_eq!(tab_title(&s), "OGP ✗1 !2");
}

#[test]
fn text_helpers() {
    assert_eq!(trim_str("\u{3000} a b \t\n"), "a b");
    assert_eq!(parse_usize_str("+12"), Some(12));
    assert_eq!(parse_usize_str("12a"), None);
    assert_eq!(parse_usize_str("-1"), None);
    assert_eq!(parse_usize_str("+"), None);
    assert_eq!(parse_usize_str(""), None);
    assert_eq!(parse_usize_str("99999999999999999999999"), None);
}

fn response(status: u16, body: &str) -> Response {
    Response {
        status,
        url: "https://e.com/".to_string(),
        content_type: "text/plain".to_string(),
        x_robots: Vec::new(),
        body: body.as_bytes().to_vec(),
    }
}

#[test]
fn lint_check_sections() {
    let ico = || vec![Probe { level: Level::Ng, summary: "none".to_string(), body: vec![] }];
    let out = lint::check(Err("refused".to_string()), &vec![], &ico(), &Err("x".to_string()), &vec![]);
    assert_eq!(out.err().as_deref(), Some("refused"));
    let page = response(200, "<title>t</title>");
    let robots = Ok(response(200, "User-agent: *\nDisallow: /\n"));
    let out = lint::check(Ok(page), &vec![], &ico(), &robots, &vec![]).ok().unwrap();
    let names: Vec<&str> = out.iter().map(|s| s.name).collect();
    assert_eq!(names, ["OGP", "Favicon", "Robots", "robots.txt"]);
    assert_eq!(out[3].items[0].value, "User-agent: *\nDisallow: /\n");
    assert!(out[3].items[0].lv == lint::Level::Info);
    let crawl = out[2].items.iter().find(|i| i.label == "クロール可否").unwrap();
    assert!(crawl.lv == lint::Level::Ng);
    assert_eq!(crawl.value, "ブロック（User-agent: *）Disallow: /");
    let fav = out[1].items.last().unwrap();
    assert!(fav.lv == lint::Level::Warn);
    let page = response(200, "<title>t</title>");
    let out = lint::check(Ok(page), &vec![], &ico(), &Ok(response(404, "")), &vec![]).ok().unwrap();
    assert_eq!(out[3].items[0].value, "404");
}

#[test]
fn counts_cover_every_item() {
    let mut s = Section::new("S");
    for (i, lv) in [Level::Info, Level::Pass, Level::Warn, Level::Ng, Level::Warn].into_iter().enumerate() {
        s.add(format!("{i}"), lv, String::new());
    }
    let total: usize = [Level::Info, Level::Pass, Level::Warn, Level::Ng].into_iter().map(|l| s.count(l)).sum();
    assert_eq!(total, s.items.len());
    assert_eq!(s.count(Level::Warn), 2);
}

#[test]
fn keys_map_to_actions() {
    assert_eq!(key_of(Press::Char('q'), false), Key::Quit);
    assert_eq!(key_of(Press::Esc, false), Key::Quit);
    assert_eq!(key_of(Press::Char('c'), true), Key::Quit);
    assert_eq!(key_of(Press::Char('c'), false), Key::Other);
    for p in [Press::Right, Press::Tab, Press::Char('l')] {
        assert_eq!(key_of(p, false), Key::Next);
    }
    for p in [Press::Left, Press::BackTab, Press::Char('h')] {
        assert_eq!(key_of(p, true), Key::Prev);
    }
    assert_eq!(key_of(Press::Char('j'), false), Key::Down);
    assert_eq!(key_of(Press::Up, false), Key::Up);
    assert_eq!(key_of(Press::PageDown, false), Key::PageDown);
    assert_eq!(key_of(Press::Other, false), Key::Other);
    // three tabs: Left from the first wraps to the last, Right from the last to the first
    let mut nav = Nav::new();
    assert!(!nav.on_key(key_of(Press::Left, false), 3, 5));
    assert_eq!(nav.tab, 2);
    nav.scroll = 4;
    assert!(!nav.on_key(key_of(Press::Tab, false), 3, 5));
    assert_eq!((nav.tab, nav.scroll), (0, 0));
}

#[test]
fn lint_checked_tests_the_fetches() {
    let ico = || vec![Probe { level: Level::Ng, summary: "none".to_string(), body: vec![] }];
    let robots = Ok(response(200, "User-agent: *\nDisallow: /\n"));
    let out = lint::checked(Ok(response(200, "<title>t</title>")), &vec![], &ico(), &robots, &vec![]);
    assert_eq!(out.unwrap().unwrap().len(), 4);
    // no image tag, so an image probe does not fit
    let extra = vec![Probe { level: Level::Pass, summary: "x".to_string(), body: vec![] }];
    assert!(lint::checked(Ok(response(200, "<title>t</title>")), &extra, &ico(), &robots, &vec![]).is_none());
    assert!(lint::checked(Ok(response(200, "<title>t</title>")), &vec![], &vec![], &robots, &vec![]).is_none());
    // a fetch error passes through
    let out = lint::checked(Err("refused".to_string()), &vec![], &vec![], &robots, &vec![]);
    assert_eq!(out.unwrap().err().as_deref(), Some("refused"));
}
