use headlint::check::{favicon, ogp, page_report, report, resolve, robots};
use headlint::fetch::{probe, Probe, Response};
use headlint::page::Page;
use headlint::report::{Item, Level, Section};

const HTML: &str = r#"<!doctype html><html><head>
<title>  ちょうどいい長さのタイトルです｜サイト名  </title>
<meta name="Description" content="first">
<meta name="description" content="second">
<meta property="og:title" content="T">
<meta property="" name="og:type" content="website">
<meta property="og:image" content="/img.png">
<meta name="og:image:width" content=" 1200 ">
<meta name="robots" content="NOINDEX, follow">
<link rel="Icon" href="/a.ico" sizes="32x32">
<link rel="manifest" href="/m.json">
<link rel="canonical" href="https://example.com/other">
</head><body>x</body></html>"#;

fn png(w: u32, h: u32) -> Vec<u8> {
    let mut v = vec![0x89, 0x50, 0x4E, 0x47, 0x0D, 0x0A, 0x1A, 0x0A, 0, 0, 0, 0x0D, 0x49, 0x48, 0x44, 0x52];
    v.extend_from_slice(&w.to_be_bytes());
    v.extend_from_slice(&h.to_be_bytes());
    v.extend_from_slice(&[8, 6, 0, 0, 0, 0, 0, 0, 0]);
    v
}

fn response(status: u16, url: &str, ct: &str, body: &[u8]) -> Response {
    Response {
        status,
        url: url.to_string(),
        content_type: ct.to_string(),
        x_robots: Vec::new(),
        body: body.to_vec(),
    }
}

fn labels(s: &Section) -> Vec<(String, Level, String)> {
    s.items.iter().map(|i| (i.label.clone(), i.level, i.value.clone())).collect()
}

#[test]
fn page_parse_reads_head() {
    let p = Page::parse(HTML.as_bytes());
    assert_eq!(p.title, "ちょうどいい長さのタイトルです｜サイト名");
    // keys are lowercased; the first of equal keys wins
    assert_eq!(p.meta("description"), Some("first"));
    assert_eq!(p.meta("og:type"), Some("website"));
    assert_eq!(p.meta("og:image:width"), Some(" 1200 "));
    assert_eq!(p.meta("missing"), None);
    assert_eq!(p.links.len(), 3);
    assert_eq!(p.links[0].rel, "icon");
    assert_eq!(p.link("canonical").unwrap().href, "https://example.com/other");
    assert!(p.link("stylesheet").is_none());
    // invalid UTF-8 is replaced, not refused
    let p = Page::parse(b"<title>a\xffb</title>");
    assert_eq!(p.title, "a\u{fffd}b");
}

#[test]
fn resolve_relative_urls() {
    assert_eq!(resolve("https://example.com/a/b", " /x.png "), "https://example.com/x.png");
    assert_eq!(resolve("https://example.com/a/b", "c.png"), "https://example.com/a/c.png");
    assert_eq!(resolve("not a url", "c.png"), "c.png");
}

#[test]
fn probe_levels_and_summary() {
    let p = probe("u", "image/", Ok(response(200, "u", "image/png", &[0; 1229])));
    assert_eq!(p.level, Level::Pass);
    assert_eq!(p.summary, "u  (200 image/png 1.2KB)");
    assert_eq!(p.body.len(), 1229);
    let p = probe("u", "image/", Ok(response(200, "u", "text/html", b"")));
    assert_eq!((p.level, p.summary.as_str()), (Level::Warn, "u  (200 text/html 0.0KB)"));
    let p = probe("u", "", Ok(response(404, "u", "text/html", b"")));
    assert_eq!(p.level, Level::Ng);
    let p = probe("u", "", Err("timed out".to_string()));
    assert_eq!((p.level, p.summary.as_str()), (Level::Ng, "u  (timed out)"));
}

#[test]
fn kib_matches_float_reading() {
    for n in (0..40000usize).step_by(7).chain([512, 1536, 2560, 5 << 20]) {
        let p = probe("u", "", Ok(response(200, "u", "x", &vec![0; n])));
        assert_eq!(p.summary, format!("u  (200 x {:.1}KB)", n as f64 / 1024.0), "{n}");
    }
}

fn probe_of(level: Level, summary: &str, body: Vec<u8>) -> Probe {
    Probe { level, summary: summary.to_string(), body }
}

#[test]
fn ogp_section() {
    let p = Page::parse(HTML.as_bytes());
    let t = ogp::image_targets("https://example.com/", &p);
    assert_eq!(t, vec![("https://example.com/img.png".to_string(), "image/")]);
    let s = ogp::check(&p, &vec![probe_of(Level::Pass, "img ok", png(1200, 630))]);
    let items = labels(&s);
    assert_eq!(items[0].1, Level::Pass);
    assert_eq!(items[1], ("description".into(), Level::Pass, "first  [5文字]".into()));
    assert_eq!(items[2], ("og:title".into(), Level::Pass, "T".into()));
    assert_eq!(items[3], ("og:type".into(), Level::Pass, "website".into()));
    assert_eq!(items[4], ("og:url".into(), Level::Ng, "".into()));
    assert_eq!(items[7], ("og:site_name".into(), Level::Info, "".into()));
    let rest: Vec<_> = items[17..].to_vec();
    assert_eq!(rest[0], ("og:image 形式".into(), Level::Warn, "相対URL（絶対URLにすべき）".into()));
    assert_eq!(rest[1], ("og:image 取得".into(), Level::Pass, "img ok".into()));
    assert_eq!(rest[2], ("og:image サイズ".into(), Level::Pass, "1200x630（1.90:1）".into()));
    assert_eq!(rest.len(), 3); // the declared width matches
    // a declared height that disagrees, and an unreadable file
    let s = ogp::check(&p, &vec![probe_of(Level::Pass, "x", b"not an image".to_vec())]);
    let last = s.items.last().unwrap();
    assert_eq!(last.label, "og:image サイズ");
    assert_eq!(last.level, Level::Warn);
    assert!(last.value.starts_with("読み取れない（"));
    // no image tag: no probe and no image items
    let p = Page::parse(b"<title>x</title>");
    assert_eq!(ogp::image_targets("https://example.com/", &p), vec![]);
    let s = ogp::check(&p, &vec![]);
    assert_eq!(s.items.len(), 17);
}

#[test]
fn ogp_declared_size_mismatch() {
    let html = r#"<meta property="og:image" content="https://e.com/i.png"><meta property="og:image:height" content="+700">"#;
    let p = Page::parse(html.as_bytes());
    let s = ogp::check(&p, &vec![probe_of(Level::Pass, "ok", png(1200, 630))]);
    let last = s.items.last().unwrap();
    assert_eq!((last.label.as_str(), last.level, last.value.as_str()), ("og:image:height 宣言値", Level::Warn, "700 だが実寸は 630"));
    // a failed fetch adds no size items
    let s = ogp::check(&p, &vec![probe_of(Level::Ng, "gone", vec![])]);
    assert_eq!(s.items.last().unwrap().label, "og:image 取得");
}

#[test]
fn favicon_section() {
    let p = Page::parse(HTML.as_bytes());
    let t = favicon::targets("https://example.com/x", &p);
    assert_eq!(
        t,
        vec![
            ("https://example.com/a.ico".to_string(), "image/"),
            ("https://example.com/m.json".to_string(), ""),
            ("https://example.com/favicon.ico".to_string(), "image/"),
        ]
    );
    let probes = vec![probe_of(Level::Pass, "a", vec![]), probe_of(Level::Warn, "m", vec![]), probe_of(Level::Ng, "ico", vec![])];
    let s = favicon::check(&p, &probes);
    assert_eq!(
        labels(&s),
        vec![
            ("icon 32x32".to_string(), Level::Pass, "a".to_string()),
            ("manifest".to_string(), Level::Warn, "m".to_string()),
            ("/favicon.ico".to_string(), Level::Warn, "ico".to_string()),
        ]
    );
    let p = Page::parse(b"<title>x</title>");
    let s = favicon::check(&p, &vec![probe_of(Level::Pass, "ico", vec![])]);
    assert_eq!(labels(&s)[0], ("link rel=icon".to_string(), Level::Warn, "".to_string()));
    assert_eq!(labels(&s)[1].1, Level::Pass);
}

#[test]
fn directive_levels() {
    assert_eq!(robots::directive_level("noindex"), Level::Ng);
    assert_eq!(robots::directive_level("index, NONE"), Level::Ng);
    assert_eq!(robots::directive_level(" nofollow "), Level::Warn);
    assert_eq!(robots::directive_level("nofollow,noindex"), Level::Ng);
    assert_eq!(robots::directive_level("index, follow"), Level::Pass);
    assert_eq!(robots::directive_level(""), Level::Pass);
}

#[test]
fn robots_section() {
    let p = Page::parse(HTML.as_bytes());
    let mut res = response(200, "https://example.com/docs/a.pdf?x=1", "text/html", HTML.as_bytes());
    res.x_robots = vec!["nofollow".to_string(), "noarchive".to_string()];
    assert_eq!(robots::crawl_path_of(&res), "/docs/a.pdf?x=1");
    assert_eq!(robots::robots_url(&res), "https://example.com/robots.txt");
    let txt = "User-agent: *\nDisallow: /*.pdf$\nSitemap: https://example.com/s.xml\n";
    let got = Ok(response(200, "https://example.com/robots.txt", "text/plain; charset=utf-8", txt.as_bytes()));
    let t = robots::sitemap_targets(&got);
    assert_eq!(t, vec![("https://example.com/s.xml".to_string(), "")]);
    let (s, body) = robots::check(&res, &p, &got, &vec![probe_of(Level::Pass, "sm", vec![])]);
    assert_eq!(body.as_deref(), Some(txt));
    let items = labels(&s);
    assert_eq!(items[0], ("HTTP".into(), Level::Pass, "200  https://example.com/docs/a.pdf?x=1".into()));
    assert_eq!(items[1], ("meta robots".into(), Level::Ng, "NOINDEX, follow".into()));
    assert_eq!(items[2], ("X-Robots-Tag".into(), Level::Warn, "nofollow, noarchive".into()));
    assert_eq!(items[3], ("canonical".into(), Level::Warn, "https://example.com/other  (このページと別URL)".into()));
    assert_eq!(items[4], ("robots.txt".into(), Level::Pass, "200 https://example.com/robots.txt".into()));
    assert_eq!(items[5], ("クロール可否".into(), Level::Pass, "許可（User-agent: *）".into()));
    assert_eq!(items[6], ("Sitemap".into(), Level::Pass, "sm".into()));
    // blocked path
    res.url = "https://example.com/docs/a.pdf".to_string();
    assert_eq!(robots::crawl_path_of(&res), "/docs/a.pdf");
    let (s, _) = robots::check(&res, &p, &got, &vec![probe_of(Level::Ng, "sm gone", vec![])]);
    assert_eq!(labels(&s)[5], ("クロール可否".into(), Level::Ng, "ブロック（User-agent: *）Disallow: /*.pdf$".into()));
    assert_eq!(labels(&s)[6], ("Sitemap".into(), Level::Ng, "sm gone".into()));
    // robots.txt errors
    let (s, body) = robots::check(&res, &p, &Err("dns".to_string()), &vec![]);
    assert_eq!((labels(&s)[4].clone(), body), (("robots.txt".into(), Level::Ng, "dns".into()), None));
    let (s, _) = robots::check(&res, &p, &Ok(response(503, "u", "text/plain", b"")), &vec![]);
    assert_eq!(labels(&s)[4].2, "503（Google は全ブロック扱い）");
    let (s, _) = robots::check(&res, &p, &Ok(response(404, "u", "text/plain", b"")), &vec![]);
    assert_eq!((labels(&s)[4].1, labels(&s)[4].2.as_str()), (Level::Warn, "404（無し＝全クロール許可扱い）"));
    let (s, _) = robots::check(&res, &p, &Ok(response(200, "u", "text/html", b"User-agent: googlebot\n")), &vec![]);
    let items = labels(&s);
    assert_eq!(items[4].2, "200 だが Content-Type が text/html");
    assert_eq!(items[5].2, "許可（User-agent: googlebot）");
    assert_eq!(items[6], ("Sitemap".into(), Level::Warn, "robots.txt に記載なし".into()));
}

#[test]
fn report_text_and_counts() {
    let mut a = Section::new("A");
    a.add("title".to_string(), Level::Pass, "ok".to_string());
    a.add("幅広".to_string(), Level::Ng, "".to_string());
    let mut b = Section::new("B");
    b.add("x".to_string(), Level::Warn, "w".to_string());
    b.add("y".to_string(), Level::Info, "i".to_string());
    assert_eq!(a.count(Level::Ng), 1);
    let r = report("https://e.com", a, b, (Section::new("C"), None));
    assert_eq!(r.sections.len(), 3);
    assert_eq!(r.count(Level::Ng), 1);
    assert_eq!(r.count(Level::Warn), 1);
    assert!(!r.ok());
    let pad = |s: &str, w: usize| format!("{s}{}", " ".repeat(22 - w));
    let want = format!(
        "== A\n✓ {} ok\n✗ {} (なし)\n== B\n! {} w\n- {} i\n== C\n\n✗ 1  ! 1\n",
        pad("title", 5),
        pad("幅広", 4),
        pad("x", 1),
        pad("y", 1)
    );
    assert_eq!(r.to_text(), want);
}

#[test]
fn item_helpers() {
    let it = Item { label: "a".repeat(30), level: Level::Info, value: String::new() };
    assert_eq!(it.padded_label(), "a".repeat(30));
    assert_eq!(it.value_or_empty(), "(なし)");
    let it = Item { label: "ラベル".to_string(), level: Level::Info, value: "v".to_string() };
    assert_eq!(it.padded_label(), format!("ラベル{}", " ".repeat(16)));
    assert_eq!(it.value_or_empty(), "v");
    assert_eq!(Level::Pass.mark(), "✓");
    assert_eq!(Level::Warn.at_least(Level::Ng), Level::Ng);
    assert_eq!(Level::Ng.at_most(Level::Warn), Level::Warn);
    assert_eq!(Level::Info.at_most(Level::Warn), Level::Info);
}

#[test]
fn meta_keys_are_lowercase_and_non_empty() {
    let html = r#"<meta property="OG:Title" content="T"><meta name="" content="empty"><meta content="none">"#;
    let p = Page::parse(html.as_bytes());
    assert_eq!(p.meta("og:title"), Some("T"));
    assert_eq!(p.meta("OG:Title"), None);
    assert_eq!(p.meta(""), None);
}

#[test]
fn page_report_needs_fitting_fetches() {
    let p = Page::parse(HTML.as_bytes());
    let res = response(200, "https://example.com/", "text/html", HTML.as_bytes());
    let got = Ok(response(200, "https://example.com/robots.txt", "text/plain", b"User-agent: *\nDisallow:\n"));
    let img = vec![probe_of(Level::Pass, "img", png(1200, 630))];
    let fav: Vec<Probe> = favicon::targets("https://example.com/", &p).iter().map(|_| probe_of(Level::Pass, "f", vec![])).collect();
    let rep = page_report("example.com", &res, &p, &img, &fav, &got, &vec![]).unwrap();
    assert_eq!(rep.url, "example.com");
    let names: Vec<&str> = rep.sections.iter().map(|s| s.name).collect();
    assert_eq!(names, ["OGP", "Favicon", "Robots"]);
    assert_eq!(rep.robots_txt.as_deref(), Some("User-agent: *\nDisallow:\n"));
    // a missing probe, an extra one, or a page URL that does not parse
    assert!(page_report("e", &res, &p, &vec![], &fav, &got, &vec![]).is_none());
    assert!(page_report("e", &res, &p, &img, &fav, &got, &vec![probe_of(Level::Pass, "x", vec![])]).is_none());
    let bad = response(200, "not a url", "text/html", HTML.as_bytes());
    assert!(page_report("e", &bad, &p, &img, &fav, &got, &vec![]).is_none());
}

#[test]
fn meta_keys_from_ascii_have_no_capitals() {
    let html = r#"<meta name="Description" content="d"><meta property="OG:IMAGE" content="i">"#;
    let p = Page::parse(html.as_bytes());
    for (k, _) in &p.meta {
        assert_eq!(k, &k.to_lowercase());
        assert!(!k.is_empty());
    }
    assert_eq!(p.meta("og:image"), Some("i"));
    assert_eq!(p.meta("description"), Some("d"));
}
