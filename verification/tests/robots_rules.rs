use headlint::robots::{allowed, parse_robots};
use headlint::robots_txt::{decisive_rule, Kind, RobotsTxt};

const SAMPLE: &str = "
User-agent: *
Disallow: /admin
Allow: /admin/public
Disallow: /*.pdf$

User-agent: Googlebot
User-agent: Bingbot
Disallow: /private # comment

Sitemap: https://example.com/sitemap.xml
";

#[test]
fn robots_robots() {
    let (groups, sitemaps) = parse_robots(SAMPLE);
    assert_eq!(sitemaps, ["https://example.com/sitemap.xml"]);
    assert_eq!(groups.get("bingbot").unwrap().len(), 1);
    assert_eq!(groups.get("*").unwrap().len(), 3);
    for (path, want) in [
        ("/", true),
        ("/admin/x", false),
        ("/admin/public/a", true),
        ("/docs/a.pdf", false),
        ("/docs/a.pdf?x=1", true),
        ("/private/x", true), // * グループには無い
    ] {
        assert_eq!(allowed(groups.get("*").unwrap(), path).0, want, "{path}");
    }
    assert!(!allowed(groups.get("googlebot").unwrap(), "/private/x").0);
}

#[test]
fn robots_txt_robots() {
    let r = RobotsTxt::parse(SAMPLE);
    let allowed = |ua, path| {
        decisive_rule(r.rules_for(ua).unwrap(), path).map_or(true, |r| r.kind == Kind::Allow)
    };
    assert_eq!(r.sitemaps, ["https://example.com/sitemap.xml"]);
    assert_eq!(r.rules_for("bingbot").unwrap().len(), 1);
    assert_eq!(r.rules_for("*").unwrap().len(), 3);
    for (path, want) in [
        ("/", true),
        ("/admin/x", false),
        ("/admin/public/a", true),
        ("/docs/a.pdf", false),
        ("/docs/a.pdf?x=1", true),
        ("/private/x", true), // * グループには無い
    ] {
        assert_eq!(allowed("*", path), want, "{path}");
    }
    assert!(!allowed("googlebot", "/private/x"));
}

#[test]
fn decisive_rule_reports_the_deciding_line() {
    let r = RobotsTxt::parse(SAMPLE);
    let rules = r.rules_for("*").unwrap();
    assert_eq!(decisive_rule(rules, "/admin/public/a").unwrap().to_string(), "Allow: /admin/public");
    assert_eq!(decisive_rule(rules, "/admin/x").unwrap().to_string(), "Disallow: /admin");
    assert!(decisive_rule(rules, "/").is_none());
    let (groups, _) = parse_robots(SAMPLE);
    assert_eq!(allowed(groups.get("*").unwrap(), "/admin/x").1, "Disallow: /admin");
    assert_eq!(allowed(groups.get("*").unwrap(), "/").1, "");
}

#[test]
fn equal_length_allow_wins() {
    let txt = "User-agent: *\nDisallow: /page\nAllow: /page\n";
    let r = RobotsTxt::parse(txt);
    let rule = decisive_rule(r.rules_for("*").unwrap(), "/page").unwrap();
    assert_eq!(rule.kind, Kind::Allow);
    let (groups, _) = parse_robots(txt);
    assert_eq!(allowed(groups.get("*").unwrap(), "/page"), (true, "Allow: /page".to_string()));
}

#[test]
fn ties_between_disallows() {
    // two disallows of the same length: `allowed` names the first one,
    // `decisive_rule` the last one; both block
    let txt = "User-agent: *\nDisallow: /a*\nDisallow: /ab\n";
    let r = RobotsTxt::parse(txt);
    assert_eq!(decisive_rule(r.rules_for("*").unwrap(), "/abc").unwrap().to_string(), "Disallow: /ab");
    let (groups, _) = parse_robots(txt);
    assert_eq!(allowed(groups.get("*").unwrap(), "/abc"), (false, "Disallow: /a*".to_string()));
}

#[test]
fn parsing_details() {
    // CRLF line ends, comments, unknown keys, empty disallow, new group after rules
    let txt = "User-Agent: A\r\nUser-agent: B\r\nDisallow:\r\nCrawl-delay: 3\r\n# only a comment\r\nno colon here\r\nUser-agent: C\r\nAllow: /x\r\n  sitemap :  https://e.com/s.xml  \r\n";
    let r = RobotsTxt::parse(txt);
    assert_eq!(r.rules_for("a").unwrap().len(), 0);
    assert_eq!(r.rules_for("b").unwrap().len(), 0);
    assert_eq!(r.rules_for("c").unwrap().len(), 1);
    assert!(r.rules_for("A").is_none());
    assert!(r.rules_for("d").is_none());
    assert_eq!(r.sitemaps, ["https://e.com/s.xml"]);
    // the same agent listed twice keeps one group; its rules go in twice
    let r = RobotsTxt::parse("User-agent: x\nUser-agent: X\nDisallow: /p\n");
    assert_eq!(r.groups.len(), 1);
    assert_eq!(r.rules_for("x").unwrap().len(), 2);
}

#[test]
fn pattern_matching() {
    assert!(headlint::robots::matches("/", "/anything"));
    assert!(headlint::robots::matches("/a.b", "/a.b"));
    assert!(!headlint::robots::matches("/a.b", "/axb")); // '.' is literal
    assert!(headlint::robots::matches("/*.pdf$", "/x/y.pdf"));
    assert!(!headlint::robots::matches("/*.pdf$", "/x/y.pdf?z"));
    assert!(!headlint::robots::matches("/admin", "/x/admin"));
    assert!(headlint::robots::matches("/a(b)+", "/a(b)+c"));
}

fn rule_texts(t: &RobotsTxt, agent: &str) -> Option<Vec<String>> {
    t.rules_for(agent).map(|rs| rs.iter().map(|r| r.to_string()).collect())
}

#[test]
fn neutral_lines_change_nothing() {
    let plain = "User-agent: *\nDisallow: /x\nAllow: /x/y\nSitemap: https://e.com/s.xml\n";
    let padded = "# robots\n\nUser-agent: *\nCrawl-delay: 5\nDisallow: /x\n   \n# Disallow: /z\nAllow: /x/y\nnot a directive\nHost: e.com\nSitemap: https://e.com/s.xml\n";
    let (a, b) = (RobotsTxt::parse(plain), RobotsTxt::parse(padded));
    assert_eq!(a.sitemaps, b.sitemaps);
    for agent in ["*", "googlebot", "other"] {
        assert_eq!(rule_texts(&a, agent), rule_texts(&b, agent));
    }
    assert_eq!(rule_texts(&b, "*"), Some(vec!["Disallow: /x".to_string(), "Allow: /x/y".to_string()]));
}
