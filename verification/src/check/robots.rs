//! Robots section: HTTP status, meta robots, X-Robots-Tag, canonical, and
//! robots.txt (status, Content-Type, whether this URL may be crawled,
//! sitemaps).

use vstd::prelude::*;
use crate::check::{path_and_query, resolve, resolved, url_path_query};
use crate::check::ogp::probes_model;
use crate::fetch::{fetched, Probe, Response};
use crate::page::{first_link, from_utf8_lossy, lookup, lossy_utf8, Page};
use crate::report::{items_model, ItemModel, Level, Section};
use crate::robots_txt::{
    decisive_index, decisive_rule, group_of, kind_name, lemma_decisive_allows,
    longest_match_allows, parse_text, rules_model, strings_model, Kind, Rule, RobotsTxt,
    RuleModel,
};
use crate::text::{
    chars_of, decimal, find, find_in, join, lowercase, push_decimal, push_joined, push_str,
    split, starts_with, str_eq, str_starts_with, string_of, to_lowercase, trim, trim_bounds,
};

verus! {

/// The level of a robots directive list such as `"noindex, nofollow"`:
/// `Ng` where a (lowercased, trimmed) comma-separated directive is
/// `noindex` or `none`, else `Warn` where one is `nofollow`, else `Pass`.
pub open spec fn directive_level_of(v: Seq<char>) -> Level {
    let ts = split(lowercase(v), ',');
    if exists|i: int| 0 <= i < ts.len() && (trim(#[trigger] ts[i]) == "noindex"@ || trim(ts[i]) == "none"@) {
        Level::Ng
    } else if exists|i: int| 0 <= i < ts.len() && trim(#[trigger] ts[i]) == "nofollow"@ {
        Level::Warn
    } else {
        Level::Pass
    }
}

/// One step of `split`: the piece before the first separator, then the rest.
proof fn lemma_split_step(s: Seq<char>, c: char, pos: int, i: int)
    requires
        0 <= pos <= i <= s.len(),
        i == pos + find(s.skip(pos), c),
    ensures
        i < s.len() ==> split(s.skip(pos), c) == seq![s.subrange(pos, i)] + split(s.skip(i + 1), c),
        i == s.len() ==> split(s.skip(pos), c) == seq![s.subrange(pos, i)],
{
    let t = s.skip(pos);
    assert(t.take(i - pos) == s.subrange(pos, i));
    if i < s.len() {
        assert(t.skip(i - pos + 1) == s.skip(i + 1));
    } else {
        assert(t.take(i - pos) == t);
    }
}

/// Judges a robots directive list (meta robots, X-Robots-Tag).
pub fn directive_level(v: &str) -> (l: Level)
    ensures
        l == directive_level_of(v@),
{
    let low = to_lowercase(v);
    let cs = chars_of(low.as_str());
    let ghost segs = split(cs@, ',');
    let ghost mut done: Seq<Seq<char>> = seq![];
    let mut lv = Level::Pass;
    let mut pos: usize = 0;
    assert(cs@.skip(0) == cs@);
    loop
        invariant_except_break
            pos <= cs.len(),
            segs == split(cs@, ','),
            segs == done + split(cs@.skip(pos as int), ','),
        invariant
            cs@ == lowercase(v@),
            forall|k: int|
                0 <= k < done.len() ==> trim(#[trigger] done[k]) != "noindex"@ && trim(done[k])
                    != "none"@,
            lv == (if exists|k: int| 0 <= k < done.len() && trim(#[trigger] done[k]) == "nofollow"@ {
                Level::Warn
            } else {
                Level::Pass
            }),
        ensures
            done == split(cs@, ','),
        decreases cs.len() - pos,
    {
        let i = find_in(&cs, ',', pos, cs.len());
        assert(cs@.subrange(pos as int, cs.len() as int) == cs@.skip(pos as int));
        proof {
            lemma_split_step(cs@, ',', pos as int, i as int);
        }
        let (a, b) = trim_bounds(&cs, pos, i);
        let t = string_of(&cs, a, b);
        let ghost seg = cs@.subrange(pos as int, i as int);
        let ghost old_done = done;
        proof {
            done = done.push(seg);
        }
        if str_eq(t.as_str(), "noindex") || str_eq(t.as_str(), "none") {
            proof {
                let k = old_done.len() as int;
                assert(segs[k] == seg);
                assert(trim(segs[k]) == "noindex"@ || trim(segs[k]) == "none"@);
            }
            return Level::Ng;
        }
        if str_eq(t.as_str(), "nofollow") {
            lv = Level::Warn;
            assert(done[old_done.len() as int] == seg);
        } else {
            assert forall|k: int| 0 <= k < done.len() && trim(#[trigger] done[k]) == "nofollow"@ implies 0 <= k < old_done.len() by {
                if k == old_done.len() {
                    assert(done[k] == seg);
                }
            }
        }
        assert(forall|k: int| 0 <= k < old_done.len() ==> done[k] == old_done[k]);
        if i == cs.len() {
            assert(done == segs);
            break;
        }
        pos = i + 1;
    }
    proof {
        let ts = split(lowercase(v@), ',');
        assert(ts == done);
    }
    lv
}

/// The item of the page's own HTTP status.
pub open spec fn http_item(res: Response) -> ItemModel {
    (
        "HTTP"@,
        if res.status == 200 {
            Level::Pass
        } else {
            Level::Ng
        },
        decimal(res.status as nat) + "  "@ + res.url@,
    )
}

/// The items from the page itself: status, meta robots, meta googlebot,
/// X-Robots-Tag and canonical.
pub open spec fn page_items(
    res: Response,
    meta: Seq<(Seq<char>, Seq<char>)>,
    links: Seq<crate::page::LinkModel>,
) -> Seq<ItemModel> {
    let xr = join(strings_model(res.x_robots@), ", "@);
    seq![
        http_item(res),
        match lookup(meta, "robots"@) {
            Some(v) => ("meta robots"@, directive_level_of(v), v),
            None => ("meta robots"@, Level::Pass, "未指定（index, follow）"@),
        },
    ] + match lookup(meta, "googlebot"@) {
        Some(v) => seq![("meta googlebot"@, directive_level_of(v), v)],
        None => seq![],
    } + seq![
        if xr.len() == 0 {
            ("X-Robots-Tag"@, Level::Pass, "未指定"@)
        } else {
            ("X-Robots-Tag"@, directive_level_of(xr), xr)
        },
        match first_link(links, "canonical"@) {
            None => ("canonical"@, Level::Warn, seq![]),
            Some(l) => {
                let c = resolved(res.url@, l.1);
                if c != res.url@ {
                    ("canonical"@, Level::Warn, c + "  (このページと別URL)"@)
                } else {
                    ("canonical"@, Level::Pass, c)
                }
            },
        },
    ]
}

/// The URL of robots.txt for the page.
pub open spec fn robots_url_of(res: Response) -> Seq<char> {
    resolved(res.url@, "/robots.txt"@)
}

/// The URL of robots.txt for the page at `res.url`.
pub fn robots_url(res: &Response) -> (u: String)
    ensures
        u@ == robots_url_of(*res),
{
    resolve(res.url.as_str(), "/robots.txt")
}

/// The user agent whose group Google follows (`googlebot` where present,
/// else `*`) and its rules (none where neither is present).
pub open spec fn chosen_group(groups: crate::robots_txt::GroupsModel) -> (Seq<char>, Seq<RuleModel>) {
    match group_of(groups, "googlebot"@) {
        Some(r) => ("googlebot"@, r),
        None => match group_of(groups, "*"@) {
            Some(r) => ("*"@, r),
            None => ("*"@, seq![]),
        },
    }
}

/// The path (and query) of the page's URL, as robots.txt rules see it:
/// `path?query`, or the path alone where the URL has no query (a URL that
/// does not parse has none; the checks require one that does).
pub open spec fn crawl_path(res: Response) -> Seq<char> {
    match url_path_query(res.url@) {
        Some((p, Some(q))) => p + "?"@ + q,
        Some((p, None)) => p,
        None => seq![],
    }
}

/// [`crawl_path`] of a response whose URL parses.
pub fn crawl_path_of(res: &Response) -> (path: String)
    requires
        url_path_query(res.url@) is Some,
    ensures
        path@ == crawl_path(*res),
{
    match path_and_query(res.url.as_str()) {
        Some((p, q)) => {
            let mut path = p;
            if let Some(q) = q {
                push_str(&mut path, "?");
                push_str(&mut path, q.as_str());
            }
            path
        },
        None => String::new(),
    }
}

/// The rule that decided, as `Allow: /x` / `Disallow: /x`, or `""`.
pub open spec fn decided_by(rules: Seq<RuleModel>, path: Seq<char>) -> Seq<char> {
    match decisive_index(rules, path) {
        Some(i) => kind_name(rules[i].0) + ": "@ + rules[i].1,
        None => seq![],
    }
}

/// The item on whether the page may be crawled.
pub open spec fn crawl_item(groups: crate::robots_txt::GroupsModel, path: Seq<char>) -> ItemModel {
    let (ua, rules) = chosen_group(groups);
    let by = decided_by(rules, path);
    if longest_match_allows(rules, path) {
        ("クロール可否"@, Level::Pass, "許可（User-agent: "@ + ua + "）"@ + by)
    } else {
        ("クロール可否"@, Level::Ng, "ブロック（User-agent: "@ + ua + "）"@ + by)
    }
}

/// The items on robots.txt, given what fetching it gave and the probes of
/// its sitemaps; and its text where it was read.
pub open spec fn robots_txt_items(
    res: Response,
    got: Result<(u16, Seq<char>, Seq<u8>), Seq<char>>,
    probes: Seq<(Level, Seq<char>, Seq<u8>)>,
) -> (Seq<ItemModel>, Option<Seq<char>>) {
    match got {
        Err(e) => (seq![("robots.txt"@, Level::Ng, e)], None),
        Ok((status, ct, body)) => if status >= 500 {
            (
                seq![("robots.txt"@, Level::Ng, decimal(status as nat) + "（Google は全ブロック扱い）"@)],
                None,
            )
        } else if status != 200 {
            (
                seq![("robots.txt"@, Level::Warn, decimal(status as nat) + "（無し＝全クロール許可扱い）"@)],
                None,
            )
        } else {
            let first = if !starts_with(ct, "text/plain"@) {
                ("robots.txt"@, Level::Warn, "200 だが Content-Type が "@ + ct)
            } else {
                ("robots.txt"@, Level::Pass, "200 "@ + robots_url_of(res))
            };
            let txt = lossy_utf8(body);
            let st = parse_text(txt);
            (
                seq![first, crawl_item(st.groups, crawl_path(res))] + (if st.sitemaps.len() == 0 {
                    seq![("Sitemap"@, Level::Warn, "robots.txt に記載なし"@)]
                } else {
                    seq![]
                }) + probes.map_values(|p: (Level, Seq<char>, Seq<u8>)| ("Sitemap"@, p.0, p.1)),
                Some(txt),
            )
        },
    }
}

/// The sitemaps to fetch: those that robots.txt lists where it was fetched
/// with status 200, else none.
pub open spec fn sitemaps_of(got: Result<(u16, Seq<char>, Seq<u8>), Seq<char>>) -> Seq<Seq<char>> {
    match got {
        Ok((status, ct, body)) => if status == 200 {
            parse_text(lossy_utf8(body)).sitemaps
        } else {
            seq![]
        },
        Err(_) => seq![],
    }
}

/// The sitemap URLs to fetch (no Content-Type expected), from what fetching
/// robots.txt gave.
pub fn sitemap_targets(robots: &Result<Response, String>) -> (t: Vec<(String, &'static str)>)
    ensures
        t@.map_values(|e: (String, &'static str)| e.0@) == sitemaps_of(fetched(*robots)),
        forall|i: int| 0 <= i < t@.len() ==> (#[trigger] t@[i]).1@ == ""@,
{
    let mut t: Vec<(String, &'static str)> = Vec::new();
    if let Ok(r) = robots {
        if r.status == 200 {
            let txt = from_utf8_lossy(r.body.as_slice());
            let parsed = RobotsTxt::parse(txt.as_str());
            let ghost sm = strings_model(parsed.sitemaps@);
            let mut i: usize = 0;
            while i < parsed.sitemaps.len()
                invariant
                    i <= parsed.sitemaps.len(),
                    sm == strings_model(parsed.sitemaps@),
                    t@.map_values(|e: (String, &'static str)| e.0@) == sm.take(i as int),
                    forall|k: int| 0 <= k < t@.len() ==> (#[trigger] t@[k]).1@ == ""@,
                decreases parsed.sitemaps.len() - i,
            {
                let ghost before = t@.map_values(|e: (String, &'static str)| e.0@);
                let u = parsed.sitemaps[i].clone();
                assert(u@ == sm[i as int]);
                t.push((u, ""));
                assert(t@.map_values(|e: (String, &'static str)| e.0@) =~= before.push(sm[i as int]));
                assert(sm.take(i + 1) =~= sm.take(i as int).push(sm[i as int]));
                assert(t@.map_values(|e: (String, &'static str)| e.0@) =~= sm.take(i + 1));
                i = i + 1;
            }
            assert(sm.take(i as int) == sm);
            return t;
        }
    }
    assert(t@.map_values(|e: (String, &'static str)| e.0@) =~= Seq::<Seq<char>>::empty());
    t
}

/// Appends one item.
fn add_item(s: &mut Section, label: &str, level: Level, value: &str)
    ensures
        final(s).name == old(s).name,
        items_model(final(s).items@) == items_model(old(s).items@).push((label@, level, value@)),
{
    s.add(label.to_owned(), level, value.to_owned());
}

/// Adds the items from the page itself.
pub fn add_page_items(s: &mut Section, res: &Response, p: &Page)
    ensures
        final(s).name == old(s).name,
        items_model(final(s).items@) == items_model(old(s).items@) + page_items(*res, p.meta_model(), p.links_model()),
{
    proof {
        reveal_strlit("");
    }
    let ghost start = items_model(s.items@);
    let mut v = String::new();
    push_decimal(&mut v, res.status as u128);
    push_str(&mut v, "  ");
    push_str(&mut v, res.url.as_str());
    add_item(s, "HTTP", if res.status == 200 { Level::Pass } else { Level::Ng }, v.as_str());
    assert(items_model(s.items@) == start.push(http_item(*res)));
    let ghost meta = p.meta_model();
    let ghost one = items_model(s.items@);
    match p.meta("robots") {
        Some(v) => add_item(s, "meta robots", directive_level(v), v),
        None => add_item(s, "meta robots", Level::Pass, "未指定（index, follow）"),
    }
    let ghost two = items_model(s.items@);
    assert(two == one.push(match lookup(meta, "robots"@) {
            Some(v) => ("meta robots"@, directive_level_of(v), v),
            None => ("meta robots"@, Level::Pass, "未指定（index, follow）"@),
        }));
    if let Some(v) = p.meta("googlebot") {
        add_item(s, "meta googlebot", directive_level(v), v);
    }
    let ghost three = items_model(s.items@);
    assert(three == two + match lookup(meta, "googlebot"@) {
        Some(v) => seq![("meta googlebot"@, directive_level_of(v), v)],
        None => seq![],
    });
    let mut xr = String::new();
    push_joined(&mut xr, &res.x_robots, ", ");
    if xr.as_str().is_empty() {
        add_item(s, "X-Robots-Tag", Level::Pass, "未指定");
    } else {
        add_item(s, "X-Robots-Tag", directive_level(xr.as_str()), xr.as_str());
    }
    let ghost xrs = join(strings_model(res.x_robots@), ", "@);
    let ghost four = items_model(s.items@);
    assert(four == three.push(if xrs.len() == 0 {
            ("X-Robots-Tag"@, Level::Pass, "未指定"@)
        } else {
            ("X-Robots-Tag"@, directive_level_of(xrs), xrs)
        }));
    match p.link("canonical") {
        None => {
            add_item(s, "canonical", Level::Warn, "");
            assert(""@ =~= Seq::<char>::empty()) by {
                reveal_strlit("");
            }
        },
        Some(l) => {
            let c = resolve(res.url.as_str(), l.href.as_str());
            assert(first_link(p.links_model(), "canonical"@) == Some(crate::page::link_model(*l)));
            if !str_eq(c.as_str(), res.url.as_str()) {
                let mut v = c.clone();
                push_str(&mut v, "  (このページと別URL)");
                add_item(s, "canonical", Level::Warn, v.as_str());
            } else {
                add_item(s, "canonical", Level::Pass, c.as_str());
            }
        },
    }
    let ghost canon = match first_link(p.links_model(), "canonical"@) {
        None => ("canonical"@, Level::Warn, Seq::<char>::empty()),
        Some(l) => {
            let c = resolved(res.url@, l.1);
            if c != res.url@ {
                ("canonical"@, Level::Warn, c + "  (このページと別URL)"@)
            } else {
                ("canonical"@, Level::Pass, c)
            }
        },
    };
    assert(items_model(s.items@) == four.push(canon));
    assert(items_model(s.items@) =~= start + page_items(*res, p.meta_model(), p.links_model()));
}

/// Adds the crawlability item for the chosen group.
fn add_crawl_item(s: &mut Section, parsed: &RobotsTxt, res: &Response)
    requires
        url_path_query(res.url@) is Some,
    ensures
        final(s).name == old(s).name,
        items_model(final(s).items@) == items_model(old(s).items@).push(
            crawl_item(parsed.groups(), crawl_path(*res)),
        ),
{
    let empty: Vec<Rule> = Vec::new();
    let (ua, rules): (&str, &[Rule]) = match parsed.rules_for("googlebot") {
        Some(r) => ("googlebot", r),
        None => match parsed.rules_for("*") {
            Some(r) => ("*", r),
            None => ("*", empty.as_slice()),
        },
    };
    let ghost cg = chosen_group(parsed.groups());
    assert(ua@ == cg.0);
    assert(rules_model(rules@) =~= cg.1);
    let path = crawl_path_of(res);
    let rule = decisive_rule(rules, path.as_str());
    let by = match rule {
        Some(r) => r.to_string(),
        None => String::new(),
    };
    let allowed = match rule {
        Some(r) => r.kind == Kind::Allow,
        None => true,
    };
    proof {
        let m = rules_model(rules@);
        match decisive_index(m, path@) {
            Some(i) => {
                lemma_decisive_allows(m, path@, i);
            },
            None => {
            },
        }
        assert(by@ == decided_by(m, path@));
        assert(allowed == longest_match_allows(m, path@));
    }
    let mut v = String::new();
    if allowed {
        push_str(&mut v, "許可（User-agent: ");
    } else {
        push_str(&mut v, "ブロック（User-agent: ");
    }
    push_str(&mut v, ua);
    push_str(&mut v, "）");
    push_str(&mut v, by.as_str());
    add_item(s, "クロール可否", if allowed { Level::Pass } else { Level::Ng }, v.as_str());
}

/// The robots section and the robots.txt text (where it was read), given
/// the page's response, the page, what fetching [`robots_url`] gave, and
/// the probes of [`sitemap_targets`], one for each, in the same order.
pub fn check(res: &Response, p: &Page, robots: &Result<Response, String>, sitemap_probes: &Vec<Probe>) -> (r: (Section, Option<String>))
    requires
        sitemap_probes@.len() == sitemaps_of(fetched(*robots)).len(),
        url_path_query(res.url@) is Some,
    ensures
        r.0.name@ == "Robots"@,
        items_model(r.0.items@) == page_items(*res, p.meta_model(), p.links_model()) + robots_txt_items(
            *res,
            fetched(*robots),
            probes_model(sitemap_probes@),
        ).0,
        match r.1 {
            Some(t) => robots_txt_items(*res, fetched(*robots), probes_model(sitemap_probes@)).1 == Some(t@),
            None => robots_txt_items(*res, fetched(*robots), probes_model(sitemap_probes@)).1 is None,
        },
{
    let mut s = Section::new("Robots");
    assert(items_model(s.items@) =~= Seq::<ItemModel>::empty());
    add_page_items(&mut s, res, p);
    let ghost head = items_model(s.items@);
    let r = match robots {
        Ok(r) => r,
        Err(e) => {
            add_item(&mut s, "robots.txt", Level::Ng, e.as_str());
            assert(items_model(s.items@) =~= head + seq![("robots.txt"@, Level::Ng, e@)]);
            return (s, None);
        },
    };
    if r.status >= 500 {
        let mut v = String::new();
        push_decimal(&mut v, r.status as u128);
        push_str(&mut v, "（Google は全ブロック扱い）");
        add_item(&mut s, "robots.txt", Level::Ng, v.as_str());
        assert(items_model(s.items@) =~= head + robots_txt_items(*res, fetched(*robots), probes_model(sitemap_probes@)).0);
        return (s, None);
    } else if r.status != 200 {
        let mut v = String::new();
        push_decimal(&mut v, r.status as u128);
        push_str(&mut v, "（無し＝全クロール許可扱い）");
        add_item(&mut s, "robots.txt", Level::Warn, v.as_str());
        assert(items_model(s.items@) =~= head + robots_txt_items(*res, fetched(*robots), probes_model(sitemap_probes@)).0);
        return (s, None);
    } else if !str_starts_with(r.content_type.as_str(), "text/plain") {
        let mut v = "200 だが Content-Type が ".to_owned();
        push_str(&mut v, r.content_type.as_str());
        add_item(&mut s, "robots.txt", Level::Warn, v.as_str());
    } else {
        let mut v = "200 ".to_owned();
        let u = robots_url(res);
        push_str(&mut v, u.as_str());
        add_item(&mut s, "robots.txt", Level::Pass, v.as_str());
    }
    let txt = from_utf8_lossy(r.body.as_slice());
    let parsed = RobotsTxt::parse(txt.as_str());
    add_crawl_item(&mut s, &parsed, res);
    if parsed.sitemaps.len() == 0 {
        add_item(&mut s, "Sitemap", Level::Warn, "robots.txt に記載なし");
    }
    assert(strings_model(parsed.sitemaps@).len() == parsed.sitemaps@.len());
    let ghost before_probes = items_model(s.items@);
    let ghost pm = probes_model(sitemap_probes@);
    let mut i: usize = 0;
    while i < sitemap_probes.len()
        invariant
            i <= sitemap_probes.len(),
            s.name@ == "Robots"@,
            pm == probes_model(sitemap_probes@),
            items_model(s.items@) == before_probes + pm.take(i as int).map_values(
                |q: (Level, Seq<char>, Seq<u8>)| ("Sitemap"@, q.0, q.1),
            ),
        decreases sitemap_probes.len() - i,
    {
        let pr = &sitemap_probes[i];
        assert(pm[i as int] == pr.model());
        add_item(&mut s, "Sitemap", pr.level, pr.summary.as_str());
        assert(pm.take(i + 1).map_values(|q: (Level, Seq<char>, Seq<u8>)| ("Sitemap"@, q.0, q.1)) =~= pm.take(i as int).map_values(|q: (Level, Seq<char>, Seq<u8>)| ("Sitemap"@, q.0, q.1)).push(("Sitemap"@, pr.level, pr.summary@)));
        i = i + 1;
    }
    assert(pm.take(i as int) == pm);
    assert(items_model(s.items@) =~= head + robots_txt_items(*res, fetched(*robots), probes_model(sitemap_probes@)).0);
    (s, Some(txt))
}

/// The verdict of the crawl item and the user agent it names, read by the
/// rules `r` of agent `ua`.
pub open spec fn verdict_by(ua: Seq<char>, r: Seq<RuleModel>, path: Seq<char>) -> (Level, Seq<char>) {
    if longest_match_allows(r, path) {
        (Level::Pass, "許可（User-agent: "@ + ua + "）"@ + decided_by(r, path))
    } else {
        (Level::Ng, "ブロック（User-agent: "@ + ua + "）"@ + decided_by(r, path))
    }
}

/// Google follows only the `googlebot` group where robots.txt has one: the
/// crawl verdict is then read from that group's rules and names
/// `googlebot`, whatever the `*` group says. The `*` group decides only
/// where there is no `googlebot` group, and with neither group the page may
/// be crawled.
pub proof fn lemma_googlebot_group_first(groups: crate::robots_txt::GroupsModel, path: Seq<char>)
    ensures
        group_of(groups, "googlebot"@) matches Some(r) ==> (crawl_item(groups, path).1, crawl_item(
            groups,
            path,
        ).2) == verdict_by("googlebot"@, r, path),
        group_of(groups, "googlebot"@) is None ==> (group_of(groups, "*"@) matches Some(r) ==> (
        crawl_item(groups, path).1, crawl_item(groups, path).2) == verdict_by("*"@, r, path)),
        group_of(groups, "googlebot"@) is None && group_of(groups, "*"@) is None ==> crawl_item(
            groups,
            path,
        ).1 == Level::Pass,
        crawl_item(groups, path).0 == "クロール可否"@,
{
    if group_of(groups, "googlebot"@) is None && group_of(groups, "*"@) is None {
        crate::robots_txt::lemma_no_match_allows(Seq::<RuleModel>::empty(), path);
    }
}

} // verus!
