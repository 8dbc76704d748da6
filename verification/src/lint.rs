//! The linter as one unit: its own result types (the same levels, declared
//! in another order), fed with what the fetches brought back.

use vstd::prelude::*;
use crate::check::ogp::probes_model;
use crate::check::robots::{
    add_page_items, crawl_path, page_items, robots_url, robots_url_of,
};
use crate::check::{favicon, ogp, resolve, resolved};
use crate::fetch::{self, fetched, Probe, Response};
use crate::page::{from_utf8_lossy, lossy_utf8, Page};
use crate::report;
use crate::robots::{
    allowed, as_flags, as_kinds, flags_model, lemma_flags_round_trip, parse_robots, reported_by,
};
use crate::robots_txt::{group_of, longest_match_allows, parse_text, strings_model};
use crate::text::{decimal, push_decimal, push_str, starts_with, str_starts_with};

verus! {

/// The result of one check.
#[derive(Debug, Clone, Copy, PartialEq, Eq, Structural)]
pub enum Level {
    Pass,
    Warn,
    Ng,
    Info,
}

/// The same level in this module's type.
pub open spec fn level_of(l: report::Level) -> Level {
    match l {
        report::Level::Pass => Level::Pass,
        report::Level::Warn => Level::Warn,
        report::Level::Ng => Level::Ng,
        report::Level::Info => Level::Info,
    }
}

/// Converts a level of the report.
pub fn from_level(l: report::Level) -> (r: Level)
    ensures
        r == level_of(l),
{
    match l {
        report::Level::Pass => Level::Pass,
        report::Level::Warn => Level::Warn,
        report::Level::Ng => Level::Ng,
        report::Level::Info => Level::Info,
    }
}

/// One line of a section.
pub struct Item {
    pub label: String,
    pub value: String,
    pub lv: Level,
}

/// A named list of items.
pub struct Section {
    pub name: &'static str,
    pub items: Vec<Item>,
}

/// An item as (label, level, value).
pub open spec fn item_model(i: Item) -> (Seq<char>, Level, Seq<char>) {
    (i.label@, i.lv, i.value@)
}

/// The models of a sequence of items.
pub open spec fn items_model(items: Seq<Item>) -> Seq<(Seq<char>, Level, Seq<char>)> {
    items.map_values(|i: Item| item_model(i))
}

/// Report items in this module's level type.
pub open spec fn converted(items: Seq<report::ItemModel>) -> Seq<(Seq<char>, Level, Seq<char>)> {
    items.map_values(|i: report::ItemModel| (i.0, level_of(i.1), i.2))
}

impl Section {
    /// An empty section.
    pub fn new(name: &'static str) -> (s: Self)
        ensures
            s.name == name,
            s.items@.len() == 0,
    {
        Section { name, items: Vec::new() }
    }

    /// Appends an item.
    pub fn add(&mut self, label: String, lv: Level, value: String)
        ensures
            final(self).name == old(self).name,
            items_model(final(self).items@) == items_model(old(self).items@).push(
                (label@, lv, value@),
            ),
    {
        self.items.push(Item { label, value, lv });
        assert(items_model(self.items@) =~= items_model(old(self).items@).push((label@, lv, value@)));
    }
}

/// A report section in this module's types.
pub fn from_section(s: report::Section) -> (r: Section)
    ensures
        r.name == s.name,
        items_model(r.items@) == converted(report::items_model(s.items@)),
{
    let mut items: Vec<Item> = Vec::new();
    let ghost src = report::items_model(s.items@);
    let n = s.items.len();
    let mut i: usize = 0;
    while i < n
        invariant
            i <= n,
            n == s.items@.len(),
            src == report::items_model(s.items@),
            items_model(items@) == converted(src.take(i as int)),
        decreases n - i,
    {
        let it = &s.items[i];
        let ghost before = items_model(items@);
        items.push(Item { label: it.label.clone(), value: it.value.clone(), lv: from_level(it.level) });
        assert(converted(src.take(i + 1)) =~= converted(src.take(i as int)).push(
            (it.label@, level_of(it.level), it.value@),
        ));
        assert(items_model(items@) =~= before.push((it.label@, level_of(it.level), it.value@)));
        i = i + 1;
    }
    assert(src.take(i as int) == src);
    Section { name: s.name, items }
}

/// `s` followed by its character count, or `""` when `s` is empty.
pub fn counted(s: &str) -> (r: String)
    ensures
        r@ == ogp::counted_text(s@),
{
    ogp::counted(s)
}

/// Judges a page title by its display width.
pub fn title_check(t: &str) -> (r: (Level, String))
    ensures
        (r.0, r.1@) == (level_of(ogp::title_result(t@).0), ogp::title_result(t@).1),
{
    let (l, v) = ogp::title_check(t);
    (from_level(l), v)
}

/// Judges an OGP image size. Recommended 1200x630 (1.91:1); Facebook's
/// minimum is 200x200.
pub fn image_check(w: usize, h: usize) -> (r: (Level, String))
    ensures
        (r.0, r.1@) == (
            level_of(ogp::image_result(w as nat, h as nat).0),
            ogp::image_result(w as nat, h as nat).1,
        ),
{
    let (l, v) = ogp::image_check(w, h);
    (from_level(l), v)
}

/// Judges a robots directive list.
pub fn directive_level(v: &str) -> (l: Level)
    ensures
        l == level_of(crate::check::robots::directive_level_of(v@)),
{
    from_level(crate::check::robots::directive_level(v))
}

/// Resolves `r` against `base`; `r` as it is where that fails.
pub fn abs(base: &str, r: &str) -> (u: String)
    ensures
        u@ == resolved(base@, r@),
{
    resolve(base, r)
}

/// Parses an HTML page.
pub fn parse(body: &[u8]) -> (p: Page)
    ensures
        p.title@ == crate::page::parsed_title(body@),
        p.meta_model() == crate::page::parsed_meta(body@),
        p.links_model() == crate::page::parsed_links(body@),
{
    Page::parse(body)
}

/// The level and summary of a fetched URL.
pub fn probe(u: &str, want_type: &str, got: Result<Response, String>) -> (r: (Level, String))
    ensures
        r.0 == level_of(fetch::probe_of(u@, want_type@, fetched(got)).0),
        r.1@ == fetch::probe_of(u@, want_type@, fetched(got)).1,
{
    let (l, s, _) = probe_body(u, want_type, got);
    (l, s)
}

/// The level, summary and body of a fetched URL.
pub fn probe_body(u: &str, want_type: &str, got: Result<Response, String>) -> (r: (Level, String, Vec<u8>))
    ensures
        r.0 == level_of(fetch::probe_of(u@, want_type@, fetched(got)).0),
        r.1@ == fetch::probe_of(u@, want_type@, fetched(got)).1,
        r.2@ == fetch::probe_of(u@, want_type@, fetched(got)).2,
{
    let p = fetch::probe(u, want_type, got);
    (from_level(p.level), p.summary, p.body)
}

/// Adds the `og:image` size items.
pub fn og_image_size(s: &mut Section, p: &Page, body: &[u8])
    ensures
        final(s).name == old(s).name,
        items_model(final(s).items@) == items_model(old(s).items@) + converted(
            ogp::size_items(p.meta_model(), body@),
        ),
{
    let mut tmp = report::Section::new("");
    assert(report::items_model(tmp.items@) =~= Seq::<report::ItemModel>::empty());
    ogp::image_size(&mut tmp, p, body);
    assert(report::items_model(tmp.items@) =~= ogp::size_items(p.meta_model(), body@));
    let t = from_section(tmp);
    let ghost start = items_model(s.items@);
    let mut i: usize = 0;
    while i < t.items.len()
        invariant
            i <= t.items.len(),
            s.name == old(s).name,
            items_model(s.items@) == start + items_model(t.items@).take(i as int),
        decreases t.items.len() - i,
    {
        let it = &t.items[i];
        s.add(it.label.clone(), it.lv, it.value.clone());
        assert(items_model(t.items@).take(i + 1) =~= items_model(t.items@).take(i as int).push(item_model(*it)));
        i = i + 1;
    }
    assert(items_model(t.items@).take(i as int) == items_model(t.items@));
}

/// The OGP section, given the probes of the image URLs, one for each image
/// tag, in order.
pub fn check_ogp(p: &Page, probes: &Vec<Probe>) -> (s: Section)
    requires
        probes@.len() == ogp::images(p.meta_model()).len(),
    ensures
        s.name@ == "OGP"@,
        items_model(s.items@) == converted(ogp::ogp_items(p.title@, p.meta_model(), probes@)),
{
    from_section(ogp::check(p, probes))
}

/// The favicon section, given the probes of the icon URLs and then of
/// `/favicon.ico`.
pub fn check_favicon(p: &Page, probes: &Vec<Probe>) -> (s: Section)
    requires
        probes@.len() == favicon::link_targets(p.links_model()).len() + 1,
    ensures
        s.name@ == "Favicon"@,
        items_model(s.items@) == converted(
            favicon::favicon_items(p.links_model(), probes_model(probes@)),
        ),
{
    from_section(favicon::check(p, probes))
}

/// The user agent followed (`googlebot` where it has a group, else `*`).
pub open spec fn agent_of(groups: crate::robots_txt::GroupsModel) -> Seq<char> {
    if group_of(groups, "googlebot"@) is Some {
        "googlebot"@
    } else {
        "*"@
    }
}

/// The rules of that agent, none where it has no group.
pub open spec fn agent_rules(groups: crate::robots_txt::GroupsModel) -> Seq<crate::robots_txt::RuleModel> {
    match group_of(groups, agent_of(groups)) {
        Some(r) => r,
        None => seq![],
    }
}

/// The crawlability item: allowed by the longest matching rule, with the
/// rule that `allowed` reports.
pub open spec fn crawl_value(groups: crate::robots_txt::GroupsModel, path: Seq<char>, by: Seq<char>) -> (Seq<char>, Level, Seq<char>) {
    let ua = agent_of(groups);
    if longest_match_allows(agent_rules(groups), path) {
        ("クロール可否"@, Level::Pass, "許可（User-agent: "@ + ua + "）"@ + by)
    } else {
        ("クロール可否"@, Level::Ng, "ブロック（User-agent: "@ + ua + "）"@ + by)
    }
}

/// The robots.txt text, or what stands in for it: the error message, or the
/// status where robots.txt was not 200.
pub open spec fn robots_text(got: Result<(u16, Seq<char>, Seq<u8>), Seq<char>>) -> Seq<char> {
    match got {
        Err(e) => e,
        Ok((status, _, body)) => if status != 200 {
            decimal(status as nat)
        } else {
            lossy_utf8(body)
        },
    }
}

/// The robots.txt items (after the items from the page itself): one on
/// fetching it; where it was read, the crawlability item (allowed by the
/// longest matching rule, naming the rule that decided), then the sitemaps.
pub open spec fn robots_rest(
    res: Response,
    got: Result<(u16, Seq<char>, Seq<u8>), Seq<char>>,
    probes: Seq<Probe>,
    rest: Seq<(Seq<char>, Level, Seq<char>)>,
) -> bool {
    match got {
        Err(e) => rest == seq![("robots.txt"@, Level::Ng, e)],
        Ok((status, ct, body)) => if status >= 500 {
            rest == seq![("robots.txt"@, Level::Ng, decimal(status as nat) + "（Google は全ブロック扱い）"@)]
        } else if status != 200 {
            rest == seq![("robots.txt"@, Level::Warn, decimal(status as nat) + "（無し＝全クロール許可扱い）"@)]
        } else {
            let st = parse_text(lossy_utf8(body));
            let path = crawl_path(res);
            let rules = agent_rules(st.groups);
            &&& rest.len() >= 2
            &&& rest[0] == (if !starts_with(ct, "text/plain"@) {
                ("robots.txt"@, Level::Warn, "200 だが Content-Type が "@ + ct)
            } else {
                ("robots.txt"@, Level::Pass, "200 "@ + robots_url_of(res))
            })
            &&& rest[1] == crawl_value(st.groups, path, reported_by(as_flags(rules), path))
            &&& rest.skip(2) == (if st.sitemaps.len() == 0 {
                seq![("Sitemap"@, Level::Warn, "robots.txt に記載なし"@)]
            } else {
                seq![]
            }) + converted(
                probes_model(probes).map_values(
                    |q: (report::Level, Seq<char>, Seq<u8>)| ("Sitemap"@, q.0, q.1),
                ),
            )
        },
    }
}

/// The robots section and the robots.txt text (or the error or status in
/// its place).
pub fn check_robots(res: &Response, p: &Page, robots: &Result<Response, String>, sitemap_probes: &Vec<Probe>) -> (r: (Section, String))
    requires
        sitemap_probes@.len() == crate::check::robots::sitemaps_of(fetched(*robots)).len(),
        crate::check::url_path_query(res.url@) is Some,
    ensures
        r.0.name@ == "Robots"@,
        r.1@ == robots_text(fetched(*robots)),
        items_model(r.0.items@).take(page_items(*res, p.meta_model(), p.links_model()).len() as int) == converted(page_items(*res, p.meta_model(), p.links_model())),
        robots_rest(
            *res,
            fetched(*robots),
            sitemap_probes@,
            items_model(r.0.items@).skip(page_items(*res, p.meta_model(), p.links_model()).len() as int),
        ),
{
    let mut tmp = report::Section::new("Robots");
    assert(report::items_model(tmp.items@) =~= Seq::<report::ItemModel>::empty());
    add_page_items(&mut tmp, res, p);
    let mut s = from_section(tmp);
    let ghost head = items_model(s.items@);
    assert(head.len() == page_items(*res, p.meta_model(), p.links_model()).len());
    assert(head.take(head.len() as int) == head);
    let r = match robots {
        Ok(r) => r,
        Err(e) => {
            s.add("robots.txt".to_owned(), Level::Ng, e.clone());
            assert(items_model(s.items@).skip(head.len() as int) =~= seq![("robots.txt"@, Level::Ng, e@)]);
            assert(items_model(s.items@).take(head.len() as int) =~= head);
            return (s, e.clone());
        },
    };
    if r.status >= 500 || r.status != 200 {
        let mut v = String::new();
        push_decimal(&mut v, r.status as u128);
        let code = v.clone();
        if r.status >= 500 {
            push_str(&mut v, "（Google は全ブロック扱い）");
            s.add("robots.txt".to_owned(), Level::Ng, v);
        } else {
            push_str(&mut v, "（無し＝全クロール許可扱い）");
            s.add("robots.txt".to_owned(), Level::Warn, v);
        }
        assert(items_model(s.items@).take(head.len() as int) =~= head);
        assert(items_model(s.items@).skip(head.len() as int) =~= seq![items_model(s.items@).last()]);
        return (s, code);
    }
    if !str_starts_with(r.content_type.as_str(), "text/plain") {
        let mut v = "200 だが Content-Type が ".to_owned();
        push_str(&mut v, r.content_type.as_str());
        s.add("robots.txt".to_owned(), Level::Warn, v);
    } else {
        let mut v = "200 ".to_owned();
        let u = robots_url(res);
        push_str(&mut v, u.as_str());
        s.add("robots.txt".to_owned(), Level::Pass, v);
    }
    let txt = from_utf8_lossy(r.body.as_slice());
    let (groups, sitemaps) = parse_robots(txt.as_str());
    let ua: &str = if groups.contains_key("googlebot") {
        "googlebot"
    } else {
        "*"
    };
    let none: Vec<crate::robots::Rule> = Vec::new();
    let rules: &Vec<crate::robots::Rule> = match groups.get(ua) {
        Some(v) => v,
        None => &none,
    };
    let ghost st = parse_text(lossy_utf8(r.body@));
    assert(ua@ == agent_of(st.groups));
    assert(as_kinds(flags_model(rules@)) =~= agent_rules(st.groups));
    proof {
        lemma_flags_round_trip(flags_model(rules@));
    }
    let path = crate::check::robots::crawl_path_of(res);
    let (ok, by) = allowed(rules.as_slice(), path.as_str());
    let mut v = String::new();
    if ok {
        push_str(&mut v, "許可（User-agent: ");
    } else {
        push_str(&mut v, "ブロック（User-agent: ");
    }
    push_str(&mut v, ua);
    push_str(&mut v, "）");
    push_str(&mut v, by.as_str());
    s.add("クロール可否".to_owned(), if ok { Level::Pass } else { Level::Ng }, v);
    assert(items_model(s.items@).last() == crawl_value(st.groups, path@, by@));
    let ghost mid = items_model(s.items@);
    if sitemaps.len() == 0 {
        s.add("Sitemap".to_owned(), Level::Warn, "robots.txt に記載なし".to_owned());
    }
    let ghost before_probes = items_model(s.items@);
    let ghost pm = converted(probes_model(sitemap_probes@).map_values(|q: (report::Level, Seq<char>, Seq<u8>)| ("Sitemap"@, q.0, q.1)));
    let mut i: usize = 0;
    while i < sitemap_probes.len()
        invariant
            i <= sitemap_probes.len(),
            s.name@ == "Robots"@,
            pm.len() == sitemap_probes.len(),
            pm == converted(probes_model(sitemap_probes@).map_values(|q: (report::Level, Seq<char>, Seq<u8>)| ("Sitemap"@, q.0, q.1))),
            items_model(s.items@) == before_probes + pm.take(i as int),
        decreases sitemap_probes.len() - i,
    {
        let pr = &sitemap_probes[i];
        assert(pm[i as int] == ("Sitemap"@, level_of(pr.level), pr.summary@));
        s.add("Sitemap".to_owned(), from_level(pr.level), pr.summary.clone());
        assert(pm.take(i + 1) =~= pm.take(i as int).push(pm[i as int]));
        i = i + 1;
    }
    assert(pm.take(i as int) == pm);
    assert(items_model(s.items@).take(head.len() as int) =~= head);
    let ghost rest = items_model(s.items@).skip(head.len() as int);
    assert(rest[1] == mid.last());
    assert(rest.skip(2) =~= before_probes.skip(mid.len() as int) + pm);
    assert(rest[0] == (if !starts_with(r.content_type@, "text/plain"@) {
        ("robots.txt"@, Level::Warn, "200 だが Content-Type が "@ + r.content_type@)
    } else {
        ("robots.txt"@, Level::Pass, "200 "@ + robots_url_of(*res))
    }));
    assert(strings_model(sitemaps@).len() == sitemaps@.len());
    assert(rest.skip(2) == (if st.sitemaps.len() == 0 {
        seq![("Sitemap"@, Level::Warn, "robots.txt に記載なし"@)]
    } else {
        seq![]
    }) + pm);
    assert(rest.len() >= 2);
    assert(robots_rest(*res, Ok((r.status, r.content_type@, r.body@)), sitemap_probes@, rest));
    assert(robots_rest(*res, fetched(*robots), sitemap_probes@, rest));
    (s, txt)
}

/// Whether what was fetched fits the checks of the fetched page `f`: one
/// probe per image tag, per icon link and `/favicon.ico`, and per sitemap,
/// and a page URL that parses.
pub open spec fn inputs_fit(
    f: Response,
    image_probes: Seq<Probe>,
    favicon_probes: Seq<Probe>,
    robots: Result<Response, String>,
    sitemap_probes: Seq<Probe>,
) -> bool {
    &&& favicon_probes.len() == favicon::link_targets(crate::page::parsed_links(f.body@)).len() + 1
    &&& image_probes.len() == ogp::images(crate::page::parsed_meta(f.body@)).len()
    &&& sitemap_probes.len() == crate::check::robots::sitemaps_of(fetched(robots)).len()
    &&& crate::check::url_path_query(f.url@) is Some
}

/// The sections of a checked page, or the fetch error: OGP, Favicon,
/// Robots and robots.txt, as [`check`] gives them.
pub open spec fn check_outcome(
    page: Result<Response, String>,
    image_probes: Seq<Probe>,
    favicon_probes: Seq<Probe>,
    robots: Result<Response, String>,
    sitemap_probes: Seq<Probe>,
    r: Result<Vec<Section>, String>,
) -> bool {
    &&& page is Err ==> r is Err
    &&& page matches Err(e) ==> r matches Err(e2) && e2@ == e@
    &&& page is Ok ==> r is Ok
    &&& r matches Ok(v) ==> page matches Ok(f) && {
        let title = crate::page::parsed_title(f.body@);
        let meta = crate::page::parsed_meta(f.body@);
        let links = crate::page::parsed_links(f.body@);
        let head = page_items(f, meta, links);
        &&& v@.len() == 4
        &&& v@[0].name@ == "OGP"@
        &&& items_model(v@[0].items@) == converted(ogp::ogp_items(title, meta, image_probes))
        &&& v@[1].name@ == "Favicon"@
        &&& items_model(v@[1].items@) == converted(
            favicon::favicon_items(links, probes_model(favicon_probes)),
        )
        &&& v@[2].name@ == "Robots"@
        &&& items_model(v@[2].items@).take(head.len() as int) == converted(head)
        &&& robots_rest(f, fetched(robots), sitemap_probes, items_model(v@[2].items@).skip(head.len() as int))
        &&& v@[3].name@ == "robots.txt"@
        &&& items_model(v@[3].items@) == seq![(Seq::<char>::empty(), Level::Info, robots_text(fetched(robots)))]
    }
}

/// Checks a fetched page, given the probes of its image URLs, of its icons
/// and of the sitemaps (each in the order of its targets), and returns the
/// sections OGP, Favicon, Robots and robots.txt (its text, or what stands
/// in for it); the fetch error where the page could not be fetched.
pub fn check(
    page: Result<Response, String>,
    image_probes: &Vec<Probe>,
    favicon_probes: &Vec<Probe>,
    robots: &Result<Response, String>,
    sitemap_probes: &Vec<Probe>,
) -> (r: Result<Vec<Section>, String>)
    requires
        page matches Ok(f) ==> inputs_fit(f, image_probes@, favicon_probes@, *robots, sitemap_probes@),
    ensures
        check_outcome(page, image_probes@, favicon_probes@, *robots, sitemap_probes@, r),
{
    let f = match page {
        Ok(f) => f,
        Err(e) => return Err(e),
    };
    let p = Page::parse(f.body.as_slice());
    let (rs, robots_txt) = check_robots(&f, &p, robots, sitemap_probes);
    let mut raw = Section::new("robots.txt");
    let ghost t = robots_txt@;
    raw.add(String::new(), Level::Info, robots_txt);
    assert(items_model(raw.items@) =~= seq![(Seq::<char>::empty(), Level::Info, t)]);
    let ogp_sec = check_ogp(&p, image_probes);
    let fav = check_favicon(&p, favicon_probes);
    let mut out: Vec<Section> = Vec::new();
    out.push(ogp_sec);
    out.push(fav);
    out.push(rs);
    out.push(raw);
    assert(out@[0] == ogp_sec && out@[1] == fav && out@[2] == rs && out@[3] == raw);
    Ok(out)
}

/// [`check`], where what was fetched fits the page ([`inputs_fit`]); `None`
/// where it does not.
pub fn checked(
    page: Result<Response, String>,
    image_probes: &Vec<Probe>,
    favicon_probes: &Vec<Probe>,
    robots: &Result<Response, String>,
    sitemap_probes: &Vec<Probe>,
) -> (r: Option<Result<Vec<Section>, String>>)
    ensures
        r is None <==> (page matches Ok(f) && !inputs_fit(f, image_probes@, favicon_probes@, *robots, sitemap_probes@)),
        r matches Some(out) ==> check_outcome(page, image_probes@, favicon_probes@, *robots, sitemap_probes@, out),
{
    if let Ok(f) = &page {
        let p = Page::parse(f.body.as_slice());
        let n_img = ogp::image_targets(f.url.as_str(), &p).len();
        let n_fav = favicon::targets(f.url.as_str(), &p).len();
        let n_map = crate::check::robots::sitemap_targets(robots).len();
        let parses = match crate::check::path_and_query(f.url.as_str()) {
            Some(_) => true,
            None => false,
        };
        if image_probes.len() != n_img || favicon_probes.len() != n_fav || sitemap_probes.len() != n_map
            || !parses {
            return None;
        }
    }
    Some(check(page, image_probes, favicon_probes, robots, sitemap_probes))
}

/// The lint reads robots.txt as Google does: the `googlebot` group alone
/// where there is one, whatever the `*` group says; else the `*` group; else
/// no rules at all.
pub proof fn lemma_lint_googlebot_first(groups: crate::robots_txt::GroupsModel)
    ensures
        group_of(groups, "googlebot"@) matches Some(r) ==> agent_of(groups) == "googlebot"@
            && agent_rules(groups) == r,
        group_of(groups, "googlebot"@) is None ==> agent_of(groups) == "*"@ && agent_rules(groups)
            == (match group_of(groups, "*"@) {
            Some(r) => r,
            None => Seq::<crate::robots_txt::RuleModel>::empty(),
        }),
{
}

} // verus!
