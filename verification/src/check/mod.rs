//! The checks of a page, each producing one section of the report.

pub mod favicon;
pub mod ogp;
pub mod robots;

use vstd::prelude::*;
use crate::check::ogp::probes_model;
use crate::fetch::{fetched, Probe, Response};
use crate::page::{opt_model, Page};
use crate::report::{items_model, Report, Section};
use crate::text::{trim, trim_str};

verus! {

/// The URL that `reference` denotes relative to `base`, as
/// `url::Url::join` resolves it; `None` where `base` does not parse as a URL
/// or the join fails.
pub uninterp spec fn url_join(base: Seq<char>, reference: Seq<char>) -> Option<Seq<char>>;

/// Parses `base` with `url::Url::parse` and resolves `reference` against it
/// with `Url::join`, returning the serialized URL; the result is named
/// [`url_join`].
#[verifier::external_body]
pub(crate) fn join_url(base: &str, reference: &str) -> (r: Option<String>)
    ensures
        opt_model(r) == url_join(base@, reference@),
{
    let base = url::Url::parse(base).ok()?;
    base.join(reference).ok().map(String::from)
}

/// The path of the URL `url` and its query, if it has one, as `url::Url`
/// gives them; `None` where `url` does not parse as a URL.
pub uninterp spec fn url_path_query(url: Seq<char>) -> Option<(Seq<char>, Option<Seq<char>>)>;

/// Parses `url` with `url::Url::parse` and reads `Url::path` and
/// `Url::query`; the result is named [`url_path_query`].
#[verifier::external_body]
pub(crate) fn path_and_query(url: &str) -> (r: Option<(String, Option<String>)>)
    ensures
        match r {
            Some(pq) => url_path_query(url@) == Some((pq.0@, opt_model(pq.1))),
            None => url_path_query(url@) is None,
        },
{
    let u = url::Url::parse(url).ok()?;
    Some((u.path().to_string(), u.query().map(String::from)))
}

/// `r` (trimmed) resolved against `base`; `r` as it is where that fails.
pub open spec fn resolved(base: Seq<char>, r: Seq<char>) -> Seq<char> {
    match url_join(base, trim(r)) {
        Some(u) => u,
        None => r,
    }
}

/// Turns a relative URL into an absolute one; where it cannot be resolved it
/// is returned as it is.
pub fn resolve(base: &str, r: &str) -> (u: String)
    ensures
        u@ == resolved(base@, r@),
{
    let t = trim_str(r);
    match join_url(base, t.as_str()) {
        Some(u) => u,
        None => r.to_owned(),
    }
}

/// The report of a page from its three checked sections and the robots.txt
/// body, in the order OGP, favicon, robots.
pub fn report(url: &str, ogp: Section, favicon: Section, robots: (Section, Option<String>)) -> (r: Report)
    ensures
        r.url@ == url@,
        r.sections@ == seq![ogp, favicon, robots.0],
        r.robots_txt == robots.1,
{
    let (rs, robots_txt) = robots;
    let mut sections: Vec<Section> = Vec::new();
    sections.push(ogp);
    sections.push(favicon);
    sections.push(rs);
    assert(sections@ =~= seq![ogp, favicon, robots.0]);
    Report { url: url.to_owned(), sections, robots_txt }
}

/// Whether what was fetched for a page fits its checks: one probe per image
/// tag, per icon link and `/favicon.ico`, and per sitemap, and a page URL
/// that parses.
pub open spec fn fetches_fit(
    res: Response,
    page: Page,
    ogp_probes: Seq<Probe>,
    favicon_probes: Seq<Probe>,
    robots: Result<Response, String>,
    sitemap_probes: Seq<Probe>,
) -> bool {
    &&& ogp_probes.len() == ogp::images(page.meta_model()).len()
    &&& favicon_probes.len() == favicon::link_targets(page.links_model()).len() + 1
    &&& sitemap_probes.len() == robots::sitemaps_of(fetched(robots)).len()
    &&& url_path_query(res.url@) is Some
}

/// The report of the page at `url` (its response `res`, parsed as `page`),
/// given the probes of [`ogp::image_targets`], [`favicon::targets`] and
/// [`robots::sitemap_targets`] and what fetching robots.txt gave; `None`
/// where these do not fit ([`fetches_fit`]).
pub fn page_report(
    url: &str,
    res: &Response,
    page: &Page,
    ogp_probes: &Vec<Probe>,
    favicon_probes: &Vec<Probe>,
    robots: &Result<Response, String>,
    sitemap_probes: &Vec<Probe>,
) -> (r: Option<Report>)
    ensures
        r is Some <==> fetches_fit(*res, *page, ogp_probes@, favicon_probes@, *robots, sitemap_probes@),
        r matches Some(rep) ==> {
            let rt = robots::robots_txt_items(*res, fetched(*robots), probes_model(sitemap_probes@));
            &&& rep.url@ == url@
            &&& rep.sections@.len() == 3
            &&& rep.sections@[0].name@ == "OGP"@
            &&& items_model(rep.sections@[0].items@) == ogp::ogp_items(page.title@, page.meta_model(), ogp_probes@)
            &&& rep.sections@[1].name@ == "Favicon"@
            &&& items_model(rep.sections@[1].items@) == favicon::favicon_items(
                page.links_model(),
                probes_model(favicon_probes@),
            )
            &&& rep.sections@[2].name@ == "Robots"@
            &&& items_model(rep.sections@[2].items@) == robots::page_items(
                *res,
                page.meta_model(),
                page.links_model(),
            ) + rt.0
            &&& opt_model(rep.robots_txt) == rt.1
        },
{
    let n_img = ogp::image_targets(res.url.as_str(), page).len();
    let n_fav = favicon::targets(res.url.as_str(), page).len();
    let n_map = robots::sitemap_targets(robots).len();
    let parses = match path_and_query(res.url.as_str()) {
        Some(_) => true,
        None => false,
    };
    if ogp_probes.len() != n_img || favicon_probes.len() != n_fav || sitemap_probes.len() != n_map
        || !parses {
        return None;
    }
    let o = ogp::check(page, ogp_probes);
    let f = favicon::check(page, favicon_probes);
    let rb = robots::check(res, page, robots, sitemap_probes);
    let ghost rt1 = rb.1;
    let rep = report(url, o, f, rb);
    assert(opt_model(rep.robots_txt) == opt_model(rt1));
    Some(rep)
}

} // verus!
