//! Favicon section: every `<link>` whose `rel` contains `icon`, the
//! manifest, and `/favicon.ico`.

use vstd::prelude::*;
use crate::check::{resolve, resolved};
use crate::fetch::Probe;
use crate::check::ogp::probes_model;
use crate::page::{link_model, LinkModel, Page};
use crate::report::{items_model, min_level, ItemModel, Level, Section};
use crate::text::{contains, push_str, str_contains, str_eq};

verus! {

/// What a link asks to fetch: (label, href, expected Content-Type prefix).
pub open spec fn link_entry(l: LinkModel) -> Seq<(Seq<char>, Seq<char>, Seq<char>)> {
    if contains(l.0, "icon"@) {
        seq![
            (
                if l.2.len() == 0 {
                    l.0
                } else {
                    l.0 + " "@ + l.2
                },
                l.1,
                "image/"@,
            ),
        ]
    } else if l.0 == "manifest"@ {
        seq![("manifest"@, l.1, seq![])]
    } else {
        seq![]
    }
}

/// The fetches that the links ask for, in order.
pub open spec fn link_targets(links: Seq<LinkModel>) -> Seq<(Seq<char>, Seq<char>, Seq<char>)>
    decreases links.len(),
{
    if links.len() == 0 {
        seq![]
    } else {
        link_targets(links.drop_last()) + link_entry(links.last())
    }
}

/// Some link's `rel` contains `icon`.
pub open spec fn has_icon(links: Seq<LinkModel>) -> bool {
    exists|i: int| 0 <= i < links.len() && contains((#[trigger] links[i]).0, "icon"@)
}

/// The items of the section: one per icon or manifest link with the probe
/// of its URL, a warning where no icon link exists, and `/favicon.ico`
/// (whose absence is at most a warning when a link names an icon).
pub open spec fn favicon_items(links: Seq<LinkModel>, probes: Seq<(Level, Seq<char>, Seq<u8>)>) -> Seq<ItemModel> {
    let lt = link_targets(links);
    let ico = probes.last();
    Seq::new(lt.len(), |i: int| (lt[i].0, probes[i].0, probes[i].1)) + (if !has_icon(links) {
        seq![("link rel=icon"@, Level::Warn, seq![])]
    } else {
        seq![]
    }) + seq![("/favicon.ico"@, min_level(ico.0, Level::Warn), ico.1)]
}

/// Collects the (label, href, want) of the links, in order.
fn entries(p: &Page) -> (v: Vec<(String, String, &'static str)>)
    ensures
        v@.map_values(|e: (String, String, &'static str)| (e.0@, e.1@, e.2@)) == link_targets(
            p.links_model(),
        ),
{
    let ghost lm = p.links_model();
    let mut v: Vec<(String, String, &'static str)> = Vec::new();
    let mut i: usize = 0;
    while i < p.links.len()
        invariant
            i <= p.links.len(),
            lm == p.links_model(),
            v@.map_values(|e: (String, String, &'static str)| (e.0@, e.1@, e.2@)) == link_targets(
                lm.take(i as int),
            ),
        decreases p.links.len() - i,
    {
        let l = &p.links[i];
        assert(lm.take(i + 1).drop_last() == lm.take(i as int));
        assert(lm.take(i + 1).last() == link_model(*l));
        let ghost before = v@.map_values(|e: (String, String, &'static str)| (e.0@, e.1@, e.2@));
        if str_contains(l.rel.as_str(), "icon") {
            let label = if l.sizes.as_str().is_empty() {
                l.rel.clone()
            } else {
                let mut s = l.rel.clone();
                push_str(&mut s, " ");
                push_str(&mut s, l.sizes.as_str());
                s
            };
            v.push((label, l.href.clone(), "image/"));
        } else if str_eq(l.rel.as_str(), "manifest") {
            v.push(("manifest".to_owned(), l.href.clone(), ""));
            assert(""@ =~= Seq::<char>::empty()) by {
                reveal_strlit("");
            }
        }
        assert(v@.map_values(|e: (String, String, &'static str)| (e.0@, e.1@, e.2@)) =~= before
            + link_entry(link_model(*l)));
        i = i + 1;
    }
    assert(lm.take(i as int) == lm);
    v
}

/// The URLs to fetch for the favicon section with the expected
/// Content-Type prefix: the icon and manifest links resolved against
/// `base`, then `/favicon.ico`.
pub fn targets(base: &str, p: &Page) -> (t: Vec<(String, &'static str)>)
    ensures
        t@.len() == link_targets(p.links_model()).len() + 1,
        forall|i: int|
            0 <= i < link_targets(p.links_model()).len() ==> (#[trigger] t@[i]).0@ == resolved(
                base@,
                link_targets(p.links_model())[i].1,
            ) && t@[i].1@ == link_targets(p.links_model())[i].2,
        t@.last().0@ == resolved(base@, "/favicon.ico"@),
        t@.last().1@ == "image/"@,
{
    let es = entries(p);
    let ghost em = es@.map_values(|e: (String, String, &'static str)| (e.0@, e.1@, e.2@));
    let mut t: Vec<(String, &'static str)> = Vec::new();
    let mut i: usize = 0;
    while i < es.len()
        invariant
            i <= es.len(),
            em == es@.map_values(|e: (String, String, &'static str)| (e.0@, e.1@, e.2@)),
            t@.len() == i,
            forall|k: int|
                0 <= k < i ==> (#[trigger] t@[k]).0@ == resolved(base@, em[k].1) && t@[k].1@
                    == em[k].2,
        decreases es.len() - i,
    {
        let u = resolve(base, es[i].1.as_str());
        t.push((u, es[i].2));
        i = i + 1;
    }
    let u = resolve(base, "/favicon.ico");
    t.push((u, "image/"));
    t
}

/// The favicon section, given the probes of [`targets`] in the same order
/// (the last one being that of `/favicon.ico`).
pub fn check(p: &Page, probes: &Vec<Probe>) -> (s: Section)
    requires
        probes@.len() == link_targets(p.links_model()).len() + 1,
    ensures
        s.name@ == "Favicon"@,
        items_model(s.items@) == favicon_items(p.links_model(), probes_model(probes@)),
{
    let es = entries(p);
    let ghost em = es@.map_values(|e: (String, String, &'static str)| (e.0@, e.1@, e.2@));
    let ghost pm = probes_model(probes@);
    let mut s = Section::new("Favicon");
    assert(items_model(s.items@) =~= Seq::<ItemModel>::empty());
    let mut i: usize = 0;
    while i < es.len()
        invariant
            i <= es.len(),
            es.len() + 1 == probes.len(),
            s.name@ == "Favicon"@,
            em == es@.map_values(|e: (String, String, &'static str)| (e.0@, e.1@, e.2@)),
            pm == probes_model(probes@),
            items_model(s.items@) == Seq::new(i as nat, |k: int| (em[k].0, pm[k].0, pm[k].1)),
        decreases es.len() - i,
    {
        let ghost before = items_model(s.items@);
        s.add(es[i].0.clone(), probes[i].level, probes[i].summary.clone());
        assert(items_model(s.items@) =~= Seq::new((i + 1) as nat, |k: int| (em[k].0, pm[k].0, pm[k].1)));
        i = i + 1;
    }
    let mut found = false;
    let mut j: usize = 0;
    while j < p.links.len()
        invariant
            j <= p.links.len(),
            found == exists|k: int| 0 <= k < j && contains((#[trigger] p.links@[k]).rel@, "icon"@),
        decreases p.links.len() - j,
    {
        if str_contains(p.links[j].rel.as_str(), "icon") {
            found = true;
        }
        j = j + 1;
    }
    proof {
        let lm = p.links_model();
        assert(found == has_icon(lm)) by {
            if found {
                let k = choose|k: int| 0 <= k < j && contains((#[trigger] p.links@[k]).rel@, "icon"@);
                assert(lm[k].0 == p.links@[k].rel@);
            }
            if has_icon(lm) {
                let k = choose|k: int| 0 <= k < lm.len() && contains((#[trigger] lm[k]).0, "icon"@);
                assert(lm[k].0 == p.links@[k].rel@);
            }
        }
    }
    if !found {
        s.add("link rel=icon".to_owned(), Level::Warn, String::new());
    }
    let ico = &probes[probes.len() - 1];
    s.add("/favicon.ico".to_owned(), ico.level.at_most(Level::Warn), ico.summary.clone());
    assert(pm.last() == ico.model());
    assert(items_model(s.items@) =~= favicon_items(p.links_model(), pm));
    s
}

/// `/favicon.ico` is never worse than a warning: a link may name the icon.
pub proof fn lemma_favicon_ico_not_ng(links: Seq<LinkModel>, probes: Seq<(Level, Seq<char>, Seq<u8>)>)
    ensures
        favicon_items(links, probes).last().1 != Level::Ng,
{
}

/// The target of an icon link: labelled with its `rel` (and `sizes`),
/// fetching its `href`, expecting an image.
pub open spec fn icon_target(l: LinkModel) -> (Seq<char>, Seq<char>, Seq<char>) {
    (
        if l.2.len() == 0 {
            l.0
        } else {
            l.0 + " "@ + l.2
        },
        l.1,
        "image/"@,
    )
}

/// Every link whose `rel` contains `icon` (`icon`, `shortcut icon`,
/// `apple-touch-icon`, ...) is fetched as an image, once, in link order, and
/// nothing else is: the targets that expect an image are exactly the icon
/// links' targets.
pub proof fn lemma_icon_links_fetched(links: Seq<LinkModel>)
    ensures
        link_targets(links).filter(|t: (Seq<char>, Seq<char>, Seq<char>)| t.2 == "image/"@)
            == links.filter(|l: LinkModel| contains(l.0, "icon"@)).map_values(
            |l: LinkModel| icon_target(l),
        ),
    decreases links.len(),
{
    let img = |t: (Seq<char>, Seq<char>, Seq<char>)| t.2 == "image/"@;
    let ic = |l: LinkModel| contains(l.0, "icon"@);
    if links.len() == 0 {
        reveal(Seq::filter);
        assert(link_targets(links).filter(img) =~= Seq::<(Seq<char>, Seq<char>, Seq<char>)>::empty());
        assert(links.filter(ic) =~= links);
    } else {
        let init = links.drop_last();
        let l = links.last();
        lemma_icon_links_fetched(init);
        assert(links =~= init.push(l));
        init.lemma_filter_push(l, ic);
        let lt = link_targets(init);
        let e = link_entry(l);
        assert(link_targets(links) == lt + e);
        Seq::filter_distributes_over_add(lt, e, img);
        assert(""@ =~= Seq::<char>::empty()) by {
            reveal_strlit("");
        }
        assert("image/"@ != Seq::<char>::empty()) by {
            reveal_strlit("image/");
        }
        reveal(Seq::filter);
        if ic(l) {
            assert(e == seq![icon_target(l)]);
            assert(e.filter(img) =~= e) by {
                assert(e.drop_last() =~= Seq::<(Seq<char>, Seq<char>, Seq<char>)>::empty());
            }
            assert(init.filter(ic).push(l).map_values(|l: LinkModel| icon_target(l)) =~= init.filter(
                ic,
            ).map_values(|l: LinkModel| icon_target(l)).push(icon_target(l)));
        } else {
            let none = Seq::<(Seq<char>, Seq<char>, Seq<char>)>::empty();
            assert(none.filter(img) =~= none);
            if l.0 == "manifest"@ {
                let x = ("manifest"@, l.1, Seq::<char>::empty());
                assert(e =~= none.push(x));
                none.lemma_filter_push(x, img);
                assert(!img(x));
            } else {
                assert(e =~= none);
            }
            assert(e.filter(img) =~= none);
        }
        assert(link_targets(links).filter(img) =~= lt.filter(img) + e.filter(img));
    }
}

} // verus!
