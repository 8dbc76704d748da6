//! The parts of an HTML page that the checks read: title, `<meta>` values
//! and `<link>` elements.

use vstd::prelude::*;
use vstd::utf8::{decode_utf8, valid_utf8};
use crate::text::{
    ascii_lower, is_ascii, lemma_ascii_lower_twice, lowercase, str_eq, to_lowercase, trim, trim_str,
};

verus! {

/// Text of a byte string with invalid UTF-8 sequences replaced by U+FFFD, the
/// result of `String::from_utf8_lossy`.
pub uninterp spec fn lossy_utf8(bytes: Seq<u8>) -> Seq<char>;

/// Calls `String::from_utf8_lossy`: valid UTF-8 is decoded as it is; the
/// result in general is named [`lossy_utf8`].
#[verifier::external_body]
pub(crate) fn from_utf8_lossy(bytes: &[u8]) -> (s: String)
    ensures
        s@ == lossy_utf8(bytes@),
        valid_utf8(bytes@) ==> s@ == decode_utf8(bytes@),
{
    String::from_utf8_lossy(bytes).into_owned()
}

/// An element that a CSS selector found: its text (all descendant text
/// nodes, concatenated) and the values of the requested attributes.
pub struct Element {
    pub text: String,
    pub attrs: Vec<Option<String>>,
}

/// An element as a mathematical value.
pub type ElementModel = (Seq<char>, Seq<Option<Seq<char>>>);

/// The model of an optional string.
pub open spec fn opt_model(o: Option<String>) -> Option<Seq<char>> {
    match o {
        Some(s) => Some(s@),
        None => None,
    }
}

/// The model of an element.
pub open spec fn element_model(e: Element) -> ElementModel {
    (e.text@, e.attrs@.map_values(|a: Option<String>| opt_model(a)))
}

/// The models of a sequence of elements.
pub open spec fn elements_model(v: Seq<Element>) -> Seq<ElementModel> {
    v.map_values(|e: Element| element_model(e))
}

/// The elements of the HTML document `html` that `selector` matches, in the
/// order in which `scraper` created their nodes, each with its text and the
/// values of `attrs`; `None` where the selector does not parse. This is what
/// `scraper` computes.
pub uninterp spec fn html_select(
    html: Seq<char>,
    selector: Seq<char>,
    attrs: Seq<Seq<char>>,
) -> Option<Seq<ElementModel>>;

/// Parses `html` with `scraper::Html::parse_document` and `selector` with
/// `scraper::Selector::parse`, then runs `Html::select`, reading each
/// element's text and the requested attributes. The result is named
/// [`html_select`]; each element has one value per requested attribute.
#[verifier::external_body]
pub(crate) fn select(html: &str, selector: &str, attrs: &Vec<String>) -> (r: Option<Vec<Element>>)
    ensures
        match r {
            Some(v) => html_select(html@, selector@, attrs@.map_values(|a: String| a@)) == Some(
                elements_model(v@),
            ) && forall|i: int| 0 <= i < v@.len() ==> (#[trigger] v@[i]).attrs@.len() == attrs@.len(),
            None => html_select(html@, selector@, attrs@.map_values(|a: String| a@)) is None,
        },
{
    let sel = match scraper::Selector::parse(selector) {
        Ok(sel) => sel,
        Err(_) => return None,
    };
    let doc = scraper::Html::parse_document(html);
    let found = doc.select(&sel).map(|e| Element {
        text: e.text().collect(),
        attrs: attrs.iter().map(|a| e.value().attr(a).map(String::from)).collect(),
    });
    Some(found.collect())
}

/// A `<link>` element.
pub struct Link {
    /// Lowercased.
    pub rel: String,
    pub href: String,
    pub sizes: String,
}

/// A link as (rel, href, sizes).
pub type LinkModel = (Seq<char>, Seq<char>, Seq<char>);

/// The model of a link.
pub open spec fn link_model(l: Link) -> LinkModel {
    (l.rel@, l.href@, l.sizes@)
}

/// What the checks need from an HTML page.
pub struct Page {
    pub title: String,
    /// key: `property` / `name` (lowercase). The first of equal keys wins.
    pub meta: Vec<(String, String)>,
    pub links: Vec<Link>,
}

/// The value of `o`, or `""`.
pub open spec fn or_empty(o: Option<Seq<char>>) -> Seq<char> {
    match o {
        Some(s) => s,
        None => Seq::empty(),
    }
}

/// The key of a `<meta>` element from its `property`, `name` and `content`
/// values: a non-empty `property`, else `name`, else `""`, lowercased.
pub open spec fn meta_key(e: ElementModel) -> Seq<char> {
    let prop = e.1[0];
    let name = e.1[1];
    lowercase(
        match prop {
            Some(p) if p.len() > 0 => p,
            _ => or_empty(name),
        },
    )
}

/// The first value stored under `key`.
pub open spec fn lookup(m: Seq<(Seq<char>, Seq<char>)>, key: Seq<char>) -> Option<Seq<char>>
    decreases m.len(),
{
    if m.len() == 0 {
        None
    } else if m[0].0 == key {
        Some(m[0].1)
    } else {
        lookup(m.drop_first(), key)
    }
}

/// The `(key, content)` pairs of the `<meta>` elements, in order: elements
/// with an empty key are skipped, and of equal keys the first one stays.
pub open spec fn meta_table(elems: Seq<ElementModel>) -> Seq<(Seq<char>, Seq<char>)>
    decreases elems.len(),
{
    if elems.len() == 0 {
        seq![]
    } else {
        let m = meta_table(elems.drop_last());
        let e = elems.last();
        let k = meta_key(e);
        if k.len() > 0 && lookup(m, k) is None {
            m.push((k, or_empty(e.1[2])))
        } else {
            m
        }
    }
}

/// The link of a `<link>` element from its `rel`, `href` and `sizes` values.
pub open spec fn link_of(e: ElementModel) -> LinkModel {
    (lowercase(or_empty(e.1[0])), or_empty(e.1[1]), or_empty(e.1[2]))
}

/// The title: the trimmed text of the first `head > title` element, or `""`.
pub open spec fn title_of(titles: Seq<ElementModel>) -> Seq<char> {
    if titles.len() > 0 {
        trim(titles[0].0)
    } else {
        Seq::empty()
    }
}

/// The title of the page whose bytes are `body`.
pub open spec fn parsed_title(body: Seq<u8>) -> Seq<char> {
    title_of(found(html_select(lossy_utf8(body), "head > title"@, seq![])))
}

/// The `<meta>` table of the page whose bytes are `body`.
pub open spec fn parsed_meta(body: Seq<u8>) -> Seq<(Seq<char>, Seq<char>)> {
    meta_table(found(html_select(lossy_utf8(body), "meta"@, meta_attrs())))
}

/// The links of the page whose bytes are `body`.
pub open spec fn parsed_links(body: Seq<u8>) -> Seq<LinkModel> {
    found(html_select(lossy_utf8(body), "link"@, link_attrs())).map_values(
        |e: ElementModel| link_of(e),
    )
}

/// Every element carries three attribute values.
pub open spec fn three_attrs(v: Seq<Element>) -> bool {
    forall|i: int| 0 <= i < v.len() ==> (#[trigger] v[i]).attrs@.len() == 3
}

/// The elements of a selection, none where the selector did not parse.
pub open spec fn found(r: Option<Seq<ElementModel>>) -> Seq<ElementModel> {
    match r {
        Some(v) => v,
        None => seq![],
    }
}

/// The HTML selector of the title and the attributes read from `<meta>` and
/// `<link>` elements.
pub open spec fn meta_attrs() -> Seq<Seq<char>> {
    seq!["property"@, "name"@, "content"@]
}

/// The attributes read from `<link>` elements.
pub open spec fn link_attrs() -> Seq<Seq<char>> {
    seq!["rel"@, "href"@, "sizes"@]
}

fn string_vec3(a: &str, b: &str, c: &str) -> (v: Vec<String>)
    ensures
        v@.map_values(|s: String| s@) == seq![a@, b@, c@],
        v@.len() == 3,
{
    let mut v = Vec::new();
    v.push(a.to_owned());
    v.push(b.to_owned());
    v.push(c.to_owned());
    assert(v@.map_values(|s: String| s@) =~= seq![a@, b@, c@]);
    v
}

/// An optional string's value, or `""`.
fn value_or_empty(o: &Option<String>) -> (s: String)
    ensures
        s@ == or_empty(opt_model(*o)),
{
    match o {
        Some(s) => s.clone(),
        None => String::new(),
    }
}

impl Page {
    /// The `(key, content)` table of the `<meta>` elements.
    pub open spec fn meta_model(&self) -> Seq<(Seq<char>, Seq<char>)> {
        self.meta@.map_values(|e: (String, String)| (e.0@, e.1@))
    }

    /// The links as values.
    pub open spec fn links_model(&self) -> Seq<LinkModel> {
        self.links@.map_values(|l: Link| link_model(l))
    }

    /// Parses an HTML page. (A selector that `scraper` refused would select
    /// nothing; the three used here are plain element selectors.)
    pub fn parse(body: &[u8]) -> (p: Self)
        ensures
            p.title@ == parsed_title(body@),
            p.meta_model() == parsed_meta(body@),
            p.links_model() == parsed_links(body@),
            keys_lowercased(p.meta_model()),
    {
        let html = from_utf8_lossy(body);
        let none: Vec<String> = Vec::new();
        assert(none@.map_values(|s: String| s@) =~= Seq::<Seq<char>>::empty());
        let titles = match select(html.as_str(), "head > title", &none) {
            Some(v) => v,
            None => Vec::new(),
        };
        let ma = string_vec3("property", "name", "content");
        let metas = match select(html.as_str(), "meta", &ma) {
            Some(v) => v,
            None => Vec::new(),
        };
        let la = string_vec3("rel", "href", "sizes");
        let links = match select(html.as_str(), "link", &la) {
            Some(v) => v,
            None => Vec::new(),
        };
        Self::from_elements(&titles, &metas, &links)
    }

    /// Builds the page from the elements that `head > title`, `meta` (with
    /// `property`, `name`, `content`) and `link` (with `rel`, `href`,
    /// `sizes`) found.
    pub fn from_elements(titles: &Vec<Element>, metas: &Vec<Element>, links: &Vec<Element>) -> (p: Self)
        requires
            three_attrs(metas@),
            three_attrs(links@),
        ensures
            p.title@ == title_of(elements_model(titles@)),
            p.meta_model() == meta_table(elements_model(metas@)),
            p.links_model() == elements_model(links@).map_values(|e: ElementModel| link_of(e)),
            keys_lowercased(p.meta_model()),
    {
        let title = if titles.len() > 0 {
            trim_str(titles[0].text.as_str())
        } else {
            String::new()
        };
        let mut meta: Vec<(String, String)> = Vec::new();
        let ghost em = elements_model(metas@);
        let mut i: usize = 0;
        while i < metas.len()
            invariant
                i <= metas.len(),
                three_attrs(metas@),
                em == elements_model(metas@),
                meta@.map_values(|e: (String, String)| (e.0@, e.1@)) == meta_table(em.take(i as int)),
                keys_lowercased(meta@.map_values(|e: (String, String)| (e.0@, e.1@))),
            decreases metas.len() - i,
        {
            let ghost table = meta@.map_values(|e: (String, String)| (e.0@, e.1@));
            let e = &metas[i];
            assert(em.take(i + 1).drop_last() == em.take(i as int));
            assert(em.take(i + 1).last() == element_model(*e));
            assert(e.attrs@.len() == 3);
            let prop = &e.attrs[0];
            let key_src = match prop {
                Some(p) if !p.as_str().is_empty() => p.clone(),
                _ => value_or_empty(&e.attrs[1]),
            };
            let k = to_lowercase(key_src.as_str());
            assert(k@ == meta_key(element_model(*e)));
            proof {
                if is_ascii(key_src@) {
                    lemma_ascii_lower_twice(key_src@);
                }
                assert(lowercased_key(k@));
            }
            if !k.as_str().is_empty() {
                let mut j: usize = 0;
                while j < meta.len() && !str_eq(meta[j].0.as_str(), k.as_str())
                    invariant
                        j <= meta.len(),
                        table == meta@.map_values(|e: (String, String)| (e.0@, e.1@)),
                        forall|t: int| 0 <= t < j ==> meta@[t].0@ != k@,
                    decreases meta.len() - j,
                {
                    j = j + 1;
                }
                proof {
                    lemma_lookup(table, k@, j as int);
                }
                if j == meta.len() {
                    let v = value_or_empty(&e.attrs[2]);
                    meta.push((k, v));
                    assert(meta@.map_values(|e: (String, String)| (e.0@, e.1@)) =~= table.push(
                        (k@, v@),
                    ));
                    assert(keys_lowercased(table.push((k@, v@))));
                }
            }
            i = i + 1;
        }
        assert(em.take(i as int) == em);
        let mut out: Vec<Link> = Vec::new();
        let mut i: usize = 0;
        while i < links.len()
            invariant
                i <= links.len(),
                three_attrs(links@),
                out@.map_values(|l: Link| link_model(l)) == elements_model(links@).take(
                    i as int,
                ).map_values(|e: ElementModel| link_of(e)),
            decreases links.len() - i,
        {
            let e = &links[i];
            assert(e.attrs@.len() == 3);
            let rel = value_or_empty(&e.attrs[0]);
            let l = Link {
                rel: to_lowercase(rel.as_str()),
                href: value_or_empty(&e.attrs[1]),
                sizes: value_or_empty(&e.attrs[2]),
            };
            let ghost before = out@;
            assert(element_model(*e).1[0] == opt_model(e.attrs@[0]));
            assert(element_model(*e).1[1] == opt_model(e.attrs@[1]));
            assert(element_model(*e).1[2] == opt_model(e.attrs@[2]));
            assert(link_model(l) == link_of(element_model(*e)));
            out.push(l);
            assert(out@.map_values(|l: Link| link_model(l)) =~= before.map_values(|l: Link| link_model(l)).push(link_model(l)));
            assert(elements_model(links@).take(i + 1) == elements_model(links@).take(i as int).push(
                element_model(*e),
            ));
            assert(elements_model(links@).take(i + 1).map_values(|e: ElementModel| link_of(e)) =~= elements_model(links@).take(i as int).map_values(|e: ElementModel| link_of(e)).push(link_of(element_model(*e))));
            i = i + 1;
        }
        assert(elements_model(links@).take(i as int) == elements_model(links@));
        Page { title, meta, links: out }
    }

    /// The content of the first `<meta>` whose key is `key`.
    pub fn meta(&self, key: &str) -> (r: Option<&str>)
        ensures
            match r {
                Some(v) => lookup(self.meta_model(), key@) == Some(v@),
                None => lookup(self.meta_model(), key@) is None,
            },
    {
        let ghost table = self.meta_model();
        let mut j: usize = 0;
        while j < self.meta.len() && !str_eq(self.meta[j].0.as_str(), key)
            invariant
                j <= self.meta.len(),
                table == self.meta@.map_values(|e: (String, String)| (e.0@, e.1@)),
                forall|t: int| 0 <= t < j ==> self.meta@[t].0@ != key@,
            decreases self.meta.len() - j,
        {
            j = j + 1;
        }
        proof {
            lemma_lookup(table, key@, j as int);
        }
        if j < self.meta.len() {
            Some(self.meta[j].1.as_str())
        } else {
            None
        }
    }

    /// The first link whose `rel` is `rel`.
    pub fn link(&self, rel: &str) -> (r: Option<&Link>)
        ensures
            match r {
                Some(l) => first_link(self.links_model(), rel@) == Some(link_model(*l)),
                None => first_link(self.links_model(), rel@) is None,
            },
    {
        let ghost lm = self.links_model();
        let mut j: usize = 0;
        while j < self.links.len() && !str_eq(self.links[j].rel.as_str(), rel)
            invariant
                j <= self.links.len(),
                lm == self.links_model(),
                forall|t: int| 0 <= t < j ==> (#[trigger] self.links@[t]).rel@ != rel@,
            decreases self.links.len() - j,
        {
            j = j + 1;
        }
        proof {
            assert forall|t: int| 0 <= t < j implies lm[t].0 != rel@ by {
                assert(lm[t] == link_model(self.links@[t]));
            }
            if j < self.links.len() {
                assert(lm[j as int] == link_model(self.links@[j as int]));
            }
            lemma_first_link(lm, rel@, j as int);
        }
        if j < self.links.len() {
            Some(&self.links[j])
        } else {
            None
        }
    }
}

/// The first link whose `rel` is `rel`.
pub open spec fn first_link(links: Seq<LinkModel>, rel: Seq<char>) -> Option<LinkModel>
    decreases links.len(),
{
    if links.len() == 0 {
        None
    } else if links[0].0 == rel {
        Some(links[0])
    } else {
        first_link(links.drop_first(), rel)
    }
}

/// A position before which no link has `rel` and at which one has (or the
/// end) decides `first_link`.
proof fn lemma_first_link(links: Seq<LinkModel>, rel: Seq<char>, j: int)
    requires
        0 <= j <= links.len(),
        forall|t: int| 0 <= t < j ==> links[t].0 != rel,
        j < links.len() ==> links[j].0 == rel,
    ensures
        j < links.len() ==> first_link(links, rel) == Some(links[j]),
        j == links.len() ==> first_link(links, rel) is None,
    decreases links.len(),
{
    if links.len() > 0 && links[0].0 != rel {
        assert forall|t: int| 0 <= t < j - 1 implies links.drop_first()[t].0 != rel by {
            assert(links.drop_first()[t] == links[t + 1]);
        }
        lemma_first_link(links.drop_first(), rel, j - 1);
    }
}

/// A position before which `key` is absent and at which it is present (or the
/// end) decides `lookup`.
proof fn lemma_lookup(m: Seq<(Seq<char>, Seq<char>)>, key: Seq<char>, j: int)
    requires
        0 <= j <= m.len(),
        forall|t: int| 0 <= t < j ==> m[t].0 != key,
        j < m.len() ==> m[j].0 == key,
    ensures
        j < m.len() ==> lookup(m, key) == Some(m[j].1),
        j == m.len() ==> lookup(m, key) is None,
    decreases m.len(),
{
    if m.len() > 0 && m[0].0 != key {
        assert forall|t: int| 0 <= t < j - 1 implies m.drop_first()[t].0 != key by {
            assert(m.drop_first()[t] == m[t + 1]);
        }
        lemma_lookup(m.drop_first(), key, j - 1);
    }
}

/// Looking up in a table with one more entry at its end.
pub proof fn lemma_lookup_push(m: Seq<(Seq<char>, Seq<char>)>, x: (Seq<char>, Seq<char>), key: Seq<char>)
    ensures
        lookup(m.push(x), key) == if lookup(m, key) is Some {
            lookup(m, key)
        } else if x.0 == key {
            Some(x.1)
        } else {
            None
        },
    decreases m.len(),
{
    if m.len() > 0 {
        assert(m.push(x).drop_first() == m.drop_first().push(x));
        assert(m.push(x)[0] == m[0]);
        lemma_lookup_push(m.drop_first(), x, key);
    } else {
        assert(m.push(x)[0] == x);
        assert(m.push(x).drop_first() =~= Seq::<(Seq<char>, Seq<char>)>::empty());
        assert(lookup(Seq::<(Seq<char>, Seq<char>)>::empty(), key) is None);
    }
}

/// A key found in the table is the key of some element.
proof fn lemma_table_keys(elems: Seq<ElementModel>, key: Seq<char>)
    ensures
        lookup(meta_table(elems), key) is Some ==> exists|j: int|
            0 <= j < elems.len() && meta_key(#[trigger] elems[j]) == key,
    decreases elems.len(),
{
    if elems.len() > 0 {
        let rest = elems.drop_last();
        lemma_table_keys(rest, key);
        let m = meta_table(rest);
        let e = elems.last();
        lemma_lookup_push(m, (meta_key(e), or_empty(e.1[2])), key);
        if lookup(m, key) is Some {
            let j = choose|j: int| 0 <= j < rest.len() && meta_key(#[trigger] rest[j]) == key;
            assert(elems[j] == rest[j]);
        } else if lookup(meta_table(elems), key) is Some {
            assert(meta_key(elems[elems.len() - 1]) == key);
        }
    }
}

/// Of `<meta>` elements with the same key, the first one's content is the
/// one the table keeps.
pub proof fn lemma_meta_first_wins(elems: Seq<ElementModel>, i: int)
    requires
        0 <= i < elems.len(),
        meta_key(elems[i]).len() > 0,
        forall|j: int| 0 <= j < i ==> meta_key(#[trigger] elems[j]) != meta_key(elems[i]),
    ensures
        lookup(meta_table(elems), meta_key(elems[i])) == Some(or_empty(elems[i].1[2])),
    decreases elems.len(),
{
    let k = meta_key(elems[i]);
    let rest = elems.drop_last();
    let m = meta_table(rest);
    let e = elems.last();
    lemma_lookup_push(m, (meta_key(e), or_empty(e.1[2])), k);
    if i == elems.len() - 1 {
        lemma_table_keys(rest, k);
        if lookup(m, k) is Some {
            let j = choose|j: int| 0 <= j < rest.len() && meta_key(#[trigger] rest[j]) == k;
            assert(elems[j] == rest[j]);
        }
    } else {
        assert(rest[i] == elems[i]);
        assert forall|j: int| 0 <= j < i implies meta_key(#[trigger] rest[j]) != meta_key(rest[i]) by {
            assert(rest[j] == elems[j]);
        }
        lemma_meta_first_wins(rest, i);
    }
}

/// Every key that the `<meta>` table holds is non-empty, and is the
/// lowercasing of an attribute value.
pub proof fn lemma_meta_keys(elems: Seq<ElementModel>, key: Seq<char>)
    ensures
        lookup(meta_table(elems), key) is Some ==> key.len() > 0 && exists|s: Seq<char>|
            key == #[trigger] lowercase(s),
    decreases elems.len(),
{
    if elems.len() > 0 {
        let rest = elems.drop_last();
        lemma_meta_keys(rest, key);
        let e = elems.last();
        lemma_lookup_push(meta_table(rest), (meta_key(e), or_empty(e.1[2])), key);
    }
    lemma_table_keys(elems, key);
    if lookup(meta_table(elems), key) is Some {
        let j = choose|j: int| 0 <= j < elems.len() && meta_key(#[trigger] elems[j]) == key;
        let prop = elems[j].1[0];
        let src = match prop {
            Some(p) if p.len() > 0 => p,
            _ => or_empty(elems[j].1[1]),
        };
        assert(key == lowercase(src));
    }
}

/// What [`Page::meta`] finds on any page is found under a non-empty,
/// lowercased key.
pub proof fn lemma_page_meta_keys(body: Seq<u8>, key: Seq<char>)
    ensures
        lookup(parsed_meta(body), key) is Some ==> key.len() > 0 && exists|s: Seq<char>|
            key == #[trigger] lowercase(s),
{
    lemma_meta_keys(found(html_select(lossy_utf8(body), "meta"@, meta_attrs())), key);
}

/// A key that is the lowercasing of some string; where that string is
/// ASCII, the key is ASCII too and its own ASCII lowercasing (it holds no
/// `A`-`Z`, so `str::to_lowercase` gives it back unchanged).
pub open spec fn lowercased_key(k: Seq<char>) -> bool {
    exists|s: Seq<char>|
        k == #[trigger] lowercase(s) && (is_ascii(s) ==> is_ascii(k) && k.map_values(
            |c: char| ascii_lower(c),
        ) == k)
}

/// Every key of a `(key, content)` table is non-empty and lowercased.
pub open spec fn keys_lowercased(m: Seq<(Seq<char>, Seq<char>)>) -> bool {
    forall|t: int| 0 <= t < m.len() ==> (#[trigger] m[t]).0.len() > 0 && lowercased_key(m[t].0)
}

/// A key that a lookup finds in such a table is non-empty and lowercased:
/// on a parsed page, [`Page::meta`] finds nothing under `""` or under a key
/// with an ASCII capital that came from an ASCII attribute value.
pub proof fn lemma_found_key_lowercased(m: Seq<(Seq<char>, Seq<char>)>, key: Seq<char>)
    requires
        keys_lowercased(m),
        lookup(m, key) is Some,
    ensures
        key.len() > 0,
        lowercased_key(key),
    decreases m.len(),
{
    if m[0].0 != key {
        assert forall|t: int| 0 <= t < m.drop_first().len() implies (#[trigger] m.drop_first()[t]).0.len() > 0
            && lowercased_key(m.drop_first()[t].0) by {
            assert(m.drop_first()[t] == m[t + 1]);
        }
        lemma_found_key_lowercased(m.drop_first(), key);
    } else {
        assert(m[0] == m[0]);
    }
}

} // verus!
