//! robots.txt with its rules kept as `allow` flags, grouped per user agent.

use vstd::prelude::*;
use vstd::utf8::encode_utf8;
use crate::pattern::{path_matches, pattern_matches};
use crate::robots_txt::{self, Kind, RobotsTxt, longest_match_allows, matches_at, rules_model};
use crate::text::{byte_len, push_str, str_eq};

verus! {

/// One `Allow:` (`allow == true`) or `Disallow:` line.
pub struct Rule {
    pub allow: bool,
    pub path: String,
}

impl View for Rule {
    type V = (bool, Seq<char>);

    open spec fn view(&self) -> (bool, Seq<char>) {
        (self.allow, self.path@)
    }
}

/// The rules of each user agent (lowercased), in order of first appearance.
pub struct Groups {
    pub entries: Vec<(String, Vec<Rule>)>,
}

/// The models of a sequence of rules.
pub open spec fn flags_model(rules: Seq<Rule>) -> Seq<(bool, Seq<char>)> {
    rules.map_values(|r: Rule| r@)
}

/// A flag rule as a kind rule.
pub open spec fn as_kind(r: (bool, Seq<char>)) -> (Kind, Seq<char>) {
    (
        if r.0 {
            Kind::Allow
        } else {
            Kind::Disallow
        },
        r.1,
    )
}

/// Flag rules as kind rules.
pub open spec fn as_kinds(rules: Seq<(bool, Seq<char>)>) -> Seq<(Kind, Seq<char>)> {
    rules.map_values(|r: (bool, Seq<char>)| as_kind(r))
}

impl Groups {
    /// The groups as (agent, kind rules), to compare with `RobotsTxt`.
    pub open spec fn model(&self) -> robots_txt::GroupsModel {
        self.entries@.map_values(
            |e: (String, Vec<Rule>)| (e.0@, as_kinds(flags_model(e.1@))),
        )
    }

    /// The rules of `agent`, if it has a group.
    pub fn get(&self, agent: &str) -> (r: Option<&Vec<Rule>>)
        ensures
            match r {
                Some(rules) => robots_txt::group_of(self.model(), agent@) == Some(
                    as_kinds(flags_model(rules@)),
                ),
                None => robots_txt::group_of(self.model(), agent@) is None,
            },
    {
        let mut i: usize = 0;
        while i < self.entries.len() && !str_eq(self.entries[i].0.as_str(), agent)
            invariant
                i <= self.entries.len(),
                forall|k: int| 0 <= k < i ==> self.entries@[k].0@ != agent@,
            decreases self.entries.len() - i,
        {
            i = i + 1;
        }
        proof {
            let g = self.model();
            assert forall|k: int| 0 <= k < i implies g[k].0 != agent@ by {
                assert(g[k].0 == self.entries@[k].0@);
            }
            robots_txt::lemma_group_index(g, agent@);
            if robots_txt::group_index(g, agent@) < i {
                let k = robots_txt::group_index(g, agent@) as int;
                assert(g[k].0 != agent@);
            }
            if i < self.entries.len() {
                assert(g[i as int].0 == agent@);
            }
        }
        if i < self.entries.len() {
            Some(&self.entries[i].1)
        } else {
            None
        }
    }

    /// Whether `agent` has a group.
    pub fn contains_key(&self, agent: &str) -> (b: bool)
        ensures
            b == robots_txt::group_of(self.model(), agent@) is Some,
    {
        self.get(agent).is_some()
    }
}

/// Splits robots.txt into the rules of each user agent (lowercased) and the
/// sitemaps; the same reading as [`RobotsTxt::parse`].
pub fn parse_robots(txt: &str) -> (r: (Groups, Vec<String>))
    ensures
        r.0.model() == robots_txt::parse_text(txt@).groups,
        robots_txt::strings_model(r.1@) == robots_txt::parse_text(txt@).sitemaps,
{
    let parsed = RobotsTxt::parse(txt);
    let RobotsTxt { groups, sitemaps } = parsed;
    let ghost gm = robots_txt::groups_model(groups@);
    let mut entries: Vec<(String, Vec<Rule>)> = Vec::new();
    let mut i: usize = 0;
    while i < groups.len()
        invariant
            i <= groups.len(),
            gm == robots_txt::groups_model(groups@),
            entries@.len() == i,
            forall|k: int|
                0 <= k < i ==> (#[trigger] entries@[k]).0@ == gm[k].0 && as_kinds(
                    flags_model(entries@[k].1@),
                ) == gm[k].1,
        decreases groups.len() - i,
    {
        let g = &groups[i];
        let mut rules: Vec<Rule> = Vec::new();
        let mut j: usize = 0;
        while j < g.rules.len()
            invariant
                j <= g.rules.len(),
                as_kinds(flags_model(rules@)) == rules_model(g.rules@).take(j as int),
            decreases g.rules.len() - j,
        {
            let r = &g.rules[j];
            let rule = Rule { allow: r.kind == Kind::Allow, path: r.path.clone() };
            assert(as_kind(rule@) == g.rules@[j as int]@);
            let ghost before = rules@;
            rules.push(rule);
            assert(flags_model(rules@) =~= flags_model(before).push(rule@));
            assert(as_kinds(flags_model(rules@)) =~= as_kinds(flags_model(before)).push(as_kind(rule@)));
            assert(rules_model(g.rules@).take(j + 1) =~= rules_model(g.rules@).take(j as int).push(g.rules@[j as int]@));
            assert(as_kinds(flags_model(rules@)) =~= rules_model(g.rules@).take(j + 1));
            j = j + 1;
        }
        assert(rules_model(g.rules@).take(j as int) == rules_model(g.rules@));
        entries.push((g.agent.clone(), rules));
        i = i + 1;
    }
    let out = Groups { entries };
    assert(out.model() =~= gm);
    (out, sitemaps)
}

/// `"Allow: /path"` or `"Disallow: /path"` for a flag rule.
pub open spec fn rule_label(r: (bool, Seq<char>)) -> Seq<char> {
    (if r.0 {
        "Allow: "@
    } else {
        "Disallow: "@
    }) + r.1
}

/// Byte length of a flag rule's pattern.
pub open spec fn flag_len(r: (bool, Seq<char>)) -> nat {
    encode_utf8(r.1).len()
}

/// Whether flag rule `j` matches `path`.
pub open spec fn flag_matches(rules: Seq<(bool, Seq<char>)>, path: Seq<char>, j: int) -> bool {
    pattern_matches(rules[j].1, path)
}

/// Rule `w` is the one `allowed` reports: a longest match; where an Allow is
/// among the longest matches, the last such Allow; otherwise the first of
/// the longest matches.
pub open spec fn is_reported(rules: Seq<(bool, Seq<char>)>, path: Seq<char>, w: int) -> bool {
    &&& 0 <= w < rules.len()
    &&& flag_matches(rules, path, w)
    &&& forall|j: int|
        0 <= j < rules.len() && #[trigger] flag_matches(rules, path, j) ==> flag_len(rules[j])
            <= flag_len(rules[w])
    &&& if rules[w].0 {
        forall|j: int|
            w < j < rules.len() && #[trigger] flag_matches(rules, path, j) && flag_len(rules[j])
                == flag_len(rules[w]) ==> !rules[j].0
    } else {
        &&& forall|j: int|
            0 <= j < rules.len() && #[trigger] flag_matches(rules, path, j) && flag_len(rules[j])
                == flag_len(rules[w]) ==> !rules[j].0
        &&& forall|j: int|
            0 <= j < w && #[trigger] flag_matches(rules, path, j) ==> flag_len(rules[j])
                < flag_len(rules[w])
    }
}

/// The position of the rule that `allowed` reports, if any rule matches.
pub open spec fn reported_index(rules: Seq<(bool, Seq<char>)>, path: Seq<char>) -> Option<int> {
    if exists|w: int| is_reported(rules, path, w) {
        Some(choose|w: int| is_reported(rules, path, w))
    } else {
        None
    }
}

/// The label of the rule that `allowed` reports, or `""`.
pub open spec fn reported_by(rules: Seq<(bool, Seq<char>)>, path: Seq<char>) -> Seq<char> {
    match reported_index(rules, path) {
        Some(w) => rule_label(rules[w]),
        None => seq![],
    }
}

/// At most one rule is the reported one.
pub proof fn lemma_reported_unique(rules: Seq<(bool, Seq<char>)>, path: Seq<char>, a: int, b: int)
    requires
        is_reported(rules, path, a),
        is_reported(rules, path, b),
    ensures
        a == b,
{
    assert(flag_matches(rules, path, a));
    assert(flag_matches(rules, path, b));
    assert(flag_len(rules[a]) == flag_len(rules[b]));
}

/// A kind rule as a flag rule.
pub open spec fn as_flag(r: (Kind, Seq<char>)) -> (bool, Seq<char>) {
    (r.0 == Kind::Allow, r.1)
}

/// Kind rules as flag rules.
pub open spec fn as_flags(rules: Seq<(Kind, Seq<char>)>) -> Seq<(bool, Seq<char>)> {
    rules.map_values(|r: (Kind, Seq<char>)| as_flag(r))
}

/// Turning flag rules into kind rules and back gives them again.
pub proof fn lemma_flags_round_trip(rules: Seq<(bool, Seq<char>)>)
    ensures
        as_flags(as_kinds(rules)) == rules,
{
    assert(as_flags(as_kinds(rules)) =~= rules);
}

/// Decides `path` the Google way (longest match; Allow on a tie) and returns
/// whether it is allowed and the rule that decided, `""` where none matched.
pub fn allowed(rules: &[Rule], path: &str) -> (r: (bool, String))
    ensures
        r.0 == longest_match_allows(as_kinds(flags_model(rules@)), path@),
        r.1@ == reported_by(flags_model(rules@), path@),
        (forall|j: int|
            0 <= j < rules@.len() ==> !#[trigger] flag_matches(flags_model(rules@), path@, j))
            ==> r.1@ == Seq::<char>::empty(),
{
    let ghost m = flags_model(rules@);
    let mut best: Option<usize> = None;
    let mut allow = true;
    let mut by = String::new();
    let mut w: usize = 0;
    let mut i: usize = 0;
    while i < rules.len()
        invariant
            i <= rules.len(),
            m == flags_model(rules@),
            best is None ==> {
                &&& forall|j: int| 0 <= j < i ==> !#[trigger] flag_matches(m, path@, j)
                &&& allow
                &&& by@ == Seq::<char>::empty()
            },
            best matches Some(b) ==> {
                &&& w < i
                &&& b as nat == flag_len(m[w as int])
                &&& allow == m[w as int].0
                &&& by@ == rule_label(m[w as int])
                &&& flag_matches(m, path@, w as int)
                &&& forall|j: int|
                    0 <= j < i && #[trigger] flag_matches(m, path@, j) ==> flag_len(m[j]) <= b
                &&& if m[w as int].0 {
                    forall|j: int|
                        w < j < i && #[trigger] flag_matches(m, path@, j) && flag_len(m[j]) == b
                            ==> !m[j].0
                } else {
                    &&& forall|j: int|
                        0 <= j < i && #[trigger] flag_matches(m, path@, j) && flag_len(m[j]) == b
                            ==> !m[j].0
                    &&& forall|j: int|
                        0 <= j < w && #[trigger] flag_matches(m, path@, j) ==> flag_len(m[j]) < b
                }
            },
        decreases rules.len() - i,
    {
        assert(m[i as int] == rules@[i as int]@);
        let mt = path_matches(rules[i].path.as_str(), path);
        assert(mt == flag_matches(m, path@, i as int));
        if mt {
            let n = byte_len(rules[i].path.as_str());
            let replace = match best {
                None => true,
                Some(b) => n > b || (n == b && rules[i].allow),
            };
            if replace {
                best = Some(n);
                allow = rules[i].allow;
                let mut s = String::new();
                if rules[i].allow {
                    push_str(&mut s, "Allow: ");
                } else {
                    push_str(&mut s, "Disallow: ");
                }
                push_str(&mut s, rules[i].path.as_str());
                by = s;
                w = i;
            }
        }
        i = i + 1;
    }
    proof {
        let km = as_kinds(m);
        assert forall|j: int| 0 <= j < m.len() implies #[trigger] matches_at(km, path@, j)
            == flag_matches(m, path@, j) by {
            assert(km[j] == as_kind(m[j]));
        }
        if best is Some {
            assert(km[w as int] == as_kind(m[w as int]));
            if allow {
                assert forall|j: int|
                    0 <= j < km.len() && #[trigger] matches_at(km, path@, j) implies robots_txt::rule_len(
                    km[j],
                ) <= robots_txt::rule_len(km[w as int]) by {
                    assert(km[j] == as_kind(m[j]));
                    assert(flag_matches(m, path@, j));
                }
                assert(matches_at(km, path@, w as int));
            } else if longest_match_allows(km, path@) {
                assert(matches_at(km, path@, w as int));
                let k = choose|k: int|
                    0 <= k < km.len() && #[trigger] matches_at(km, path@, k) && km[k].0
                        == Kind::Allow && forall|j: int|
                        0 <= j < km.len() && #[trigger] matches_at(km, path@, j)
                            ==> robots_txt::rule_len(km[j]) <= robots_txt::rule_len(km[k]);
                assert(km[k] == as_kind(m[k]));
                assert(flag_matches(m, path@, k));
                assert(flag_matches(m, path@, w as int));
                assert(false);
            }
            assert(is_reported(m, path@, w as int));
            let c = choose|c: int| is_reported(m, path@, c);
            lemma_reported_unique(m, path@, w as int, c);
        } else {
            assert forall|j: int| 0 <= j < km.len() implies !#[trigger] matches_at(km, path@, j) by {
                assert(!flag_matches(m, path@, j));
            }
        }
    }
    (allow, by)
}

/// Whether the robots.txt path pattern `pattern` matches `path`.
pub fn matches(pattern: &str, path: &str) -> (b: bool)
    ensures
        b == pattern_matches(pattern@, path@),
{
    path_matches(pattern, path)
}

/// The two readings of robots.txt agree: `allowed` on flag rules allows a
/// path exactly when `decisive_rule` on the same rules (as kinds) finds no
/// rule or an Allow rule.
pub proof fn lemma_readings_agree(rules: Seq<(bool, Seq<char>)>, path: Seq<char>)
    ensures
        longest_match_allows(as_kinds(rules), path) == match robots_txt::decisive_index(
            as_kinds(rules),
            path,
        ) {
            Some(i) => as_kinds(rules)[i].0 == Kind::Allow,
            None => true,
        },
{
    robots_txt::lemma_decision_reading(as_kinds(rules), path);
}

/// Both parsers read the same groups out of the same text.
pub proof fn lemma_parsers_agree(txt: Seq<char>, groups: Groups, parsed: RobotsTxt)
    requires
        groups.model() == robots_txt::parse_text(txt).groups,
        parsed.groups() == robots_txt::parse_text(txt).groups,
    ensures
        groups.model() == parsed.groups(),
{
}

} // verus!
