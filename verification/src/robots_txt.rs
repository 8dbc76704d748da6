//! robots.txt: groups of rules per user agent, the sitemaps, and the rule
//! that decides a path the way Google does (longest match; Allow on a tie).

use vstd::prelude::*;
use vstd::utf8::encode_utf8;
use crate::pattern::{path_matches, pattern_matches};
use crate::text::{
    byte_len,
    chars_of, find_in, lines, lowercase, split_lines, split_once, before, str_eq, string_of,
    to_lowercase, trim, trim_bounds, views, push_str,
};

verus! {

/// Whether a rule allows or forbids what it matches.
#[derive(Debug, Clone, Copy, PartialEq, Eq, Structural)]
pub enum Kind {
    Allow,
    Disallow,
}

/// One `Allow:` or `Disallow:` line.
#[derive(Debug)]
pub struct Rule {
    pub kind: Kind,
    pub path: String,
}

/// A rule as a mathematical value: its kind and its path pattern.
pub type RuleModel = (Kind, Seq<char>);

/// The groups as a sequence of (lowercased user agent, its rules), in the
/// order in which the agents first appear.
pub type GroupsModel = Seq<(Seq<char>, Seq<RuleModel>)>;

impl View for Rule {
    type V = RuleModel;

    open spec fn view(&self) -> RuleModel {
        (self.kind, self.path@)
    }
}

/// The models of a sequence of rules.
pub open spec fn rules_model(rules: Seq<Rule>) -> Seq<RuleModel> {
    rules.map_values(|r: Rule| r@)
}

/// The name of a kind as `{:?}` prints it.
pub open spec fn kind_name(k: Kind) -> Seq<char> {
    match k {
        Kind::Allow => "Allow"@,
        Kind::Disallow => "Disallow"@,
    }
}

impl Rule {
    /// Whether this rule's pattern matches `path`.
    pub fn matches(&self, path: &str) -> (b: bool)
        ensures
            b == pattern_matches(self.path@, path@),
    {
        path_matches(self.path.as_str(), path)
    }

    /// `"Allow: /path"` or `"Disallow: /path"`.
    pub fn to_string(&self) -> (s: String)
        ensures
            s@ == kind_name(self.kind) + ": "@ + self.path@,
    {
        let mut s = String::new();
        match self.kind {
            Kind::Allow => push_str(&mut s, "Allow"),
            Kind::Disallow => push_str(&mut s, "Disallow"),
        }
        push_str(&mut s, ": ");
        push_str(&mut s, self.path.as_str());
        s
    }
}

/// The rules of one user agent.
#[derive(Debug)]
pub struct Group {
    /// The user agent, lowercased.
    pub agent: String,
    pub rules: Vec<Rule>,
}

/// The model of the groups.
pub open spec fn groups_model(groups: Seq<Group>) -> GroupsModel {
    groups.map_values(|g: Group| (g.agent@, rules_model(g.rules@)))
}

/// Parsed robots.txt.
#[derive(Debug)]
pub struct RobotsTxt {
    /// One group per user agent (lowercased), in order of first appearance.
    pub groups: Vec<Group>,
    pub sitemaps: Vec<String>,
}

/// The characters of each string.
pub open spec fn strings_model(v: Seq<String>) -> Seq<Seq<char>> {
    v.map_values(|s: String| s@)
}

/// Position of the first group of `agent` in `g`, or `g.len()`.
pub open spec fn group_index(g: GroupsModel, agent: Seq<char>) -> nat
    decreases g.len(),
{
    if g.len() == 0 {
        0
    } else if g[0].0 == agent {
        0
    } else {
        1 + group_index(g.drop_first(), agent)
    }
}

/// The rules of `agent`, if it has a group.
pub open spec fn group_of(g: GroupsModel, agent: Seq<char>) -> Option<Seq<RuleModel>> {
    let i = group_index(g, agent);
    if i < g.len() {
        Some(g[i as int].1)
    } else {
        None
    }
}

/// `g` with an empty group for `agent` added where it has none.
pub open spec fn ensure_group(g: GroupsModel, agent: Seq<char>) -> GroupsModel {
    if group_index(g, agent) < g.len() {
        g
    } else {
        g.push((agent, seq![]))
    }
}

/// `g` with `r` appended to the rules of `agent`.
pub open spec fn add_rule(g: GroupsModel, agent: Seq<char>, r: RuleModel) -> GroupsModel {
    let i = group_index(g, agent);
    if i < g.len() {
        g.update(i as int, (g[i as int].0, g[i as int].1.push(r)))
    } else {
        g
    }
}

/// `g` with `r` appended to the rules of each of `agents`, in order.
pub open spec fn add_rule_all(g: GroupsModel, agents: Seq<Seq<char>>, r: RuleModel) -> GroupsModel
    decreases agents.len(),
{
    if agents.len() == 0 {
        g
    } else {
        add_rule_all(add_rule(g, agents[0], r), agents.drop_first(), r)
    }
}

/// What the parser knows after some lines: the groups, the sitemaps, the
/// agents of the current group, and whether that group has had a rule line.
pub struct ParseState {
    pub groups: GroupsModel,
    pub sitemaps: Seq<Seq<char>>,
    pub agents: Seq<Seq<char>>,
    pub in_rules: bool,
}

/// The state before any line.
pub open spec fn initial_state() -> ParseState {
    ParseState { groups: seq![], sitemaps: seq![], agents: seq![], in_rules: false }
}

/// One robots.txt line read in state `st`. A `#` starts a comment; a line
/// without `:` is ignored; keys are trimmed and compared in lowercase. A
/// `User-agent` line after rule lines starts a new group; an empty `Allow`
/// or `Disallow` adds no rule but still closes the agent list.
pub open spec fn step(st: ParseState, line: Seq<char>) -> ParseState {
    match split_once(before(line, '#'), ':') {
        None => st,
        Some((k0, v0)) => {
            let k = lowercase(trim(k0));
            let v = trim(v0);
            if k == "user-agent"@ {
                let a = lowercase(v);
                let agents = if st.in_rules {
                    Seq::<Seq<char>>::empty()
                } else {
                    st.agents
                };
                ParseState {
                    groups: ensure_group(st.groups, a),
                    sitemaps: st.sitemaps,
                    agents: agents.push(a),
                    in_rules: false,
                }
            } else if k == "sitemap"@ {
                ParseState {
                    groups: st.groups,
                    sitemaps: st.sitemaps.push(v),
                    agents: st.agents,
                    in_rules: st.in_rules,
                }
            } else if k == "allow"@ || k == "disallow"@ {
                let kind = if k == "allow"@ {
                    Kind::Allow
                } else {
                    Kind::Disallow
                };
                ParseState {
                    groups: if v.len() == 0 {
                        st.groups
                    } else {
                        add_rule_all(st.groups, st.agents, (kind, v))
                    },
                    sitemaps: st.sitemaps,
                    agents: st.agents,
                    in_rules: true,
                }
            } else {
                st
            }
        },
    }
}

/// The state after reading `ls` in order.
pub open spec fn parse_lines(ls: Seq<Seq<char>>) -> ParseState
    decreases ls.len(),
{
    if ls.len() == 0 {
        initial_state()
    } else {
        step(parse_lines(ls.drop_last()), ls.last())
    }
}

/// The state after reading the whole text.
pub open spec fn parse_text(txt: Seq<char>) -> ParseState {
    parse_lines(lines(txt))
}

/// Position of the group of `agent` in `groups`.
fn group_position(groups: &Vec<Group>, agent: &String) -> (i: usize)
    ensures
        i == group_index(groups_model(groups@), agent@),
        i <= groups.len(),
{
    let mut i: usize = 0;
    while i < groups.len() && groups[i].agent != *agent
        invariant
            i <= groups.len(),
            forall|k: int| 0 <= k < i ==> groups@[k].agent@ != agent@,
        decreases groups.len() - i,
    {
        i = i + 1;
    }
    proof {
        lemma_group_index_at(groups_model(groups@), agent@, i as int);
    }
    i
}

/// A position before which `agent` has no group and at which it has one (or
/// the end) is `group_index`.
proof fn lemma_group_index_at(g: GroupsModel, agent: Seq<char>, i: int)
    requires
        0 <= i <= g.len(),
        forall|k: int| 0 <= k < i ==> g[k].0 != agent,
        i < g.len() ==> g[i].0 == agent,
    ensures
        group_index(g, agent) == i,
    decreases g.len(),
{
    if g.len() > 0 && g[0].0 != agent {
        assert forall|k: int| 0 <= k < i - 1 implies g.drop_first()[k].0 != agent by {
            assert(g.drop_first()[k] == g[k + 1]);
        }
        lemma_group_index_at(g.drop_first(), agent, i - 1);
    }
}

/// `group_index` is the first position of `agent`.
pub proof fn lemma_group_index(g: GroupsModel, agent: Seq<char>)
    ensures
        group_index(g, agent) <= g.len(),
        forall|k: int| 0 <= k < group_index(g, agent) ==> g[k].0 != agent,
        group_index(g, agent) < g.len() ==> g[group_index(g, agent) as int].0 == agent,
    decreases g.len(),
{
    if g.len() > 0 && g[0].0 != agent {
        lemma_group_index(g.drop_first(), agent);
        assert forall|k: int| 0 <= k < group_index(g, agent) implies g[k].0 != agent by {
            if k > 0 {
                assert(g[k] == g.drop_first()[k - 1]);
            }
        }
    }
}

/// Appends a copy of `r` to the rules of `agent`.
fn push_rule(groups: &mut Vec<Group>, agent: &String, kind: Kind, path: &String)
    ensures
        groups_model(final(groups)@) == add_rule(groups_model(old(groups)@), agent@, (kind, path@)),
{
    let i = group_position(groups, agent);
    if i < groups.len() {
        let ghost g0 = groups_model(groups@);
        let ghost old_groups = groups@;
        let rule = Rule { kind, path: path.clone() };
        groups[i].rules.push(rule);
        assert(groups@.len() == old_groups.len());
        assert(groups@[i as int].agent == old_groups[i as int].agent);
        assert(groups@[i as int].rules@ == old_groups[i as int].rules@.push(rule));
        assert(rules_model(groups@[i as int].rules@) =~= rules_model(old_groups[i as int].rules@).push((kind, path@)));
        assert(groups_model(groups@) =~= g0.update(
            i as int,
            (g0[i as int].0, g0[i as int].1.push((kind, path@))),
        ));
    }
}

impl RobotsTxt {
    /// The groups as a mathematical value.
    pub open spec fn groups(&self) -> GroupsModel {
        groups_model(self.groups@)
    }

    /// Parses robots.txt text.
    pub fn parse(txt: &str) -> (r: Self)
        ensures
            r.groups() == parse_text(txt@).groups,
            strings_model(r.sitemaps@) == parse_text(txt@).sitemaps,
    {
        let chars = chars_of(txt);
        let ls = split_lines(&chars);
        let mut groups: Vec<Group> = Vec::new();
        let mut sitemaps: Vec<String> = Vec::new();
        let mut agents: Vec<String> = Vec::new();
        let mut in_rules = false;
        let mut n: usize = 0;
        while n < ls.len()
            invariant
                n <= ls.len(),
                views(ls@) == lines(txt@),
                ({
                    let st = parse_lines(views(ls@).take(n as int));
                    &&& groups_model(groups@) == st.groups
                    &&& strings_model(sitemaps@) == st.sitemaps
                    &&& strings_model(agents@) == st.agents
                    &&& in_rules == st.in_rules
                }),
            decreases ls.len() - n,
        {
            let ghost prev = parse_lines(views(ls@).take(n as int));
            assert(views(ls@).take(n + 1).drop_last() == views(ls@).take(n as int));
            assert(views(ls@).take(n + 1).last() == ls@[n as int]@);
            let line = &ls[n];
            let ghost l = line@;
            assert(parse_lines(views(ls@).take(n + 1)) == step(prev, l));
            let hash = find_in(line, '#', 0, line.len());
            let colon = find_in(line, ':', 0, hash);
            assert(line@.subrange(0, line.len() as int) == l);
            assert(line@.subrange(0, hash as int) == before(l, '#'));
            if colon < hash {
                let ghost b = before(l, '#');
                assert(b.take(colon as int) == line@.subrange(0, colon as int));
                assert(b.skip(colon + 1) == line@.subrange(colon + 1, hash as int));
                let (ka, kb) = trim_bounds(line, 0, colon);
                let (va, vb) = trim_bounds(line, colon + 1, hash);
                let kt = string_of(line, ka, kb);
                let k = to_lowercase(kt.as_str());
                let v = string_of(line, va, vb);
                assert(split_once(b, ':') == Some((line@.subrange(0, colon as int), line@.subrange(colon + 1, hash as int))));
                if str_eq(k.as_str(), "user-agent") {
                    let a = to_lowercase(v.as_str());
                    if in_rules {
                        agents = Vec::new();
                        in_rules = false;
                    }
                    let i = group_position(&groups, &a);
                    if i == groups.len() {
                        let g = Group { agent: a.clone(), rules: Vec::new() };
                        assert(rules_model(g.rules@) =~= Seq::<RuleModel>::empty());
                        groups.push(g);
                        assert(groups_model(groups@) =~= prev.groups.push((a@, seq![])));
                    }
                    agents.push(a);
                    assert(strings_model(agents@) =~= (if prev.in_rules {
                        Seq::<Seq<char>>::empty()
                    } else {
                        prev.agents
                    }).push(a@));
                } else if str_eq(k.as_str(), "sitemap") {
                    sitemaps.push(v);
                    assert(strings_model(sitemaps@) =~= prev.sitemaps.push(v@));
                } else if str_eq(k.as_str(), "allow") || str_eq(k.as_str(), "disallow") {
                    let kind = if str_eq(k.as_str(), "allow") {
                        Kind::Allow
                    } else {
                        Kind::Disallow
                    };
                    in_rules = true;
                    if !v.as_str().is_empty() {
                        let mut j: usize = 0;
                        assert(strings_model(agents@).skip(0) == strings_model(agents@));
                        while j < agents.len()
                            invariant
                                j <= agents.len(),
                                strings_model(agents@) == prev.agents,
                                add_rule_all(
                                    groups_model(groups@),
                                    prev.agents.skip(j as int),
                                    (kind, v@),
                                ) == add_rule_all(prev.groups, prev.agents, (kind, v@)),
                            decreases agents.len() - j,
                        {
                            let ghost g0 = groups_model(groups@);
                            assert(prev.agents.skip(j as int).drop_first() == prev.agents.skip(j + 1));
                            assert(prev.agents.skip(j as int)[0] == agents@[j as int]@);
                            push_rule(&mut groups, &agents[j], kind, &v);
                            j = j + 1;
                        }
                        assert(prev.agents.skip(j as int) == Seq::<Seq<char>>::empty());
                    }
                }
            }
            n = n + 1;
        }
        assert(views(ls@).take(n as int) == views(ls@));
        RobotsTxt { groups, sitemaps }
    }

    /// The rules of `agent` (already lowercase), if robots.txt names it.
    pub fn rules_for(&self, agent: &str) -> (r: Option<&[Rule]>)
        ensures
            match r {
                Some(rules) => group_of(self.groups(), agent@) == Some(rules_model(rules@)),
                None => group_of(self.groups(), agent@) is None,
            },
    {
        let mut i: usize = 0;
        while i < self.groups.len() && !str_eq(self.groups[i].agent.as_str(), agent)
            invariant
                i <= self.groups.len(),
                forall|k: int| 0 <= k < i ==> self.groups@[k].agent@ != agent@,
            decreases self.groups.len() - i,
        {
            i = i + 1;
        }
        proof {
            lemma_group_index_at(self.groups(), agent@, i as int);
        }
        if i < self.groups.len() {
            Some(self.groups[i].rules.as_slice())
        } else {
            None
        }
    }
}

/// Length of a rule's path pattern in bytes (UTF-8), as `str::len` counts.
pub open spec fn rule_len(r: RuleModel) -> nat {
    encode_utf8(r.1).len()
}

/// The order in which rules compete: a longer pattern wins, and at equal
/// length Allow wins over Disallow.
pub open spec fn key_le(a: RuleModel, b: RuleModel) -> bool {
    ||| rule_len(a) < rule_len(b)
    ||| rule_len(a) == rule_len(b) && (a.0 == Kind::Allow ==> b.0 == Kind::Allow)
}

/// Whether rule `i` matches `path`.
pub open spec fn matches_at(rules: Seq<RuleModel>, path: Seq<char>, i: int) -> bool {
    pattern_matches(rules[i].1, path)
}

/// Rule `i` decides `path`: it matches, no matching rule beats it, and every
/// later matching rule is beaten by it (the last of the best ones).
pub open spec fn is_decisive(rules: Seq<RuleModel>, path: Seq<char>, i: int) -> bool {
    &&& 0 <= i < rules.len()
    &&& matches_at(rules, path, i)
    &&& forall|j: int|
        0 <= j < rules.len() && #[trigger] matches_at(rules, path, j) ==> key_le(rules[j], rules[i])
    &&& forall|j: int|
        i < j < rules.len() && #[trigger] matches_at(rules, path, j) ==> !key_le(rules[i], rules[j])
}

/// The position of the deciding rule, if any rule matches.
pub open spec fn decisive_index(rules: Seq<RuleModel>, path: Seq<char>) -> Option<int> {
    if exists|i: int| is_decisive(rules, path, i) {
        Some(choose|i: int| is_decisive(rules, path, i))
    } else {
        None
    }
}

/// At most one rule decides a path.
pub proof fn lemma_decisive_unique(rules: Seq<RuleModel>, path: Seq<char>, i: int, j: int)
    requires
        is_decisive(rules, path, i),
        is_decisive(rules, path, j),
    ensures
        i == j,
{
    if i < j {
        assert(matches_at(rules, path, j));
        assert(matches_at(rules, path, i));
        assert(key_le(rules[i], rules[j]));
    } else if j < i {
        assert(matches_at(rules, path, j));
        assert(matches_at(rules, path, i));
        assert(key_le(rules[j], rules[i]));
    }
}

/// Google's reading of robots.txt: a path is allowed when no rule matches
/// it, or when one of the longest matching rules is an Allow.
pub open spec fn longest_match_allows(rules: Seq<RuleModel>, path: Seq<char>) -> bool {
    ||| forall|j: int| 0 <= j < rules.len() ==> !#[trigger] matches_at(rules, path, j)
    ||| exists|i: int|
        0 <= i < rules.len() && #[trigger] matches_at(rules, path, i) && rules[i].0 == Kind::Allow
            && forall|j: int|
            0 <= j < rules.len() && #[trigger] matches_at(rules, path, j) ==> rule_len(rules[j])
                <= rule_len(rules[i])
}

/// The rule that decides `path` (longest match; Allow on a tie). `None`
/// means that no rule matches, and so the path is allowed.
pub fn decisive_rule<'a>(rules: &'a [Rule], path: &str) -> (r: Option<&'a Rule>)
    ensures
        match r {
            None => decisive_index(rules_model(rules@), path@) is None && forall|j: int|
                0 <= j < rules@.len() ==> !#[trigger] matches_at(rules_model(rules@), path@, j),
            Some(rule) => decisive_index(rules_model(rules@), path@) matches Some(i) && is_decisive(
                rules_model(rules@),
                path@,
                i,
            ) && rule@ == rules@[i]@,
        },
{
    let ghost m = rules_model(rules@);
    let mut best: Option<usize> = None;
    let mut i: usize = 0;
    while i < rules.len()
        invariant
            i <= rules.len(),
            m == rules_model(rules@),
            best is None ==> forall|j: int| 0 <= j < i ==> !#[trigger] matches_at(m, path@, j),
            best matches Some(b) ==> {
                &&& b < i
                &&& matches_at(m, path@, b as int)
                &&& forall|j: int|
                    0 <= j < i && #[trigger] matches_at(m, path@, j) ==> key_le(m[j], m[b as int])
                &&& forall|j: int|
                    b < j < i && #[trigger] matches_at(m, path@, j) ==> !key_le(m[b as int], m[j])
            },
        decreases rules.len() - i,
    {
        assert(m[i as int] == rules@[i as int]@);
        let mt = rules[i].matches(path);
        assert(mt == matches_at(m, path@, i as int));
        if mt {
            assert(matches_at(m, path@, i as int));
            match best {
                None => {
                    best = Some(i);
                },
                Some(b) => {
                    assert(m[b as int] == rules@[b as int]@);
                    let n = byte_len(rules[i].path.as_str());
                    let bn = byte_len(rules[b].path.as_str());
                    let ba = rules[b].kind == Kind::Allow;
                    let ia = rules[i].kind == Kind::Allow;
                    if bn < n || (bn == n && (!ba || ia)) {
                        best = Some(i);
                    }
                },
            }
        } else {
            assert(!matches_at(m, path@, i as int));
        }
        i = i + 1;
    }
    match best {
        None => None,
        Some(b) => {
            assert(is_decisive(m, path@, b as int));
            proof {
                let c = choose|c: int| is_decisive(m, path@, c);
                lemma_decisive_unique(m, path@, b as int, c);
            }
            Some(&rules[b])
        },
    }
}

/// The decisive rule, where there is one, is an Allow exactly when the
/// longest matching rules include an Allow.
pub proof fn lemma_decisive_allows(rules: Seq<RuleModel>, path: Seq<char>, i: int)
    requires
        is_decisive(rules, path, i),
    ensures
        (rules[i].0 == Kind::Allow) == longest_match_allows(rules, path),
{
    if rules[i].0 == Kind::Allow {
        assert forall|j: int|
            0 <= j < rules.len() && #[trigger] matches_at(rules, path, j) implies rule_len(rules[j])
            <= rule_len(rules[i]) by {
            assert(key_le(rules[j], rules[i]));
        }
        assert(matches_at(rules, path, i));
    } else {
        if longest_match_allows(rules, path) {
            assert(matches_at(rules, path, i));
            let k = choose|k: int|
                0 <= k < rules.len() && #[trigger] matches_at(rules, path, k) && rules[k].0
                    == Kind::Allow && forall|j: int|
                    0 <= j < rules.len() && #[trigger] matches_at(rules, path, j) ==> rule_len(
                        rules[j],
                    ) <= rule_len(rules[k]);
            assert(key_le(rules[k], rules[i]));
            assert(rule_len(rules[i]) <= rule_len(rules[k]));
        }
    }
}

/// No rule matches exactly when Google's reading allows by default.
pub proof fn lemma_no_match_allows(rules: Seq<RuleModel>, path: Seq<char>)
    requires
        forall|j: int| 0 <= j < rules.len() ==> !#[trigger] matches_at(rules, path, j),
    ensures
        longest_match_allows(rules, path),
{
}

/// Where some rule matches a path, one of them decides it.
pub proof fn lemma_decisive_exists(rules: Seq<RuleModel>, path: Seq<char>)
    requires
        exists|j: int| 0 <= j < rules.len() && #[trigger] matches_at(rules, path, j),
    ensures
        exists|i: int| is_decisive(rules, path, i),
    decreases rules.len(),
{
    let n = rules.len() as int;
    let rest = rules.drop_last();
    assert forall|j: int| 0 <= j < n - 1 implies #[trigger] matches_at(rest, path, j) == matches_at(rules, path, j) by {
        assert(rest[j] == rules[j]);
    }
    if exists|j: int| 0 <= j < n - 1 && #[trigger] matches_at(rules, path, j) {
        let j0 = choose|j: int| 0 <= j < n - 1 && #[trigger] matches_at(rules, path, j);
        assert(matches_at(rest, path, j0));
        lemma_decisive_exists(rest, path);
        let d = choose|i: int| is_decisive(rest, path, i);
        assert(rest[d] == rules[d]);
        if matches_at(rules, path, n - 1) && key_le(rules[d], rules[n - 1]) {
            assert forall|j: int| 0 <= j < n && #[trigger] matches_at(rules, path, j) implies key_le(rules[j], rules[n - 1]) by {
                if j < n - 1 {
                    assert(matches_at(rest, path, j));
                    assert(key_le(rest[j], rest[d]));
                    assert(rest[j] == rules[j]);
                }
            }
            assert(is_decisive(rules, path, n - 1));
        } else {
            assert forall|j: int| 0 <= j < n && #[trigger] matches_at(rules, path, j) implies key_le(rules[j], rules[d]) by {
                if j < n - 1 {
                    assert(matches_at(rest, path, j));
                    assert(rest[j] == rules[j]);
                }
            }
            assert forall|j: int| d < j < n && #[trigger] matches_at(rules, path, j) implies !key_le(rules[d], rules[j]) by {
                if j < n - 1 {
                    assert(matches_at(rest, path, j));
                    assert(rest[j] == rules[j]);
                }
            }
            assert(is_decisive(rules, path, d));
        }
    } else {
        let j0 = choose|j: int| 0 <= j < rules.len() && #[trigger] matches_at(rules, path, j);
        assert(j0 == n - 1);
        assert(is_decisive(rules, path, n - 1));
    }
}

/// Google's reading, as the decisive rule gives it: a path is allowed
/// exactly when no rule decides it or the deciding rule is an Allow.
pub proof fn lemma_decision_reading(rules: Seq<RuleModel>, path: Seq<char>)
    ensures
        longest_match_allows(rules, path) == match decisive_index(rules, path) {
            Some(i) => rules[i].0 == Kind::Allow,
            None => true,
        },
{
    match decisive_index(rules, path) {
        Some(i) => {
            lemma_decisive_allows(rules, path, i);
        },
        None => {
            if exists|j: int| 0 <= j < rules.len() && #[trigger] matches_at(rules, path, j) {
                lemma_decisive_exists(rules, path);
            }
        },
    }
}

/// One group per user agent, and no rule with an empty path (an empty
/// `Allow:` or `Disallow:` allows everything and adds no rule).
pub open spec fn groups_wf(g: GroupsModel) -> bool {
    &&& forall|i: int, j: int| 0 <= i < j < g.len() ==> #[trigger] g[i].0 != #[trigger] g[j].0
    &&& forall|i: int, k: int|
        0 <= i < g.len() && 0 <= k < g[i].1.len() ==> (#[trigger] g[i].1[k]).1.len() > 0
}

proof fn lemma_ensure_group_wf(g: GroupsModel, a: Seq<char>)
    requires
        groups_wf(g),
    ensures
        groups_wf(ensure_group(g, a)),
{
    lemma_group_index(g, a);
    let r = ensure_group(g, a);
    if group_index(g, a) == g.len() {
        assert forall|i: int, j: int| 0 <= i < j < r.len() implies #[trigger] r[i].0 != #[trigger] r[j].0 by {
            if j == g.len() {
                assert(g[i].0 != a);
            }
        }
    }
}

proof fn lemma_add_rule_wf(g: GroupsModel, a: Seq<char>, r: RuleModel)
    requires
        groups_wf(g),
        r.1.len() > 0,
    ensures
        groups_wf(add_rule(g, a, r)),
{
    let n = add_rule(g, a, r);
    let i0 = group_index(g, a) as int;
    if i0 < g.len() {
        assert forall|i: int, j: int| 0 <= i < j < n.len() implies #[trigger] n[i].0 != #[trigger] n[j].0 by {
            assert(n[i].0 == g[i].0);
            assert(n[j].0 == g[j].0);
        }
        assert forall|i: int, k: int| 0 <= i < n.len() && 0 <= k < n[i].1.len() implies (#[trigger] n[i].1[k]).1.len() > 0 by {
            if i != i0 {
                assert(n[i] == g[i]);
            } else if k < g[i].1.len() {
                assert(n[i].1[k] == g[i].1[k]);
            }
        }
    }
}

proof fn lemma_add_rule_all_wf(g: GroupsModel, agents: Seq<Seq<char>>, r: RuleModel)
    requires
        groups_wf(g),
        r.1.len() > 0,
    ensures
        groups_wf(add_rule_all(g, agents, r)),
    decreases agents.len(),
{
    if agents.len() > 0 {
        lemma_add_rule_wf(g, agents[0], r);
        lemma_add_rule_all_wf(add_rule(g, agents[0], r), agents.drop_first(), r);
    }
}

proof fn lemma_parse_lines_wf(ls: Seq<Seq<char>>)
    ensures
        groups_wf(parse_lines(ls).groups),
    decreases ls.len(),
{
    if ls.len() > 0 {
        lemma_parse_lines_wf(ls.drop_last());
        let st = parse_lines(ls.drop_last());
        let line = ls.last();
        match split_once(before(line, '#'), ':') {
            None => {},
            Some((k0, v0)) => {
                let k = lowercase(trim(k0));
                let v = trim(v0);
                if k == "user-agent"@ {
                    lemma_ensure_group_wf(st.groups, lowercase(v));
                } else if k == "allow"@ || k == "disallow"@ {
                    if v.len() != 0 {
                        let kind = if k == "allow"@ {
                            Kind::Allow
                        } else {
                            Kind::Disallow
                        };
                        lemma_add_rule_all_wf(st.groups, st.agents, (kind, v));
                    }
                }
            },
        }
    }
}

/// Parsing gives one group per user agent, and never a rule with an empty
/// path.
pub proof fn lemma_parse_wf(txt: Seq<char>)
    ensures
        groups_wf(parse_text(txt).groups),
{
    lemma_parse_lines_wf(lines(txt));
}

/// Whether the parser passes over `line`: nothing before its first `#`
/// holds a `:` (a blank or comment line), or its key is none of
/// `user-agent`, `allow`, `disallow` and `sitemap` (`Crawl-delay`, say).
pub open spec fn neutral_line(line: Seq<char>) -> bool {
    match split_once(before(line, '#'), ':') {
        None => true,
        Some((k0, _)) => {
            let k = lowercase(trim(k0));
            k != "user-agent"@ && k != "sitemap"@ && k != "allow"@ && k != "disallow"@
        },
    }
}

/// The lines of `ls` that the parser acts on, in order.
pub open spec fn directive_lines(ls: Seq<Seq<char>>) -> Seq<Seq<char>> {
    ls.filter(|l: Seq<char>| !neutral_line(l))
}

/// A neutral line leaves the parser's state as it was.
pub proof fn lemma_neutral_step(st: ParseState, line: Seq<char>)
    requires
        neutral_line(line),
    ensures
        step(st, line) == st,
{
}

/// Reading `ls` gives the same state as reading only its directive lines.
pub proof fn lemma_directive_lines_suffice(ls: Seq<Seq<char>>)
    ensures
        parse_lines(ls) == parse_lines(directive_lines(ls)),
    decreases ls.len(),
{
    let keep = |l: Seq<char>| !neutral_line(l);
    if ls.len() == 0 {
        reveal(Seq::filter);
        assert(directive_lines(ls) =~= ls);
    } else {
        let init = ls.drop_last();
        let x = ls.last();
        lemma_directive_lines_suffice(init);
        assert(ls =~= init.push(x));
        init.lemma_filter_push(x, keep);
        assert(directive_lines(ls) == init.push(x).filter(keep));
        assert(directive_lines(init) == init.filter(keep));
        if keep(x) {
            let f = init.filter(keep).push(x);
            assert(f.drop_last() =~= init.filter(keep));
            assert(parse_lines(f) == step(parse_lines(init.filter(keep)), x));
        } else {
            lemma_neutral_step(parse_lines(init), x);
        }
    }
}

/// Neutral lines alone hold no directive line.
proof fn lemma_neutral_only(extra: Seq<Seq<char>>)
    requires
        forall|j: int| 0 <= j < extra.len() ==> neutral_line(#[trigger] extra[j]),
    ensures
        directive_lines(extra) == Seq::<Seq<char>>::empty(),
    decreases extra.len(),
{
    let keep = |l: Seq<char>| !neutral_line(l);
    if extra.len() == 0 {
        reveal(Seq::filter);
        assert(directive_lines(extra) =~= extra);
    } else {
        let init = extra.drop_last();
        let x = extra.last();
        assert(neutral_line(extra[extra.len() - 1]));
        lemma_neutral_only(init);
        assert(extra =~= init.push(x));
        init.lemma_filter_push(x, keep);
        assert(directive_lines(extra) == init.push(x).filter(keep));
        assert(directive_lines(init) == init.filter(keep));
    }
}

/// Blank lines, comments and lines with another key change nothing:
/// inserting any number of them at any line boundary leaves the groups,
/// the sitemaps and the rest of the parser's state as they were.
pub proof fn lemma_neutral_lines_inserted(ls: Seq<Seq<char>>, extra: Seq<Seq<char>>, i: int)
    requires
        0 <= i <= ls.len(),
        forall|j: int| 0 <= j < extra.len() ==> neutral_line(#[trigger] extra[j]),
    ensures
        parse_lines(ls.take(i) + extra + ls.skip(i)) == parse_lines(ls),
{
    let keep = |l: Seq<char>| !neutral_line(l);
    let a = ls.take(i);
    let b = ls.skip(i);
    let all = a + extra + b;
    lemma_neutral_only(extra);
    Seq::filter_distributes_over_add(a, extra, keep);
    Seq::filter_distributes_over_add(a + extra, b, keep);
    Seq::filter_distributes_over_add(a, b, keep);
    assert(a + b =~= ls);
    assert(directive_lines(extra) == extra.filter(keep));
    assert(all.filter(keep) =~= a.filter(keep) + b.filter(keep));
    lemma_directive_lines_suffice(all);
    lemma_directive_lines_suffice(ls);
}

/// Two robots.txt texts whose directive lines agree parse alike: the same
/// groups (so the same rules for every agent) and the same sitemaps.
pub proof fn lemma_same_directives_parse_alike(t1: Seq<char>, t2: Seq<char>)
    requires
        directive_lines(lines(t1)) == directive_lines(lines(t2)),
    ensures
        parse_text(t1) == parse_text(t2),
{
    lemma_directive_lines_suffice(lines(t1));
    lemma_directive_lines_suffice(lines(t2));
}

} // verus!
