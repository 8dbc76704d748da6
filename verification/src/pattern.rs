//! robots.txt path patterns (`*` wildcard, `$` end anchor), matched through
//! the `regex` crate.

use vstd::prelude::*;
use crate::text::{chars_of, push_char, push_chars};

verus! {

/// The characters that `regex::escape` prefixes with a backslash.
pub open spec fn is_meta(c: char) -> bool {
    c == '\\' || c == '.' || c == '+' || c == '*' || c == '?' || c == '(' || c == ')' || c
        == '|' || c == '[' || c == ']' || c == '{' || c == '}' || c == '^' || c == '$' || c
        == '#' || c == '&' || c == '-' || c == '~'
}

/// `s` with a backslash before each meta character.
pub open spec fn escaped(s: Seq<char>) -> Seq<char>
    decreases s.len(),
{
    if s.len() == 0 {
        seq![]
    } else {
        let head = if is_meta(s[0]) {
            seq!['\\', s[0]]
        } else {
            seq![s[0]]
        };
        head + escaped(s.drop_first())
    }
}

/// Calls `regex::escape`, which puts a backslash before each meta character
/// and keeps every other character.
#[verifier::external_body]
pub(crate) fn regex_escape(s: &str) -> (r: String)
    ensures
        r@ == escaped(s@),
{
    regex::escape(s)
}

/// Whether the regular expression `pattern` matches somewhere in `text`:
/// `None` where `regex::Regex::new` refuses the pattern, otherwise the answer
/// of `Regex::is_match`.
pub uninterp spec fn regex_match(pattern: Seq<char>, text: Seq<char>) -> Option<bool>;

/// Compiles `pattern` with `regex::Regex::new` and asks `Regex::is_match`
/// on `text`; the result is named [`regex_match`].
#[verifier::external_body]
pub(crate) fn regex_is_match(pattern: &str, text: &str) -> (r: Option<bool>)
    ensures
        r == regex_match(pattern@, text@),
{
    match regex::Regex::new(pattern) {
        Ok(re) => Some(re.is_match(text)),
        Err(_) => None,
    }
}

/// Every `\*` of `s` replaced by `.*`, scanning left to right (`str::replace`).
pub open spec fn star_to_any(s: Seq<char>) -> Seq<char>
    decreases s.len(),
{
    if s.len() == 0 {
        seq![]
    } else if s.len() >= 2 && s[0] == '\\' && s[1] == '*' {
        seq!['.', '*'] + star_to_any(s.skip(2))
    } else {
        seq![s[0]] + star_to_any(s.drop_first())
    }
}

/// An escaped `$` at the end of `s` turned into the end anchor `$`.
pub open spec fn anchor_end(s: Seq<char>) -> Seq<char> {
    if s.len() >= 2 && s[s.len() - 2] == '\\' && s[s.len() - 1] == '$' {
        s.take(s.len() - 2).push('$')
    } else {
        s
    }
}

/// The regular expression for a robots.txt path pattern: its characters
/// taken literally, but `*` for any run of characters and a final `$` for
/// the end of the path, anchored at the start.
pub open spec fn pattern_regex(pattern: Seq<char>) -> Seq<char> {
    seq!['^'] + anchor_end(star_to_any(escaped(pattern)))
}

/// Whether a robots.txt path pattern matches `path` (a pattern that does not
/// compile matches nothing).
pub open spec fn pattern_matches(pattern: Seq<char>, path: Seq<char>) -> bool {
    regex_match(pattern_regex(pattern), path) == Some(true)
}

/// Builds [`pattern_regex`] of `pattern`.
pub fn to_regex(pattern: &str) -> (r: String)
    ensures
        r@ == pattern_regex(pattern@),
{
    let esc = regex_escape(pattern);
    let e = chars_of(esc.as_str());
    // `\*` -> `.*`
    let mut t: Vec<char> = Vec::new();
    let mut i: usize = 0;
    assert(e@.skip(0) == e@);
    while i < e.len()
        invariant
            i <= e.len(),
            t@ + star_to_any(e@.skip(i as int)) == star_to_any(e@),
        decreases e.len() - i,
    {
        let ghost s = e@.skip(i as int);
        if i + 1 < e.len() && e[i] == '\\' && e[i + 1] == '*' {
            t.push('.');
            t.push('*');
            assert(s.skip(2) == e@.skip(i + 2));
            i = i + 2;
        } else {
            t.push(e[i]);
            assert(s.drop_first() == e@.skip(i + 1));
            i = i + 1;
        }
    }
    assert(e@.skip(i as int) == Seq::<char>::empty());
    assert(t@ == star_to_any(e@));
    let mut r = String::new();
    push_char(&mut r, '^');
    let n = t.len();
    if n >= 2 && t[n - 2] == '\\' && t[n - 1] == '$' {
        push_chars(&mut r, &t, 0, n - 2);
        push_char(&mut r, '$');
        assert(t@.subrange(0, n - 2) == t@.take(n - 2));
    } else {
        push_chars(&mut r, &t, 0, n);
        assert(t@.subrange(0, n as int) == t@);
    }
    assert(r@ == seq!['^'] + anchor_end(t@));
    r
}

/// Whether the robots.txt path pattern `pattern` matches `path`.
pub fn path_matches(pattern: &str, path: &str) -> (b: bool)
    ensures
        b == pattern_matches(pattern@, path@),
{
    let re = to_regex(pattern);
    match regex_is_match(re.as_str(), path) {
        Some(m) => m,
        None => false,
    }
}

/// Whether `s` holds the character `c`.
pub open spec fn has_char(s: Seq<char>, c: char) -> bool {
    exists|i: int| 0 <= i < s.len() && s[i] == c
}

proof fn lemma_escaped_append(a: Seq<char>, b: Seq<char>)
    ensures
        escaped(a + b) == escaped(a) + escaped(b),
    decreases a.len(),
{
    if a.len() > 0 {
        assert((a + b).drop_first() == a.drop_first() + b);
        assert((a + b)[0] == a[0]);
        lemma_escaped_append(a.drop_first(), b);
    } else {
        assert(a + b == b);
    }
}

proof fn lemma_escaped_keeps_out(s: Seq<char>, c: char)
    requires
        !has_char(s, c),
        c != '\\',
    ensures
        !has_char(escaped(s), c),
    decreases s.len(),
{
    if s.len() > 0 {
        assert(s[0] != c);
        assert forall|i: int| 0 <= i < s.drop_first().len() implies s.drop_first()[i] != c by {
            assert(s.drop_first()[i] == s[i + 1]);
        }
        lemma_escaped_keeps_out(s.drop_first(), c);
        let head = if is_meta(s[0]) {
            seq!['\\', s[0]]
        } else {
            seq![s[0]]
        };
        let e = head + escaped(s.drop_first());
        assert forall|i: int| 0 <= i < e.len() implies e[i] != c by {
            if i >= head.len() {
                assert(e[i] == escaped(s.drop_first())[i - head.len()]);
            }
        }
    }
}

proof fn lemma_star_to_any_plain(s: Seq<char>)
    requires
        !has_char(s, '*'),
    ensures
        star_to_any(s) == s,
    decreases s.len(),
{
    if s.len() > 0 {
        assert(s.len() >= 2 ==> s[1] != '*');
        assert forall|i: int| 0 <= i < s.drop_first().len() implies s.drop_first()[i] != '*' by {
            assert(s.drop_first()[i] == s[i + 1]);
        }
        lemma_star_to_any_plain(s.drop_first());
        assert(seq![s[0]] + s.drop_first() =~= s);
    }
}

/// `\*` replaced piecewise, where no `\*` straddles the joint.
proof fn lemma_star_to_any_append(a: Seq<char>, b: Seq<char>)
    requires
        !(a.len() > 0 && a.last() == '\\' && b.len() > 0 && b[0] == '*'),
    ensures
        star_to_any(a + b) == star_to_any(a) + star_to_any(b),
    decreases a.len(),
{
    if a.len() == 0 {
        assert(a + b =~= b);
    } else if a.len() >= 2 && a[0] == '\\' && a[1] == '*' {
        assert((a + b)[0] == '\\' && (a + b)[1] == '*');
        assert((a + b).skip(2) =~= a.skip(2) + b);
        lemma_star_to_any_append(a.skip(2), b);
    } else {
        assert((a + b)[0] == a[0]);
        assert((a + b).drop_first() =~= a.drop_first() + b);
        if a.len() == 1 {
            assert(!((a + b).len() >= 2 && (a + b)[0] == '\\' && (a + b)[1] == '*'));
        } else {
            assert((a + b)[1] == a[1]);
        }
        lemma_star_to_any_append(a.drop_first(), b);
    }
}

/// The regex of `p*q` for literal `p` and `q`.
proof fn lemma_star_regex(p: Seq<char>, q: Seq<char>)
    requires
        !has_char(p, '*'),
        !has_char(p, '$'),
        !has_char(q, '*'),
        !has_char(q, '$'),
    ensures
        pattern_regex(p) == seq!['^'] + escaped(p),
        pattern_regex(p + seq!['*'] + q) == seq!['^'] + escaped(p) + seq!['.', '*'] + escaped(q),
{
    lemma_escaped_keeps_out(p, '*');
    lemma_escaped_keeps_out(p, '$');
    lemma_escaped_keeps_out(q, '*');
    lemma_escaped_keeps_out(q, '$');
    let ep = escaped(p);
    let eq = escaped(q);
    lemma_star_to_any_plain(ep);
    lemma_star_to_any_plain(eq);
    // the pattern without a star
    assert(anchor_end(ep) == ep) by {
        if ep.len() >= 2 {
            assert(ep[ep.len() - 1] != '$');
        }
    }
    // the pattern with one
    let star = seq!['*'];
    assert(escaped(star) =~= seq!['\\', '*']) by {
        assert(star.drop_first() =~= Seq::<char>::empty());
        assert(escaped(Seq::<char>::empty()) == Seq::<char>::empty());
        assert(is_meta(star[0]));
        assert(escaped(star) == seq!['\\', star[0]] + escaped(star.drop_first()));
    }
    lemma_escaped_append(p, star);
    lemma_escaped_append(p + star, q);
    let es = seq!['\\', '*'];
    assert(star_to_any(es) =~= seq!['.', '*']) by {
        assert(es.skip(2) =~= Seq::<char>::empty());
        assert(star_to_any(Seq::<char>::empty()) == Seq::<char>::empty());
        assert(es.len() >= 2 && es[0] == '\\' && es[1] == '*');
        assert(star_to_any(es) == seq!['.', '*'] + star_to_any(es.skip(2)));
    }
    lemma_star_to_any_append(es, eq);
    lemma_star_to_any_append(ep, es + eq);
    assert(ep + es + eq =~= ep + (es + eq));
    let r = ep + seq!['.', '*'] + eq;
    assert(star_to_any(escaped(p + star + q)) == r);
    assert(anchor_end(r) == r) by {
        if eq.len() >= 1 {
            assert(r[r.len() - 1] == eq[eq.len() - 1]);
            assert(r[r.len() - 1] != '$');
        } else {
            assert(r[r.len() - 1] == '*');
        }
    }
}

/// A `*` in a robots.txt pattern stands for any run of characters, the
/// empty run included: for literal parts `p` and `q` (no `*`, no `$`), the
/// regex of `p*q` is `^`, `p` taken literally, `.*` (zero or more of any
/// character) and `q` taken literally. In particular the regex of `p*` is
/// that of `p` followed by `.*`, so `p*` matches whatever `p` matches.
pub proof fn lemma_star_is_any_run(p: Seq<char>, q: Seq<char>)
    requires
        !has_char(p, '*'),
        !has_char(p, '$'),
        !has_char(q, '*'),
        !has_char(q, '$'),
    ensures
        pattern_regex(p) == seq!['^'] + escaped(p),
        pattern_regex(p + seq!['*'] + q) == seq!['^'] + escaped(p) + seq!['.', '*'] + escaped(q),
        pattern_regex(p.push('*')) == pattern_regex(p) + seq!['.', '*'],
{
    lemma_star_regex(p, q);
    let e = Seq::<char>::empty();
    lemma_star_regex(p, e);
    assert(p.push('*') =~= p + seq!['*'] + e);
    assert(escaped(e) == e);
    assert(seq!['^'] + escaped(p) + seq!['.', '*'] + e =~= pattern_regex(p) + seq!['.', '*']);
}

} // verus!
