//! What a fetch brought back, and how a fetched URL is judged.

use vstd::prelude::*;
use vstd::arithmetic::power2::lemma2_to64;
use crate::binary64::{nearest_double, to_double};
use crate::report::Level;
use crate::text::{decimal, digit, push_char, push_decimal, push_str, starts_with, str_starts_with};

verus! {

/// Bodies are read up to this many bytes; also the size limit of X (Twitter)
/// card images.
pub const MAX_BODY: usize = 5 << 20;

/// A fetched response (4xx and 5xx included).
pub struct Response {
    pub status: u16,
    /// The URL after redirects, serialized.
    pub url: String,
    pub content_type: String,
    /// The values of every `X-Robots-Tag` header.
    pub x_robots: Vec<String>,
    pub body: Vec<u8>,
}

/// The outcome of fetching one URL.
pub struct Probe {
    pub level: Level,
    /// `"URL  (200 image/png 1.2KB)"`, or `"URL  (error)"`.
    pub summary: String,
    pub body: Vec<u8>,
}

/// `n / d` rounded to the nearest integer, ties to the even one.
pub open spec fn round_half_even(n: nat, d: nat) -> nat {
    let q = n / d;
    let r = n % d;
    if 2 * r > d || (2 * r == d && q % 2 == 1) {
        q + 1
    } else {
        q
    }
}

/// A size in KiB with one decimal, as `{:.1}` prints `len as f64 / 1024.0`
/// (the division by a power of two is exact).
pub open spec fn kib_text(len: nat) -> Seq<char> {
    let t = round_half_even(nearest_double(len) * 10, 1024);
    decimal(t / 10) + "."@ + seq![digit(t % 10)]
}

/// The summary and level of a fetched URL: `Ng` unless the status is 200,
/// `Warn` where the Content-Type does not start with `want`, else `Pass`.
pub open spec fn probe_level(status: u16, content_type: Seq<char>, want: Seq<char>) -> Level {
    if status != 200 {
        Level::Ng
    } else if !starts_with(content_type, want) {
        Level::Warn
    } else {
        Level::Pass
    }
}

/// `n / d` rounded half to even, computed exactly.
pub(crate) fn rounded(n: u128, d: u128) -> (t: u128)
    requires
        d > 0,
        n / d < u128::MAX,
    ensures
        t == round_half_even(n as nat, d as nat),
{
    let q = n / d;
    let r = n % d;
    if r > d - r || (r == d - r && q % 2 == 1) {
        q + 1
    } else {
        q
    }
}

/// Appends [`kib_text`] of `len`.
pub fn push_kib(s: &mut String, len: usize)
    ensures
        final(s)@ == old(s)@ + kib_text(len as nat),
{
    proof {
        lemma2_to64();
    }
    let x = to_double(len as u128);
    let n: u128 = x * 10;
    let t = rounded(n, 1024);
    assert(t <= n / 1024 + 1);
    assert(n == nearest_double(len as nat) * 10);
    let hi: u128 = t / 10;
    assert(hi as nat == t as nat / 10);
    push_decimal(s, hi);
    push_char(s, '.');
    let d: u8 = (t % 10) as u8;
    let c: char = (48u8 + d) as char;
    assert(c == digit((t % 10) as nat));
    push_char(s, c);
    assert(s@ == old(s)@ + decimal(t as nat / 10) + "."@ + seq![digit(t as nat % 10)]) by {
        assert(seq!['.'] == "."@) by { reveal_strlit("."); }
    }
}

impl Probe {
    /// The model of a probe.
    pub open spec fn model(&self) -> (Level, Seq<char>, Seq<u8>) {
        (self.level, self.summary@, self.body@)
    }
}

/// The probe of `u`, from what fetching it gave: the response, or the error
/// message.
pub open spec fn probe_of(u: Seq<char>, want: Seq<char>, got: Result<(u16, Seq<char>, Seq<u8>), Seq<char>>) -> (Level, Seq<char>, Seq<u8>) {
    match got {
        Err(e) => (Level::Ng, u + "  ("@ + e + ")"@, seq![]),
        Ok((status, ct, body)) => (
            probe_level(status, ct, want),
            u + "  ("@ + decimal(status as nat) + " "@ + ct + " "@ + kib_text(body.len()) + "KB)"@,
            body,
        ),
    }
}

/// The parts of a response that a probe reads.
pub open spec fn fetched(got: Result<Response, String>) -> Result<(u16, Seq<char>, Seq<u8>), Seq<char>> {
    match got {
        Ok(r) => Ok((r.status, r.content_type@, r.body@)),
        Err(e) => Err(e@),
    }
}

/// Judges a fetched URL: `Pass` when the status is 200 and the Content-Type
/// starts with `want_type`.
pub fn probe(u: &str, want_type: &str, got: Result<Response, String>) -> (p: Probe)
    ensures
        p.model() == probe_of(u@, want_type@, fetched(got)),
{
    match got {
        Err(e) => {
            let mut summary = String::new();
            push_str(&mut summary, u);
            push_str(&mut summary, "  (");
            push_str(&mut summary, e.as_str());
            push_str(&mut summary, ")");
            Probe { level: Level::Ng, summary, body: Vec::new() }
        },
        Ok(r) => {
            let mut summary = String::new();
            push_str(&mut summary, u);
            push_str(&mut summary, "  (");
            push_decimal(&mut summary, r.status as u128);
            push_str(&mut summary, " ");
            push_str(&mut summary, r.content_type.as_str());
            push_str(&mut summary, " ");
            push_kib(&mut summary, r.body.len());
            push_str(&mut summary, "KB)");
            let level = if r.status != 200 {
                Level::Ng
            } else if !str_starts_with(r.content_type.as_str(), want_type) {
                Level::Warn
            } else {
                Level::Pass
            };
            Probe { level, summary, body: r.body }
        },
    }
}

} // verus!
