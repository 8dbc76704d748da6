//! OGP section: title, description, `og:*` / `twitter:*` tags and the
//! `og:image` file.

use vstd::prelude::*;
use vstd::arithmetic::power2::{
    lemma2_to64, lemma2_to64_rest, lemma_pow2_adds, lemma_pow2_strictly_increases, pow2,
};
use crate::binary64::{
    hundredths, hundredths_of, nearest_double, pow2_u128, quotient, quotient_exp, quotient_mant,
    to_double,
};
use crate::check::{resolve, resolved};
use crate::fetch::{Probe, MAX_BODY};
use crate::page::{lookup, Page};
use crate::report::{items_model, max_level, ItemModel, Level, Section};
use crate::text::{
    byte_len, chars_of, decimal, digit, display_width, join, parse_usize, parse_usize_str,
    push_char, push_decimal, push_joined, push_str, starts_with, str_eq, str_starts_with, trim,
    trim_end, trim_end_string, trim_str, width_of,
};

verus! {

/// Narrowest title, in display columns (a wide character counts 2).
pub const TITLE_MIN_WIDTH: usize = 20;

/// Widest title that search results show without cutting it.
pub const TITLE_MAX_WIDTH: usize = 60;

/// `s` with its number of characters, or `""` for an empty `s`.
pub open spec fn counted_text(s: Seq<char>) -> Seq<char> {
    if s.len() == 0 {
        seq![]
    } else {
        s + "  ["@ + decimal(s.len()) + "文字]"@
    }
}

/// The advice appended to a title of the wrong width.
pub open spec fn title_hint() -> Seq<char> {
    "（目安: 幅"@ + decimal(20) + "〜"@ + decimal(60) + "＝全角"@ + decimal(10) + "〜"@ + decimal(30)
        + "字）"@
}

/// The verdict on a title: `Ng` when empty; `Warn` when wider than 60 or
/// narrower than 20 columns; `Pass` otherwise, with its length and width.
pub open spec fn title_result(t: Seq<char>) -> (Level, Seq<char>) {
    if t.len() == 0 {
        (Level::Ng, seq![])
    } else {
        let w = display_width(t);
        let v = t + "  ["@ + decimal(t.len()) + "文字・幅"@ + decimal(w as nat) + "]"@;
        if w > TITLE_MAX_WIDTH {
            (Level::Warn, v + " 長すぎ・検索結果で省略される"@ + title_hint())
        } else if w < TITLE_MIN_WIDTH {
            (Level::Warn, v + " 短すぎ"@ + title_hint())
        } else {
            (Level::Pass, v)
        }
    }
}

/// The quotient `w as f64 / h as f64` of two positive sizes, as `(m, e)`
/// with value `m * 2^e`.
pub open spec fn ratio_double(w: nat, h: nat) -> (nat, int) {
    let x = nearest_double(w);
    let y = nearest_double(h);
    (quotient_mant(x, y), quotient_exp(x, y))
}

/// 1.91 as the nearest binary64 number (`8601875288277647 / 2^52`), times
/// `2^55`.
pub open spec fn target_scaled() -> nat {
    68815002306221176
}

/// 0.1 as the nearest binary64 number, times `2^55`.
pub open spec fn tolerance_scaled() -> nat {
    3602879701896397
}

/// Whether the double `m * 2^e` lies more than 0.1 from 1.91, the two
/// constants taken as binary64 numbers and the distance computed exactly
/// (both sides scaled by `2^55`, and by `2^-(e + 55)` where that is more).
/// The `f64` subtraction `ratio - 1.91` is exact for ratios between 0.955
/// and 3.82, and outside them the distance is over 0.8 whether rounded or
/// not, so the exact comparison gives what the `f64` one gives.
pub open spec fn off_target(m: nat, e: int) -> bool {
    let c = target_scaled();
    let t = tolerance_scaled();
    if e + 55 >= 0 {
        let a = m * pow2((e + 55) as nat);
        (if a >= c {
            a - c
        } else {
            c - a
        }) > t
    } else {
        let s = pow2((-(e + 55)) as nat);
        let cs = c * s;
        (if m >= cs {
            m - cs
        } else {
            cs - m
        }) > t * s
    }
}

/// Whether the ratio `w as f64 / h as f64` is more than 0.1 away from 1.91:
/// an infinite ratio (`h == 0 < w`) is, and `0 / 0` (not a number) is not.
pub open spec fn ratio_off(w: nat, h: nat) -> bool {
    if h == 0 {
        w > 0
    } else if w == 0 {
        true
    } else {
        off_target(ratio_double(w, h).0, ratio_double(w, h).1)
    }
}

/// The ratio `w as f64 / h as f64` in hundredths, rounded half to even
/// (`h` positive).
pub open spec fn ratio_hundredths(w: nat, h: nat) -> nat {
    if w == 0 {
        0
    } else {
        hundredths(ratio_double(w, h).0, ratio_double(w, h).1)
    }
}

/// The ratio `w as f64 / h as f64` as `{:.2}` prints it (`inf` and `NaN`
/// where `h` is 0).
pub open spec fn ratio_text(w: nat, h: nat) -> Seq<char> {
    if h == 0 {
        if w == 0 {
            "NaN"@
        } else {
            "inf"@
        }
    } else {
        let t = ratio_hundredths(w, h);
        decimal(t / 100) + "."@ + seq![digit((t / 10) % 10), digit(t % 10)]
    }
}

/// The level from the image size alone: `Ng` under 200x200, `Warn` under
/// 1200x630, else `Pass`.
pub open spec fn size_level(w: nat, h: nat) -> Level {
    if w < 200 || h < 200 {
        Level::Ng
    } else if w < 1200 || h < 630 {
        Level::Warn
    } else {
        Level::Pass
    }
}

/// The notes on an image size.
pub open spec fn size_notes(w: nat, h: nat) -> Seq<Seq<char>> {
    (if w < 200 || h < 200 {
        seq!["200x200 未満（表示されない）"@]
    } else if w < 1200 || h < 630 {
        seq!["推奨 1200x630 未満"@]
    } else {
        seq![]
    }) + if ratio_off(w, h) {
        seq!["比率が 1.91:1 でない（切り抜かれる）"@]
    } else {
        seq![]
    }
}

/// The verdict on an OGP image of `w` x `h` pixels: the size level, raised
/// to `Warn` when the ratio is not about 1.91:1, and a description.
pub open spec fn image_result(w: nat, h: nat) -> (Level, Seq<char>) {
    let lv = if ratio_off(w, h) {
        max_level(size_level(w, h), Level::Warn)
    } else {
        size_level(w, h)
    };
    (
        lv,
        trim_end(
            decimal(w) + "x"@ + decimal(h) + "（"@ + ratio_text(w, h) + ":1）  "@ + join(
                size_notes(w, h),
                " / "@,
            ),
        ),
    )
}

/// `s` followed by its character count, or `""` when `s` is empty.
pub fn counted(s: &str) -> (r: String)
    ensures
        r@ == counted_text(s@),
{
    if s.is_empty() {
        return String::new();
    }
    let mut r = s.to_owned();
    push_str(&mut r, "  [");
    let v = chars_of(s);
    push_decimal(&mut r, v.len() as u128);
    push_str(&mut r, "文字]");
    r
}

fn push_title_hint(s: &mut String)
    ensures
        final(s)@ == old(s)@ + title_hint(),
{
    push_str(s, "（目安: 幅");
    push_decimal(s, TITLE_MIN_WIDTH as u128);
    push_str(s, "〜");
    push_decimal(s, TITLE_MAX_WIDTH as u128);
    push_str(s, "＝全角");
    push_decimal(s, (TITLE_MIN_WIDTH / 2) as u128);
    push_str(s, "〜");
    push_decimal(s, (TITLE_MAX_WIDTH / 2) as u128);
    push_str(s, "字）");
}

/// Judges a page title by its display width.
pub fn title_check(t: &str) -> (r: (Level, String))
    ensures
        (r.0, r.1@) == title_result(t@),
{
    if t.is_empty() {
        return (Level::Ng, String::new());
    }
    let w = width_of(t);
    let mut v = t.to_owned();
    push_str(&mut v, "  [");
    let cs = chars_of(t);
    push_decimal(&mut v, cs.len() as u128);
    push_str(&mut v, "文字・幅");
    push_decimal(&mut v, w as u128);
    push_str(&mut v, "]");
    if w > TITLE_MAX_WIDTH {
        push_str(&mut v, " 長すぎ・検索結果で省略される");
        push_title_hint(&mut v);
        (Level::Warn, v)
    } else if w < TITLE_MIN_WIDTH {
        push_str(&mut v, " 短すぎ");
        push_title_hint(&mut v);
        (Level::Warn, v)
    } else {
        (Level::Pass, v)
    }
}

/// The binary64 quotient `w as f64 / h as f64` of two positive sizes.
fn ratio_of(w: usize, h: usize) -> (r: (u128, i32))
    requires
        w > 0,
        h > 0,
    ensures
        r.0 as nat == ratio_double(w as nat, h as nat).0,
        r.1 as int == ratio_double(w as nat, h as nat).1,
        r.0 <= pow2(53),
        -117 <= r.1 <= 12,
{
    proof {
        lemma2_to64();
    }
    let x = to_double(w as u128);
    let y = to_double(h as u128);
    quotient(x, y)
}

/// [`off_target`] of a quotient.
fn off_target_of(m: u128, e: i32) -> (b: bool)
    requires
        m <= pow2(53),
        -117 <= e <= 12,
    ensures
        b == off_target(m as nat, e as int),
{
    let c: u128 = 68815002306221176;
    let t: u128 = 3602879701896397;
    proof {
        lemma2_to64();
        lemma2_to64_rest();
        lemma_pow2_adds(64, 3);
    }
    if e + 55 >= 0 {
        let k: u32 = (e + 55) as u32;
        let p = pow2_u128(k);
        proof {
            if k < 67 {
                lemma_pow2_strictly_increases(k as nat, 67);
            }
            let pm = pow2(53);
            let p67 = pow2(67);
            assert(m * p <= pm * p67) by (nonlinear_arith)
                requires
                    m <= pm,
                    p <= p67,
            ;
        }
        let a = m * p;
        let diff = if a >= c {
            a - c
        } else {
            c - a
        };
        diff > t
    } else {
        let k: u32 = (-(e + 55)) as u32;
        let p = pow2_u128(k);
        proof {
            if k < 62 {
                lemma_pow2_strictly_increases(k as nat, 62);
            }
            let p62 = pow2(62);
            assert(c * p <= c * p62) by (nonlinear_arith)
                requires
                    p <= p62,
            ;
            assert(t * p <= c * p62) by (nonlinear_arith)
                requires
                    p <= p62,
                    t <= c,
            ;
        }
        let cs = c * p;
        let diff = if m >= cs {
            m - cs
        } else {
            cs - m
        };
        diff > t * p
    }
}

/// Appends [`ratio_text`].
fn push_ratio(s: &mut String, w: usize, h: usize)
    ensures
        final(s)@ == old(s)@ + ratio_text(w as nat, h as nat),
{
    if h == 0 {
        if w == 0 {
            push_str(s, "NaN");
        } else {
            push_str(s, "inf");
        }
        return;
    }
    let t: u128 = if w == 0 {
        0
    } else {
        let (m, e) = ratio_of(w, h);
        hundredths_of(m, e)
    };
    assert(t == ratio_hundredths(w as nat, h as nat));
    push_decimal(s, t / 100);
    push_char(s, '.');
    let d1: u8 = ((t / 10) % 10) as u8;
    let d2: u8 = (t % 10) as u8;
    let c1: char = (48u8 + d1) as char;
    let c2: char = (48u8 + d2) as char;
    assert(c1 == digit(((t / 10) % 10) as nat));
    assert(c2 == digit((t % 10) as nat));
    push_char(s, c1);
    push_char(s, c2);
    assert(seq!['.'] == "."@) by {
        reveal_strlit(".");
    }
}

/// Judges an OGP image size. Recommended 1200x630 (1.91:1); Facebook's
/// minimum is 200x200.
pub fn image_check(w: usize, h: usize) -> (r: (Level, String))
    ensures
        (r.0, r.1@) == image_result(w as nat, h as nat),
{
    let off = if h == 0 {
        w > 0
    } else if w == 0 {
        true
    } else {
        let (m, e) = ratio_of(w, h);
        off_target_of(m, e)
    };
    assert(off == ratio_off(w as nat, h as nat));
    let mut lv = Level::Pass;
    let mut notes: Vec<String> = Vec::new();
    if w < 200 || h < 200 {
        lv = Level::Ng;
        notes.push("200x200 未満（表示されない）".to_owned());
    } else if w < 1200 || h < 630 {
        lv = Level::Warn;
        notes.push("推奨 1200x630 未満".to_owned());
    }
    if off {
        lv = lv.at_least(Level::Warn);
        notes.push("比率が 1.91:1 でない（切り抜かれる）".to_owned());
    }
    assert(notes@.map_values(|p: String| p@) =~= size_notes(w as nat, h as nat));
    let mut s = String::new();
    push_decimal(&mut s, w as u128);
    push_str(&mut s, "x");
    push_decimal(&mut s, h as u128);
    push_str(&mut s, "（");
    push_ratio(&mut s, w, h);
    push_str(&mut s, ":1）  ");
    push_joined(&mut s, &notes, " / ");
    (lv, trim_end_string(s.as_str()))
}

/// The two OGP tags whose image is fetched.
pub open spec fn image_keys() -> Seq<Seq<char>> {
    seq!["og:image"@, "twitter:image"@]
}

/// The tags checked for presence, each with the level given when it is
/// missing.
pub open spec fn tag_list() -> Seq<(Seq<char>, Level)> {
    seq![
        ("og:title"@, Level::Ng),
        ("og:type"@, Level::Ng),
        ("og:url"@, Level::Ng),
        ("og:image"@, Level::Ng),
        ("og:description"@, Level::Warn),
        ("og:site_name"@, Level::Info),
        ("og:locale"@, Level::Info),
        ("og:image:width"@, Level::Info),
        ("og:image:height"@, Level::Info),
        ("og:image:alt"@, Level::Info),
        ("twitter:card"@, Level::Warn),
        ("twitter:site"@, Level::Info),
        ("twitter:title"@, Level::Info),
        ("twitter:description"@, Level::Info),
        ("twitter:image"@, Level::Info),
    ]
}

/// The tag list as executable values.
fn tags() -> (v: Vec<(&'static str, Level)>)
    ensures
        v@.map_values(|t: (&'static str, Level)| (t.0@, t.1)) == tag_list(),
{
    let mut v: Vec<(&'static str, Level)> = Vec::new();
    v.push(("og:title", Level::Ng));
    v.push(("og:type", Level::Ng));
    v.push(("og:url", Level::Ng));
    v.push(("og:image", Level::Ng));
    v.push(("og:description", Level::Warn));
    v.push(("og:site_name", Level::Info));
    v.push(("og:locale", Level::Info));
    v.push(("og:image:width", Level::Info));
    v.push(("og:image:height", Level::Info));
    v.push(("og:image:alt", Level::Info));
    v.push(("twitter:card", Level::Warn));
    v.push(("twitter:site", Level::Info));
    v.push(("twitter:title", Level::Info));
    v.push(("twitter:description", Level::Info));
    v.push(("twitter:image", Level::Info));
    assert(v@.map_values(|t: (&'static str, Level)| (t.0@, t.1)) =~= tag_list());
    v
}

/// The item of one tag: its value when present, else the level for a
/// missing tag.
pub open spec fn tag_item(meta: Seq<(Seq<char>, Seq<char>)>, t: (Seq<char>, Level)) -> ItemModel {
    match lookup(meta, t.0) {
        Some(v) => (t.0, Level::Pass, v),
        None => (t.0, t.1, seq![]),
    }
}

/// The items before the image checks: title, description and the tags.
pub open spec fn head_items(title: Seq<char>, meta: Seq<(Seq<char>, Seq<char>)>) -> Seq<ItemModel> {
    let tr = title_result(title);
    seq![
        ("title"@, tr.0, tr.1),
        match lookup(meta, "description"@) {
            Some(d) => ("description"@, Level::Pass, counted_text(d)),
            None => ("description"@, Level::Warn, seq![]),
        },
    ] + tag_list().map_values(|t: (Seq<char>, Level)| tag_item(meta, t))
}

/// The image tags that have a non-empty value, with that value.
pub open spec fn images(meta: Seq<(Seq<char>, Seq<char>)>) -> Seq<(Seq<char>, Seq<char>)> {
    image_entry(meta, "og:image"@) + image_entry(meta, "twitter:image"@)
}

/// `[(k, v)]` where tag `k` has the non-empty value `v`, else `[]`.
pub open spec fn image_entry(meta: Seq<(Seq<char>, Seq<char>)>, k: Seq<char>) -> Seq<(Seq<char>, Seq<char>)> {
    match lookup(meta, k) {
        Some(v) => if v.len() > 0 {
            seq![(k, v)]
        } else {
            seq![]
        },
        None => seq![],
    }
}

/// The size and dimensions of an image, or the error message of
/// `imagesize::blob_size`.
pub uninterp spec fn image_dimensions(data: Seq<u8>) -> Result<(usize, usize), Seq<char>>;

/// Calls `imagesize::blob_size`, which reads the width and height from the
/// image header; the error is returned as its message. The result is named
/// [`image_dimensions`].
#[verifier::external_body]
pub(crate) fn blob_size(data: &[u8]) -> (r: Result<(usize, usize), String>)
    ensures
        match r {
            Ok(d) => image_dimensions(data@) == Ok::<(usize, usize), Seq<char>>(d),
            Err(e) => image_dimensions(data@) == Err::<(usize, usize), Seq<char>>(e@),
        },
{
    match imagesize::blob_size(data) {
        Ok(size) => Ok((size.width, size.height)),
        Err(e) => Err(e.to_string()),
    }
}

/// A `<meta>` width or height that disagrees with the real size.
pub open spec fn declared_item(meta: Seq<(Seq<char>, Seq<char>)>, k: Seq<char>, actual: nat) -> Seq<ItemModel> {
    match lookup(meta, k) {
        Some(t) => match parse_usize(trim(t)) {
            Some(d) => if d != actual {
                seq![(k + " 宣言値"@, Level::Warn, decimal(d) + " だが実寸は "@ + decimal(actual))]
            } else {
                seq![]
            },
            None => seq![],
        },
        None => seq![],
    }
}

/// The items on the fetched `og:image` file.
pub open spec fn size_items(meta: Seq<(Seq<char>, Seq<char>)>, body: Seq<u8>) -> Seq<ItemModel> {
    match image_dimensions(body) {
        Err(e) => seq![("og:image サイズ"@, Level::Warn, "読み取れない（"@ + e + "）"@)],
        Ok((w, h)) => {
            let r = image_result(w as nat, h as nat);
            let big = body.len() >= MAX_BODY;
            let lv = if big {
                max_level(r.0, Level::Warn)
            } else {
                r.0
            };
            let v = if big {
                r.1 + " / 5MB 以上（X で表示されない）"@
            } else {
                r.1
            };
            seq![("og:image サイズ"@, lv, v)] + declared_item(meta, "og:image:width"@, w as nat)
                + declared_item(meta, "og:image:height"@, h as nat)
        },
    }
}

/// The items of one fetched image tag.
pub open spec fn probe_items(
    meta: Seq<(Seq<char>, Seq<char>)>,
    k: Seq<char>,
    v: Seq<char>,
    probe: (Level, Seq<char>, Seq<u8>),
) -> Seq<ItemModel> {
    (if !starts_with(v, "http"@) {
        seq![(k + " 形式"@, Level::Warn, "相対URL（絶対URLにすべき）"@)]
    } else {
        seq![]
    }) + seq![(k + " 取得"@, probe.0, probe.1)] + if k == "og:image"@ && probe.0 != Level::Ng {
        size_items(meta, probe.2)
    } else {
        seq![]
    }
}

/// The items of the first `n` image tags paired with their probes.
pub open spec fn image_items(
    meta: Seq<(Seq<char>, Seq<char>)>,
    imgs: Seq<(Seq<char>, Seq<char>)>,
    probes: Seq<(Level, Seq<char>, Seq<u8>)>,
    n: nat,
) -> Seq<ItemModel>
    decreases n,
{
    if n == 0 {
        seq![]
    } else {
        let i = n - 1;
        image_items(meta, imgs, probes, (n - 1) as nat) + probe_items(
            meta,
            imgs[i].0,
            imgs[i].1,
            probes[i],
        )
    }
}

/// The models of the probes.
pub open spec fn probes_model(probes: Seq<Probe>) -> Seq<(Level, Seq<char>, Seq<u8>)> {
    probes.map_values(|p: Probe| p.model())
}

/// The items of the OGP section, each image tag paired in order with the
/// probe of its URL.
pub open spec fn ogp_items(
    title: Seq<char>,
    meta: Seq<(Seq<char>, Seq<char>)>,
    probes: Seq<Probe>,
) -> Seq<ItemModel> {
    let imgs = images(meta);
    head_items(title, meta) + image_items(meta, imgs, probes_model(probes), imgs.len())
}

/// Appends one item.
fn add_item(s: &mut Section, label: &str, level: Level, value: &str)
    ensures
        final(s).name == old(s).name,
        items_model(final(s).items@) == items_model(old(s).items@).push((label@, level, value@)),
{
    s.add(label.to_owned(), level, value.to_owned());
}

/// `k` followed by `suffix`.
fn label_with(k: &str, suffix: &str) -> (r: String)
    ensures
        r@ == k@ + suffix@,
{
    let mut r = k.to_owned();
    push_str(&mut r, suffix);
    r
}

/// Adds the item of a declared width or height that disagrees with the
/// real one.
fn check_declared(s: &mut Section, p: &Page, k: &str, actual: usize)
    ensures
        final(s).name == old(s).name,
        items_model(final(s).items@) == items_model(old(s).items@) + declared_item(
            p.meta_model(),
            k@,
            actual as nat,
        ),
{
    if let Some(v) = p.meta(k) {
        let t = trim_str(v);
        if let Some(d) = parse_usize_str(t.as_str()) {
            if d != actual {
                let mut value = String::new();
                push_decimal(&mut value, d as u128);
                push_str(&mut value, " だが実寸は ");
                push_decimal(&mut value, actual as u128);
                let label = label_with(k, " 宣言値");
                s.add(label, Level::Warn, value);
            }
        }
    }
    assert(items_model(final(s).items@) =~= items_model(old(s).items@) + declared_item(
        p.meta_model(),
        k@,
        actual as nat,
    ));
}

/// Adds the items on the fetched `og:image` file: its size, and declared
/// sizes that disagree with it.
pub fn image_size(s: &mut Section, p: &Page, body: &[u8])
    ensures
        final(s).name == old(s).name,
        items_model(final(s).items@) == items_model(old(s).items@) + size_items(p.meta_model(), body@),
{
    let (w, h) = match blob_size(body) {
        Ok(size) => size,
        Err(e) => {
            let mut v = "読み取れない（".to_owned();
            push_str(&mut v, e.as_str());
            push_str(&mut v, "）");
            add_item(s, "og:image サイズ", Level::Warn, v.as_str());
            assert(items_model(final(s).items@) =~= items_model(old(s).items@) + size_items(
                p.meta_model(),
                body@,
            ));
            return;
        },
    };
    let (mut lv, mut v) = image_check(w, h);
    if body.len() >= MAX_BODY {
        lv = lv.at_least(Level::Warn);
        push_str(&mut v, " / 5MB 以上（X で表示されない）");
    }
    add_item(s, "og:image サイズ", lv, v.as_str());
    check_declared(s, p, "og:image:width", w);
    check_declared(s, p, "og:image:height", h);
    assert(items_model(final(s).items@) =~= items_model(old(s).items@) + size_items(
        p.meta_model(),
        body@,
    ));
}

/// The image tags with a non-empty value, as executable values.
fn image_list(p: &Page) -> (v: Vec<(&'static str, String)>)
    ensures
        v@.map_values(|e: (&'static str, String)| (e.0@, e.1@)) == images(p.meta_model()),
{
    let mut v: Vec<(&'static str, String)> = Vec::new();
    if let Some(x) = p.meta("og:image") {
        if !x.is_empty() {
            v.push(("og:image", x.to_owned()));
        }
    }
    let ghost first = v@.map_values(|e: (&'static str, String)| (e.0@, e.1@));
    assert(first =~= image_entry(p.meta_model(), "og:image"@));
    if let Some(x) = p.meta("twitter:image") {
        if !x.is_empty() {
            v.push(("twitter:image", x.to_owned()));
        }
    }
    assert(v@.map_values(|e: (&'static str, String)| (e.0@, e.1@)) =~= images(p.meta_model()));
    v
}

/// The URLs to fetch for the OGP section, with the Content-Type expected:
/// the `og:image` and `twitter:image` values resolved against `base`.
pub fn image_targets(base: &str, p: &Page) -> (t: Vec<(String, &'static str)>)
    ensures
        t@.len() == images(p.meta_model()).len(),
        forall|i: int|
            0 <= i < t@.len() ==> (#[trigger] t@[i]).0@ == resolved(
                base@,
                images(p.meta_model())[i].1,
            ) && t@[i].1@ == "image/"@,
{
    let imgs = image_list(p);
    let ghost im = imgs@.map_values(|e: (&'static str, String)| (e.0@, e.1@));
    let mut t: Vec<(String, &'static str)> = Vec::new();
    let mut i: usize = 0;
    while i < imgs.len()
        invariant
            i <= imgs.len(),
            im == imgs@.map_values(|e: (&'static str, String)| (e.0@, e.1@)),
            im == images(p.meta_model()),
            t@.len() == i,
            forall|k: int|
                0 <= k < i ==> (#[trigger] t@[k]).0@ == resolved(base@, im[k].1) && t@[k].1@
                    == "image/"@,
        decreases imgs.len() - i,
    {
        let u = resolve(base, imgs[i].1.as_str());
        t.push((u, "image/"));
        i = i + 1;
    }
    t
}

/// The OGP section, given the probes of [`image_targets`] in the same order.
pub fn check(p: &Page, probes: &Vec<Probe>) -> (s: Section)
    requires
        probes@.len() == images(p.meta_model()).len(),
    ensures
        s.name@ == "OGP"@,
        items_model(s.items@) == ogp_items(p.title@, p.meta_model(), probes@),
{
    let mut s = Section::new("OGP");
    proof {
        reveal_strlit("");
    }
    assert(items_model(s.items@) =~= Seq::<ItemModel>::empty());
    let (lv, v) = title_check(p.title.as_str());
    add_item(&mut s, "title", lv, v.as_str());
    let ghost t1 = items_model(s.items@);
    assert(t1 =~= seq![("title"@, lv, v@)]);
    match p.meta("description") {
        Some(d) => {
            let c = counted(d);
            add_item(&mut s, "description", Level::Pass, c.as_str());
            assert(items_model(s.items@) =~= t1.push(("description"@, Level::Pass, counted_text(d@))));
        },
        None => {
            add_item(&mut s, "description", Level::Warn, "");
            assert(""@ =~= Seq::<char>::empty()) by {
                reveal_strlit("");
            }
            assert(items_model(s.items@) =~= t1.push(("description"@, Level::Warn, seq![])));
        },
    }
    let ghost tr = title_result(p.title@);
    assert(items_model(s.items@) =~= seq![
        ("title"@, tr.0, tr.1),
        match lookup(p.meta_model(), "description"@) {
            Some(d) => ("description"@, Level::Pass, counted_text(d)),
            None => ("description"@, Level::Warn, seq![]),
        },
    ]);
    let tl = tags();
    let ghost meta = p.meta_model();
    let ghost tm = tl@.map_values(|t: (&'static str, Level)| (t.0@, t.1));
    let ghost head = items_model(s.items@);
    let mut i: usize = 0;
    while i < tl.len()
        invariant
            i <= tl.len(),
            s.name@ == "OGP"@,
            meta == p.meta_model(),
            tm == tl@.map_values(|t: (&'static str, Level)| (t.0@, t.1)),
            tm == tag_list(),
            items_model(s.items@) == head + tm.take(i as int).map_values(
                |t: (Seq<char>, Level)| tag_item(meta, t),
            ),
        decreases tl.len() - i,
    {
        let (k, missing) = tl[i];
        assert(tm[i as int] == (k@, missing));
        let ghost before = items_model(s.items@);
        proof {
            reveal_strlit("");
        }
        match p.meta(k) {
            Some(v) => {
                assert(lookup(meta, k@) == Some(v@));
                add_item(&mut s, k, Level::Pass, v);
                assert(items_model(s.items@) == before.push((k@, Level::Pass, v@)));
                assert(tag_item(meta, tm[i as int]) == (k@, Level::Pass, v@));
            },
            None => {
                add_item(&mut s, k, missing, "");
                assert(items_model(s.items@) == before.push((k@, missing, ""@)));
                assert(tag_item(meta, tm[i as int]) == (k@, missing, ""@));
            },
        }
        assert(items_model(s.items@) == before.push(tag_item(meta, tm[i as int])));
        assert(tm.take(i + 1).map_values(|t: (Seq<char>, Level)| tag_item(meta, t)) =~= tm.take(
            i as int,
        ).map_values(|t: (Seq<char>, Level)| tag_item(meta, t)).push(tag_item(meta, tm[i as int])));
        i = i + 1;
    }
    assert(tm.take(i as int) == tm);
    assert(items_model(s.items@) =~= head_items(p.title@, meta));
    let imgs = image_list(p);
    let ghost im = imgs@.map_values(|e: (&'static str, String)| (e.0@, e.1@));
    let ghost pm = probes_model(probes@);
    let ghost mid = items_model(s.items@);
    assert(im.len() == imgs@.len());
    let n = imgs.len();
    let mut j: usize = 0;
    while j < n
        invariant
            j <= n,
            n <= imgs.len(),
            n <= probes.len(),
            s.name@ == "OGP"@,
            meta == p.meta_model(),
            im == imgs@.map_values(|e: (&'static str, String)| (e.0@, e.1@)),
            pm == probes_model(probes@),
            items_model(s.items@) == mid + image_items(meta, im, pm, j as nat),
        decreases n - j,
    {
        let (k, v) = (imgs[j].0, imgs[j].1.as_str());
        let pr = &probes[j];
        assert(pm[j as int] == pr.model());
        let ghost before = items_model(s.items@);
        if !str_starts_with(v, "http") {
            let l = label_with(k, " 形式");
            add_item(&mut s, l.as_str(), Level::Warn, "相対URL（絶対URLにすべき）");
        }
        let l = label_with(k, " 取得");
        add_item(&mut s, l.as_str(), pr.level, pr.summary.as_str());
        if str_eq(k, "og:image") && pr.level != Level::Ng {
            image_size(&mut s, p, pr.body.as_slice());
        }
        assert(items_model(s.items@) =~= before + probe_items(meta, im[j as int].0, im[j as int].1, pm[j as int]));
        j = j + 1;
    }
    assert(im == images(meta));
    s
}

/// An image is `Ng` exactly when it is under 200x200, and `Pass` exactly
/// when it is at least 1200x630 at about 1.91:1.
pub proof fn lemma_image_levels(w: nat, h: nat)
    ensures
        (image_result(w, h).0 == Level::Ng) == (w < 200 || h < 200),
        (image_result(w, h).0 == Level::Pass) == (w >= 1200 && h >= 630 && !ratio_off(w, h)),
{
}

/// A title passes exactly when it is between 20 and 60 columns wide, and
/// fails exactly when it is empty.
pub proof fn lemma_title_levels(t: Seq<char>)
    ensures
        (title_result(t).0 == Level::Ng) == (t.len() == 0),
        (title_result(t).0 == Level::Pass) == (t.len() > 0 && TITLE_MIN_WIDTH <= display_width(t)
            <= TITLE_MAX_WIDTH),
{
}

/// A page that lacks `og:title`, `og:type`, `og:url` or `og:image` gets an
/// error item for each one missing, and one lacking `og:description` or
/// `twitter:card` a warning; a tag that is present passes with its content.
pub proof fn lemma_missing_tag_levels(title: Seq<char>, meta: Seq<(Seq<char>, Seq<char>)>, k: Seq<char>)
    ensures
        (k == "og:title"@ || k == "og:type"@ || k == "og:url"@ || k == "og:image"@) && lookup(meta, k)
            is None ==> head_items(title, meta).contains((k, Level::Ng, Seq::<char>::empty())),
        (k == "og:description"@ || k == "twitter:card"@) && lookup(meta, k) is None ==> head_items(
            title,
            meta,
        ).contains((k, Level::Warn, Seq::<char>::empty())),
        (exists|j: int| 0 <= j < tag_list().len() && #[trigger] tag_list()[j].0 == k) ==> (
        lookup(meta, k) matches Some(v) ==> head_items(title, meta).contains((k, Level::Pass, v))),
{
    let h = head_items(title, meta);
    let tl = tag_list();
    assert forall|j: int| 0 <= j < tl.len() implies h[2 + j] == tag_item(meta, #[trigger] tl[j]) by {
    }
    if k == "og:title"@ {
        assert(h[2] == tag_item(meta, tl[0]));
    } else if k == "og:type"@ {
        assert(h[3] == tag_item(meta, tl[1]));
    } else if k == "og:url"@ {
        assert(h[4] == tag_item(meta, tl[2]));
    } else if k == "og:image"@ {
        assert(h[5] == tag_item(meta, tl[3]));
    } else if k == "og:description"@ {
        assert(h[6] == tag_item(meta, tl[4]));
    } else if k == "twitter:card"@ {
        assert(h[12] == tag_item(meta, tl[10]));
    }
    if exists|j: int| 0 <= j < tl.len() && #[trigger] tl[j].0 == k {
        let j = choose|j: int| 0 <= j < tl.len() && #[trigger] tl[j].0 == k;
        assert(h[2 + j] == tag_item(meta, tl[j]));
    }
}

} // verus!
