use headlint::check::ogp::{image_check, title_check};
use headlint::lint;
use headlint::report::Level::{Ng, Pass, Warn};

#[test]
fn check_title() {
    assert!(lint::title_check("") == (lint::Level::Ng, String::new()));
    assert!(lint::title_check("短い").0 == lint::Level::Warn);
    assert!(lint::title_check("ちょうどいい長さのタイトルです｜サイト名").0 == lint::Level::Pass); // 幅40
    assert!(lint::title_check(&"あ".repeat(31)).0 == lint::Level::Warn); // 幅62
}

#[test]
fn check_image() {
    assert!(lint::image_check(1200, 630).0 == lint::Level::Pass);
    assert!(lint::image_check(2400, 1260).0 == lint::Level::Pass);
    assert!(lint::image_check(800, 419).0 == lint::Level::Warn); // 比率OK・小さい
    assert!(lint::image_check(1200, 1200).0 == lint::Level::Warn); // 正方形
    assert!(lint::image_check(150, 150).0 == lint::Level::Ng);
}

#[test]
fn ogp_title() {
    assert_eq!(title_check(""), (Ng, String::new()));
    assert_eq!(title_check("短い").0, Warn);
    assert_eq!(title_check("ちょうどいい長さのタイトルです｜サイト名").0, Pass); // 幅40
    assert_eq!(title_check(&"あ".repeat(31)).0, Warn); // 幅62
}

#[test]
fn ogp_image() {
    assert_eq!(image_check(1200, 630).0, Pass);
    assert_eq!(image_check(2400, 1260).0, Pass);
    assert_eq!(image_check(800, 419).0, Warn); // 比率OK・小さい
    assert_eq!(image_check(1200, 1200).0, Warn); // 正方形
    assert_eq!(image_check(150, 150).0, Ng);
}

#[test]
fn title_texts() {
    let hint = "（目安: 幅20〜60＝全角10〜30字）";
    assert_eq!(title_check("短い").1, format!("短い  [2文字・幅4] 短すぎ{hint}"));
    let long = "あ".repeat(31);
    assert_eq!(title_check(&long).1, format!("{long}  [31文字・幅62] 長すぎ・検索結果で省略される{hint}"));
    let ok = "ちょうどいい長さのタイトルです｜サイト名";
    assert_eq!(title_check(ok).1, format!("{ok}  [20文字・幅40]"));
    // exactly 20 and 60 columns pass
    assert_eq!(title_check(&"a".repeat(20)).0, Pass);
    assert_eq!(title_check(&"a".repeat(60)).0, Pass);
    assert_eq!(title_check(&"a".repeat(19)).0, Warn);
    assert_eq!(title_check(&"a".repeat(61)).0, Warn);
}

#[test]
fn image_texts() {
    assert_eq!(image_check(1200, 630).1, "1200x630（1.90:1）");
    assert_eq!(image_check(150, 150).1, "150x150（1.00:1）  200x200 未満（表示されない） / 比率が 1.91:1 でない（切り抜かれる）");
    assert_eq!(image_check(800, 419).1, "800x419（1.91:1）  推奨 1200x630 未満");
    assert_eq!(image_check(0, 0), (Ng, "0x0（NaN:1）  200x200 未満（表示されない）".to_string()));
    assert_eq!(image_check(300, 0).1, "300x0（inf:1）  200x200 未満（表示されない） / 比率が 1.91:1 でない（切り抜かれる）");
    // ratio bounds: 1.81 and 2.01 are not off; just beyond is
    assert_eq!(image_check(1810, 1000).0, Pass);
    assert_eq!(image_check(2010, 1000).0, Pass);
    assert_eq!(image_check(2011, 1000).0, Warn);
    assert_eq!(image_check(1809, 1000).0, Warn);
}

/// What `f64` arithmetic gives for an image of `w` x `h`: the level and the
/// start of the text.
fn float_reading(w: usize, h: usize) -> (headlint::report::Level, String) {
    let ratio = w as f64 / h as f64;
    let off = (ratio - 1.91).abs() > 0.1;
    let size = if w < 200 || h < 200 { Ng } else if w < 1200 || h < 630 { Warn } else { Pass };
    let lv = if off { size.max(Warn) } else { size };
    (lv, format!("{w}x{h}（{ratio:.2}:1）"))
}

fn assert_float_reading(w: usize, h: usize) {
    let (lv, text) = image_check(w, h);
    let (want_lv, want_start) = float_reading(w, h);
    assert_eq!(lv, want_lv, "{w}x{h}");
    assert!(text.starts_with(&want_start), "{w}x{h}: {text} / {want_start}");
}

#[test]
fn image_ratio_matches_float_reading() {
    for w in (150..2600usize).step_by(37) {
        for h in (100..1400usize).step_by(29) {
            assert_float_reading(w, h);
        }
    }
    for w in 0..300usize {
        for h in 0..60usize {
            assert_float_reading(w, h);
        }
    }
    for h in 1..3000usize {
        for w in [h * 181 / 100, h * 191 / 100, h * 201 / 100, h * 2, h * 2 + 1, h / 2] {
            assert_float_reading(w, h);
        }
    }
    let big = [
        usize::MAX,
        usize::MAX - 1,
        1 << 53,
        (1 << 53) + 1,
        (1 << 53) + 3,
        (1 << 54) + 2,
        (1 << 63) + 1024,
        2010000000000000001,
        1000000000000000000,
        1910000000000000000,
        1,
        3,
        8,
    ];
    for w in big {
        for h in big {
            assert_float_reading(w, h);
        }
    }
    let mut seed: u64 = 0x9e37_79b9_7f4a_7c15;
    let mut next = || {
        seed = seed.wrapping_mul(6364136223846793005).wrapping_add(1442695040888963407);
        let bits = (seed >> 58) as u32 + 1;
        let v = seed.rotate_left(17) ^ seed;
        (if bits >= 64 { v } else { v & ((1u64 << bits) - 1) }) as usize
    };
    for _ in 0..20000 {
        let w = next();
        let h = next();
        assert_float_reading(w, h);
    }
}

#[test]
fn image_ratio_texts_follow_doubles() {
    // 1.925 as a double lies above 1.925; 1/40 = 0.025 as a double lies above 0.025
    assert!(image_check(1925, 1000).1.starts_with("1925x1000（1.93:1）"));
    assert!(image_check(1, 40).1.starts_with("1x40（0.03:1）"));
    // exact ties round to even: 0.125 and 0.375
    assert!(image_check(1, 8).1.starts_with("1x8（0.12:1）"));
    assert!(image_check(3, 8).1.starts_with("3x8（0.38:1）"));
    // the width rounds to 2.01e18 as a double, so the ratio is 2.01, not off
    assert_eq!(image_check(2010000000000000001, 1000000000000000000).0, Pass);
    assert!(image_check(usize::MAX, 1).1.starts_with(&format!("{}x1（18446744073709551616.00:1）", usize::MAX)));
    assert_eq!(image_check(0, 630).1, "0x630（0.00:1）  200x200 未満（表示されない） / 比率が 1.91:1 でない（切り抜かれる）");
}

#[test]
fn lint_levels_convert() {
    assert!(lint::from_level(Pass) == lint::Level::Pass);
    assert!(lint::from_level(headlint::report::Level::Info) == lint::Level::Info);
    assert!(lint::directive_level("noindex") == lint::Level::Ng);
    assert_eq!(lint::counted("abc"), "abc  [3文字]");
    assert_eq!(lint::counted(""), "");
}
