use screen_ocr::binary32::{Binary32, NINETY, ONE, ZERO};
use screen_ocr::title::{parse_bbox, split_text};

fn samples() -> Vec<f32> {
    vec![
        0.0,
        -0.0,
        1.0,
        -1.0,
        0.25,
        -0.25,
        89.99999,
        90.0,
        90.00001,
        1920.0,
        1e-45,
        -1e-45,
        1.17549421e-38,
        f32::MIN_POSITIVE,
        -f32::MIN_POSITIVE,
        f32::MAX,
        f32::MIN,
        f32::INFINITY,
        f32::NEG_INFINITY,
        f32::NAN,
        -f32::NAN,
        f32::from_bits(0x7F80_0001),
        f32::from_bits(0xFFFF_FFFF),
    ]
}

fn pattern(value: f32) -> Binary32 {
    Binary32 { bits: value.to_bits() }
}

#[test]
fn comparisons_agree_with_the_processor() {
    for a in samples() {
        for b in samples() {
            assert_eq!(pattern(a).less(pattern(b)), a < b, "{} < {}", a, b);
            assert_eq!(pattern(a).at_most(pattern(b)), a <= b, "{} <= {}", a, b);
        }
    }
}

#[test]
fn total_order_agrees_with_the_standard_library() {
    for a in samples() {
        for b in samples() {
            assert_eq!(pattern(a).before(pattern(b)), a.total_cmp(&b).is_lt(), "{} {}", a, b);
        }
    }
}

#[test]
fn zeros_are_equal_but_ordered() {
    let minus = pattern(-0.0);
    let plus = pattern(0.0);
    assert!(!minus.less(plus) && !plus.less(minus));
    assert!(minus.at_most(plus) && plus.at_most(minus));
    assert!(minus.before(plus) && !plus.before(minus));
}

#[test]
fn named_patterns_are_their_numbers() {
    assert_eq!(f32::from_bits(ZERO), 0.0);
    assert_eq!(f32::from_bits(ONE), 1.0);
    assert_eq!(f32::from_bits(NINETY), 90.0);
}

#[test]
fn splitting_agrees_with_the_standard_library() {
    for text in [
        "",
        " ",
        "  ",
        "bbox",
        " bbox",
        "bbox ",
        "bbox 40 8 97 24; x_wconf 96",
        "bbox  40   8",
        "\u{5b57} \u{e9}\u{301} \t x",
    ] {
        let expected: Vec<&str> = text.split(" ").collect();
        assert_eq!(split_text(text, ' '), expected);
    }
}

#[test]
fn pieces_joined_are_the_text() {
    let text = " bbox 40  8; ";
    let pieces = split_text(text, ' ');
    assert_eq!(pieces.join(" "), text);
    assert!(pieces.iter().all(|piece| !piece.contains(' ')));
}

#[test]
fn coordinates_are_read_from_digits_alone() {
    assert_eq!(parse_bbox("40"), Some(40));
    assert_eq!(parse_bbox("24;"), Some(24));
    assert_eq!(parse_bbox("-1x2.3"), Some(123));
    assert_eq!(parse_bbox("007"), Some(7));
    assert_eq!(parse_bbox("0"), Some(0));
    assert_eq!(parse_bbox("\u{0664}5"), Some(5));
}

#[test]
fn no_digits_no_coordinate() {
    assert_eq!(parse_bbox(""), None);
    assert_eq!(parse_bbox("bbox;"), None);
    assert_eq!(parse_bbox("\u{0664}"), None);
}

#[test]
fn large_coordinates_stop_at_the_largest_number() {
    assert_eq!(parse_bbox("340282366920938463463374607431768211454"), Some(u128::MAX - 1));
    assert_eq!(parse_bbox("340282366920938463463374607431768211455"), Some(u128::MAX));
    assert_eq!(parse_bbox("340282366920938463463374607431768211456"), Some(u128::MAX));
    assert_eq!(parse_bbox("9999999999999999999999999999999999999999999999"), Some(u128::MAX));
    assert_eq!(parse_bbox("99999999999999999999999999999999999999999999991"), Some(u128::MAX));
}

#[test]
fn coordinates_become_the_numbers_that_the_digits_spell() {
    for piece in [
        "0",
        "1",
        "160;",
        "16777216",
        "16777217",
        "16777219",
        "33554435",
        "123456789012345678901234567890",
        "340282346638528859811704183484516925440",
        "340282356779733661637539395458142568447",
        "340282356779733661637539395458142568448",
        "340282366920938463463374607431768211456",
        "99999999999999999999999999999999999999999999999999",
    ] {
        let digits: String = piece.chars().filter(|c| c.is_ascii_digit()).collect();
        let expected = digits.parse::<f32>().unwrap() / 4.0;
        assert_eq!(parse_bbox(piece).unwrap() as f32 / 4.0, expected, "{}", piece);
    }
}

#[test]
fn joined_pieces_are_split_again() {
    let pieces = vec!["", "bbox", "", "40", "24;"];
    assert_eq!(split_text(&pieces.join(" "), ' '), pieces);
    assert_eq!(split_text(&["x"].join(" "), ' '), vec!["x"]);
}

#[test]
fn only_digits_matter() {
    for piece in ["a1b2", "12", ";;12", "1 2"] {
        assert_eq!(parse_bbox(piece), parse_bbox("12"));
    }
}
