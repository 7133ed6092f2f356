use social_media_backend::decimal::{write_int, write_nat};
use social_media_backend::region::{
    coordinate_cell, find_comma, format_region, get_region, get_region_i64, scan_digits,
};

#[test]
fn region_rounds_both_coordinates() {
    assert_eq!(get_region_i64("12.5,-7.5"), Some((13, -8)));
    assert_eq!(get_region_i64("1.4,2.6"), Some((1, 3)));
    assert_eq!(get_region_i64("-122.4194,37.7749"), Some((-122, 38)));
    assert_eq!(get_region_i64("0,0"), Some((0, 0)));
    assert_eq!(get_region_i64("180,-90"), Some((180, -90)));
    assert_eq!(get_region_i64("-0.0,+0.0"), Some((0, 0)));
}

#[test]
fn halves_round_away_from_zero() {
    assert_eq!(get_region_i64("0.5,-0.5"), Some((1, -1)));
    assert_eq!(get_region_i64("1.5,-1.5"), Some((2, -2)));
    assert_eq!(get_region_i64("2.5,-2.5"), Some((3, -3)));
    assert_eq!(get_region_i64("0.49,-0.49"), Some((0, 0)));
    assert_eq!(get_region_i64("0.4999999,-0.4999999"), Some((0, 0)));
    assert_eq!(get_region_i64("0.50000001,-0.50000001"), Some((1, -1)));
    assert_eq!(get_region_i64("99.5,-99.5"), Some((100, -100)));
    assert_eq!(get_region_i64("9.95,-9.95"), Some((10, -10)));
}

fn as_double(text: &str) -> Option<i64> {
    text.parse::<f64>().ok().map(|value| value.round() as i64)
}

#[test]
fn coordinates_are_held_as_doubles() {
    let cases: [(&str, i64); 16] = [
        ("0.49999999999999999", 1),
        ("0.49999999999999999999999999999999", 1),
        ("0.4999999999999999", 0),
        ("0.50000000000000000000000000000000", 1),
        ("0.4999999999999999722444243843710864894092082977294921875", 1),
        ("0.4999999999999999722444243843710864894092082977294921874", 0),
        ("9007199254740993", 9_007_199_254_740_992),
        ("9007199254740993.0000001", 9_007_199_254_740_994),
        ("9007199254740995", 9_007_199_254_740_996),
        ("4503599627370496.5", 4_503_599_627_370_496),
        ("4503599627370497.5", 4_503_599_627_370_498),
        ("4503599627370496.50000000001", 4_503_599_627_370_497),
        ("2251799813685248.25", 2_251_799_813_685_248),
        ("2251799813685248.2500000001", 2_251_799_813_685_249),
        ("1.4999999999999998889776975", 1),
        ("1.49999999999999988897769753748", 1),
    ];
    for (text, expected) in cases {
        assert_eq!(as_double(text), Some(expected), "{:?}", text);
        assert_eq!(coordinate_cell(text.as_bytes()), Some(expected), "{:?}", text);
    }
    assert_eq!(get_region_i64("9007199254740993,0"), Some((9_007_199_254_740_992, 0)));
    assert_eq!(get_region_i64("0.49999999999999999,0"), Some((1, 0)));
    assert_eq!(get_region_i64("0.5,0"), Some((1, 0)));
}

#[test]
fn equal_doubles_have_equal_cells() {
    let groups = [
        vec!["0.5", "0.49999999999999999", "0.500000000000000000001", "5e-1", "0.05e1"],
        vec!["9007199254740992", "9007199254740993", "9007199254740992.999", "9.007199254740992e15"],
        vec!["1.5", "1.50000000000000000001", "1.49999999999999999999"],
        vec!["0.1", "0.1000000000000000055511151231257827", "1e-1"],
    ];
    for group in groups {
        let first = coordinate_cell(group[0].as_bytes());
        for text in &group {
            assert_eq!(text.parse::<f64>().ok(), group[0].parse::<f64>().ok(), "{:?}", text);
            assert_eq!(coordinate_cell(text.as_bytes()), first, "{:?}", text);
        }
    }
}

fn next_random(state: &mut u64) -> u64 {
    *state = state.wrapping_mul(6364136223846793005).wrapping_add(1442695040888963407);
    *state >> 11
}

#[test]
fn agrees_with_doubles_on_random_decimals() {
    let mut state = 0x2545_f491_4f6c_dd1d_u64;
    let mut checked = 0;
    while checked < 20_000 {
        let whole_len = next_random(&mut state) % 22;
        let frac_len = next_random(&mut state) % 40;
        let mut text = String::new();
        if next_random(&mut state) % 2 == 0 {
            text.push('-');
        }
        for _ in 0..whole_len {
            text.push((b'0' + (next_random(&mut state) % 10) as u8) as char);
        }
        if frac_len > 0 || whole_len == 0 {
            text.push('.');
            for _ in 0..frac_len.max(1) {
                text.push((b'0' + (next_random(&mut state) % 10) as u8) as char);
            }
        }
        if next_random(&mut state) % 3 == 0 {
            let exponent = (next_random(&mut state) % 41) as i64 - 20;
            text.push_str(&format!("e{}", exponent));
        }
        assert_eq!(coordinate_cell(text.as_bytes()), as_double(&text), "{:?}", text);
        checked += 1;
    }
}

fn sub_decimal(a: &str, b: &str) -> String {
    let (a, b) = (a.as_bytes(), b.as_bytes());
    assert_eq!(a.len(), b.len());
    let mut out = vec![0u8; a.len()];
    let mut borrow = 0i32;
    for i in (0..a.len()).rev() {
        if a[i] == b'.' {
            out[i] = b'.';
            continue;
        }
        let mut d = (a[i] - b'0') as i32 - (b[i] - b'0') as i32 - borrow;
        borrow = 0;
        if d < 0 {
            d += 10;
            borrow = 1;
        }
        out[i] = b'0' + d as u8;
    }
    assert_eq!(borrow, 0);
    String::from_utf8(out).unwrap()
}

#[test]
fn agrees_with_doubles_between_a_half_and_the_double_before_it() {
    let mut state = 0x9e37_79b9_7f4a_7c15_u64;
    let mut wholes: Vec<u64> = vec![0, 1, 2, 3, 7, 8, 255, 256, (1 << 51) - 1, 1 << 51, (1 << 52) - 1];
    for bits in 1..52 {
        wholes.push((1u64 << bits) + next_random(&mut state) % (1u64 << bits));
    }
    for whole in wholes {
        let half = whole as f64 + 0.5;
        let before = half.next_down();
        let gap = (half - before) / 2.0;
        let width = 80;
        let half_text = format!("{:0>100.*}", width, half);
        let gap_text = format!("{:0>100.*}", width, gap);
        let between = sub_decimal(&half_text, &gap_text);
        let between = between.trim_start_matches('0');
        let between = if between.starts_with('.') {
            format!("0{}", between)
        } else {
            between.to_string()
        };
        let above = format!("{}1", between);
        let mut below = between.trim_end_matches('0').as_bytes().to_vec();
        let last = below.len() - 1;
        below[last] -= 1;
        below.extend_from_slice(b"9999");
        let below = String::from_utf8(below).unwrap();
        for text in [between.clone(), above, below] {
            for sign in ["", "-"] {
                let text = format!("{}{}", sign, text);
                assert_eq!(coordinate_cell(text.as_bytes()), as_double(&text), "{:?}", text);
            }
        }
    }
}

#[test]
fn agrees_with_doubles_on_large_numbers() {
    let mut state = 0x0123_4567_89ab_cdef_u64;
    let tails = ["", ".0", ".5", ".4999999999", ".5000000001", ".25", ".75", ".000000000000000000001"];
    for round in 0..3000 {
        let bits = 52 + round % 13;
        let whole = ((1u128 << bits) + (next_random(&mut state) as u128 % (1u128 << bits))) as u128;
        let near = match round % 4 {
            0 => whole,
            1 => whole & !0x7ff | 0x400,
            2 => whole & !0x3 | 0x2,
            _ => whole & !0xff | 0x80,
        };
        for tail in tails {
            let text = format!("{}{}", near, tail);
            assert_eq!(coordinate_cell(text.as_bytes()), as_double(&text), "{:?}", text);
            let text = format!("-{}{}", near, tail);
            assert_eq!(coordinate_cell(text.as_bytes()), as_double(&text), "{:?}", text);
        }
    }
}

#[test]
fn point_may_stand_anywhere() {
    assert_eq!(get_region_i64(".5,5."), Some((1, 5)));
    assert_eq!(get_region_i64("+.4,-.6"), Some((0, -1)));
    assert_eq!(get_region_i64("007.20,-000.9"), Some((7, -1)));
    assert_eq!(get_region_i64(".,1"), None);
    assert_eq!(get_region_i64("1,."), None);
    assert_eq!(get_region_i64("1..2,1"), None);
    assert_eq!(get_region_i64("1.2.3,1"), None);
}

#[test]
fn exponent_moves_the_point() {
    assert_eq!(get_region_i64("1e2,1E-2"), Some((100, 0)));
    assert_eq!(get_region_i64("1.25e1,-1.25e+1"), Some((13, -13)));
    assert_eq!(get_region_i64("125e-1,5e-1"), Some((13, 1)));
    assert_eq!(get_region_i64("49e-2,4999e-4"), Some((0, 0)));
    assert_eq!(get_region_i64("0.00015e4,15000e-4"), Some((2, 2)));
    assert_eq!(get_region_i64("1.e1,.1e1"), Some((10, 1)));
    assert_eq!(get_region_i64("1e0,1e-0"), Some((1, 1)));
    assert_eq!(get_region_i64("1e00000000000000000000000000000000000002,0"), Some((100, 0)));
    assert_eq!(get_region_i64("5e-00000000000000000000000000000000000001,0"), Some((1, 0)));
    assert_eq!(get_region_i64("1e,1"), None);
    assert_eq!(get_region_i64("1e+,1"), None);
    assert_eq!(get_region_i64("1e-,1"), None);
    assert_eq!(get_region_i64("e5,1"), None);
    assert_eq!(get_region_i64(".e5,1"), None);
    assert_eq!(get_region_i64("1e5.5,1"), None);
    assert_eq!(get_region_i64("1e++5,1"), None);
}

#[test]
fn cells_stay_within_sixty_four_bits() {
    let cases: [(&str, i64); 24] = [
        ("9223372036854775807", i64::MAX),
        ("9223372036854775296", i64::MAX),
        ("9223372036854775295", 9_223_372_036_854_774_784),
        ("9223372036854774784", 9_223_372_036_854_774_784),
        ("9223372036854775806.5", i64::MAX),
        ("9223372036854775808", i64::MAX),
        ("-9223372036854775807", i64::MIN),
        ("-9223372036854775295", -9_223_372_036_854_774_784),
        ("-9223372036854775808", i64::MIN),
        ("-9223372036854775809", i64::MIN),
        ("1e19", i64::MAX),
        ("-1e19", i64::MIN),
        ("1e18", 1_000_000_000_000_000_000),
        ("1e400", i64::MAX),
        ("-1e400", i64::MIN),
        ("1e-400", 0),
        ("0e400", 0),
        ("0.000e99999999999999999999999999999999999999999999", 0),
        ("0.001e99999999999999999999999999999999999999999999", i64::MAX),
        ("-0.001e99999999999999999999999999999999999999999999", i64::MIN),
        ("123456789e-99999999999999999999999999999999999999999999", 0),
        ("100000000000000000000000000000000000000000000000000", i64::MAX),
        ("100000000000000000000000000000000000000000000000000e-50", 1),
        ("0.00000000000000000000000000000000000000000000000001e50", 1),
    ];
    for (text, expected) in cases {
        assert_eq!(as_double(text), Some(expected), "{:?}", text);
        assert_eq!(coordinate_cell(text.as_bytes()), Some(expected), "{:?}", text);
    }
}

#[test]
fn words_for_what_is_no_finite_number() {
    assert_eq!(get_region_i64("inf,-inf"), Some((i64::MAX, i64::MIN)));
    assert_eq!(get_region_i64("+infinity,-INFINITY"), Some((i64::MAX, i64::MIN)));
    assert_eq!(get_region_i64("Inf,iNfIniTy"), Some((i64::MAX, i64::MAX)));
    assert_eq!(get_region_i64("nan,NaN"), Some((0, 0)));
    assert_eq!(get_region_i64("-nan,+NAN"), Some((0, 0)));
    assert_eq!(get_region_i64("infinit,1"), None);
    assert_eq!(get_region_i64("infinityy,1"), None);
    assert_eq!(get_region_i64("in,1"), None);
    assert_eq!(get_region_i64("na,1"), None);
    assert_eq!(get_region_i64("nan0,1"), None);
    assert_eq!(get_region_i64("i\u{4e}f,1"), Some((i64::MAX, 1)));
    assert_eq!(get_region_i64("\u{9}nf,1"), None);
    assert_eq!(get_region_i64("INFINITY\u{0},1"), None);
}

#[test]
fn location_is_cut_at_its_first_comma() {
    assert_eq!(get_region_i64("1"), None);
    assert_eq!(get_region_i64(""), None);
    assert_eq!(get_region_i64(","), None);
    assert_eq!(get_region_i64("1,"), None);
    assert_eq!(get_region_i64(",1"), None);
    assert_eq!(get_region_i64("1,2,3"), None);
    assert_eq!(get_region_i64("1;2"), None);
    assert_eq!(get_region_i64("1 ,2"), None);
    assert_eq!(get_region_i64("1, 2"), None);
    assert_eq!(get_region_i64(" 1,2"), None);
    assert_eq!(get_region_i64("1,2 "), None);
    assert_eq!(get_region_i64("+,1"), None);
    assert_eq!(get_region_i64("-,1"), None);
    assert_eq!(get_region_i64("+-1,1"), None);
    assert_eq!(get_region_i64("1_0,1"), None);
    assert_eq!(get_region_i64("0x10,1"), None);
    assert_eq!(get_region_i64("one,two"), None);
    assert_eq!(get_region_i64("\u{661},1"), None);
    assert_eq!(get_region_i64("1\u{ff0c}2"), None);
    assert_eq!(find_comma(b"12,34,56"), 2);
    assert_eq!(find_comma(b"1234"), 4);
    assert_eq!(find_comma(b""), 0);
    assert_eq!(find_comma(b","), 0);
}

#[test]
fn digit_runs_end_at_the_first_other_byte() {
    assert_eq!(scan_digits(b"123.45", 0), 3);
    assert_eq!(scan_digits(b"123.45", 3), 3);
    assert_eq!(scan_digits(b"123.45", 4), 6);
    assert_eq!(scan_digits(b"123.45", 6), 6);
    assert_eq!(scan_digits(b"", 0), 0);
    assert_eq!(scan_digits(b"/0:", 0), 0);
    assert_eq!(scan_digits(b"/0:", 1), 2);
}

#[test]
fn region_text_is_both_cells_with_a_comma() {
    assert_eq!(get_region("12.5,-7.5"), Some("13,-8".to_string()));
    assert_eq!(get_region("-122.4194,37.7749"), Some("-122,38".to_string()));
    assert_eq!(get_region("0.2,-0.2"), Some("0,0".to_string()));
    assert_eq!(
        get_region("inf,-inf"),
        Some("9223372036854775807,-9223372036854775808".to_string())
    );
    assert_eq!(get_region("12.5"), None);
    assert_eq!(get_region("north,south"), None);
    assert_eq!(format_region(0, 0), "0,0");
    assert_eq!(format_region(-1, 1), "-1,1");
    assert_eq!(format_region(1005, -90), "1005,-90");
    assert_eq!(format_region(i64::MAX, i64::MIN), "9223372036854775807,-9223372036854775808");
}

#[test]
fn region_of_a_region_text_is_itself() {
    for location in ["12.5,-7.5", "0,0", "-0.5,0.5", "inf,-inf", "1e3,-1e3", "179.9,-89.9"] {
        let region = get_region_i64(location).unwrap();
        let text = get_region(location).unwrap();
        assert_eq!(get_region_i64(&text), Some(region), "{:?}", location);
        assert_eq!(get_region(&text), Some(text.clone()), "{:?}", location);
    }
}

#[test]
fn integers_are_written_in_decimal() {
    let mut text = String::new();
    write_nat(0, &mut text);
    assert_eq!(text, "0");
    write_nat(907, &mut text);
    assert_eq!(text, "0907");
    write_nat(u64::MAX, &mut text);
    assert_eq!(text, "090718446744073709551615");
    let mut text = String::from("x=");
    write_int(-45, &mut text);
    assert_eq!(text, "x=-45");
    write_int(i64::MIN, &mut text);
    assert_eq!(text, "x=-45-9223372036854775808");
    write_int(i64::MAX, &mut text);
    assert_eq!(text, "x=-45-92233720368547758089223372036854775807");
    let mut text = String::new();
    write_int(0, &mut text);
    write_int(10, &mut text);
    write_int(-10, &mut text);
    assert_eq!(text, "010-10");
}

#[test]
fn accepts_what_floating_point_parsing_accepts() {
    let texts = [
        "", "+", "-", ".", "1.", ".1", "1e", "1e+", "1e-", "1e1", "1E1", "e1", "1e1.0", "inf",
        "INF", "Infinity", "infinit", "infinityy", "nan", "NaN", "-nan", "+nan", "+inf", "-inf",
        "1_0", " 1", "1 ", "0x1", "1f", "\u{ff11}", "++1", "+-1", "-+1", "1e--1", "1e+-1",
        "1.5.5", "..", "1..", "-.", "+.", "+.e1", ".e1", "1.e1", ".1e1", "1e01", "1e+01",
        "1e-01", "00", "-00.00", "1e1e1", "in", "na", "nane", "i", "n", "1e", "1.0e", "1.0E+",
        "0", "-0", "+0", "0.0", "000.000", "1e400", "1e-400", "-1e400", "1e9999999999",
        "1e-9999999999", "12345678901234567890123456789012345678901234567890", "1,", ",",
        "1\n", "\t1", "1e 1", "1 e1", "infinity ", " nan", "nan(1)", "1d5", "1.2.3", "--1",
        "0e0", "0e-0", ".0e+0", "5.", "-5.", "+5.e-1", "1E+1", "1E-1", "iNf", "NAN", "Nan",
    ];
    for text in texts {
        assert_eq!(
            coordinate_cell(text.as_bytes()).is_some(),
            text.parse::<f64>().is_ok(),
            "{:?}",
            text
        );
    }
}

#[test]
fn agrees_with_floating_point_rounding_on_short_decimals() {
    let fractions = ["", ".", ".0", ".1", ".25", ".4", ".4999", ".5", ".5001", ".75", ".9", ".999"];
    let mut checked = 0;
    for whole in -250i64..=250 {
        for sign in ["", "+", "-"] {
            for fraction in fractions {
                let text = format!("{}{}{}", sign, whole.abs(), fraction);
                let expected = text.parse::<f64>().unwrap().round() as i64;
                assert_eq!(coordinate_cell(text.as_bytes()), Some(expected), "{:?}", text);
                checked += 1;
            }
        }
    }
    assert_eq!(checked, 501 * 3 * 12);
    for text in ["1e3", "-1e3", "1.5e2", "12345e-2", "-12345e-2", "0.5e1", "2.5e-1", "inf", "-inf", "nan", "1e300", "-1e300", "1e-300"] {
        let expected = text.parse::<f64>().unwrap().round() as i64;
        assert_eq!(coordinate_cell(text.as_bytes()), Some(expected), "{:?}", text);
    }
}
