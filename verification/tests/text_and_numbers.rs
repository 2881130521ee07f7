use driftwatch::number::{
    push_decimal, push_grouped, push_quotient, push_signed, push_tenths, push_two_digits,
};
use driftwatch::order::sort;
use driftwatch::text::{
    chars_of, contains, find, find_last, is_text, is_white_space, lines, parse_uint, same_chars,
    same_text, spaces_to_underscores, split_first, split_last, string_of, strip_prefix, trim, words,
    IntError,
};

fn read(s: &str, radix: u64, max: u64) -> Result<u64, IntError> {
    parse_uint(chars_of(s).as_slice(), radix, max)
}

fn strings(v: Vec<&[char]>) -> Vec<String> {
    v.into_iter().map(|s| s.iter().collect()).collect()
}

const SAMPLES: [&str; 14] = [
    "",
    " ",
    "a",
    " a b  c ",
    "\tone\u{a0}two\u{3000}three\n",
    "x\r\ny\n\nz",
    "\n",
    "last line\r",
    "a:b:c",
    ":",
    "::",
    "µs \u{2028} end",
    "eth0\t00000000\t0102A8C0",
    "\u{85}\u{1680}\u{205f}",
];

#[test]
fn words_are_those_of_the_standard_library() {
    for s in SAMPLES {
        let chars = chars_of(s);
        let want: Vec<String> = s.split_whitespace().map(|w| w.to_string()).collect();
        assert_eq!(strings(words(chars.as_slice())), want);
    }
}

#[test]
fn lines_are_those_of_the_standard_library() {
    for s in SAMPLES {
        let chars = chars_of(s);
        let want: Vec<String> = s.lines().map(|w| w.to_string()).collect();
        assert_eq!(strings(lines(chars.as_slice())), want);
    }
}

#[test]
fn trimming_is_that_of_the_standard_library() {
    for s in SAMPLES {
        let chars = chars_of(s);
        assert_eq!(string_of(trim(chars.as_slice())), s.trim());
    }
}

#[test]
fn cuts_are_those_of_the_standard_library() {
    for s in SAMPLES {
        let chars = chars_of(s);
        let pair = |p: Option<(&[char], &[char])>| p.map(|(a, b)| (string_of(a), string_of(b)));
        let want = |p: Option<(&str, &str)>| p.map(|(a, b)| (a.to_string(), b.to_string()));
        assert_eq!(pair(split_first(chars.as_slice(), ':')), want(s.split_once(':')));
        assert_eq!(pair(split_last(chars.as_slice(), ':')), want(s.rsplit_once(':')));
    }
}

#[test]
fn white_space_is_that_of_unicode() {
    for n in 0..0x11_0000u32 {
        if let Some(c) = char::from_u32(n) {
            assert_eq!(is_white_space(c), c.is_whitespace());
        }
    }
}

#[test]
fn positions_and_infixes() {
    let chars = chars_of("prog/xdp id 7");
    assert_eq!(find(chars.as_slice(), '/', 0), 4);
    assert_eq!(find(chars.as_slice(), 'z', 0), 13);
    assert_eq!(find_last(chars.as_slice(), ' '), 12);
    assert_eq!(find_last(chars.as_slice(), 'z'), 0);
    assert!(contains(chars.as_slice(), "prog/xdp"));
    assert!(contains(chars.as_slice(), ""));
    assert!(!contains(chars.as_slice(), "prog/xdp id 77"));
    assert_eq!(strip_prefix(chars.as_slice(), "prog").map(string_of), Some("/xdp id 7".to_string()));
    assert_eq!(strip_prefix(chars.as_slice(), "Prog").map(string_of), None);
    assert!(is_text(chars.as_slice(), "prog/xdp id 7"));
    assert!(!is_text(chars.as_slice(), "prog/xdp id"));
    assert!(same_chars(&['a', 'b'], &['a', 'b']));
    assert!(!same_chars(&['a', 'b'], &['a']));
    assert!(same_text("µs", "µs"));
    assert!(!same_text("µs", "us"));
    assert_eq!(spaces_to_underscores("a b  c"), "a_b__c");
}

#[test]
fn integers_are_read_as_by_the_standard_library() {
    let texts = [
        "", "+", "-", "0", "+7", "-7", "007", "12a", "4294967295", "4294967296",
        "18446744073709551615", "18446744073709551616", " 1", "ff", "FF", "1f40", "99999999999999999999x",
        "65535", "65536", "ffff", "10000",
    ];
    for t in texts {
        let ours = read(t, 10, u64::MAX).map_err(|e| e.message().to_string());
        let std = t.parse::<u64>().map_err(|e| e.to_string());
        assert_eq!(ours, std, "{}", t);
        let ours = read(t, 10, u32::MAX as u64).map_err(|e| e.message().to_string());
        let std = t.parse::<u32>().map(|v| v as u64).map_err(|e| e.to_string());
        assert_eq!(ours, std, "{}", t);
        let ours = read(t, 16, u64::MAX).map_err(|e| e.message().to_string());
        let std = u64::from_str_radix(t, 16).map_err(|e| e.to_string());
        assert_eq!(ours, std, "{}", t);
        let ours = read(t, 16, u16::MAX as u64).map_err(|e| e.message().to_string());
        let std = u16::from_str_radix(t, 16).map(|v| v as u64).map_err(|e| e.to_string());
        assert_eq!(ours, std, "{}", t);
    }
}

#[test]
fn every_integer_error_has_an_input() {
    assert_eq!(read("", 10, 9), Err(IntError::Empty));
    assert_eq!(read("x", 10, 9), Err(IntError::InvalidDigit));
    assert_eq!(read("10", 10, 9), Err(IntError::Overflow));
    assert_eq!(read("9", 10, 9), Ok(9));
}

#[test]
fn decimal_reads_back() {
    for n in [0u64, 9, 10, 99, 100, 1234567, u64::MAX] {
        let mut s = String::new();
        push_decimal(&mut s, n as u128);
        assert_eq!(s, n.to_string());
        assert_eq!(read(&s, 10, u64::MAX), Ok(n));
    }
    let mut s = String::from("x");
    push_decimal(&mut s, u128::MAX);
    assert_eq!(s, format!("x{}", u128::MAX));
}

#[test]
fn signs_padding_and_groups() {
    for i in [0i64, 1, -1, i64::MAX, i64::MIN] {
        let mut s = String::new();
        push_signed(&mut s, i);
        assert_eq!(s, i.to_string());
    }
    for n in [0u64, 7, 10, 59, 123] {
        let mut s = String::new();
        push_two_digits(&mut s, n);
        assert_eq!(s, format!("{:02}", n));
    }
    for (n, want) in [
        (0u64, "0"),
        (999, "999"),
        (1000, "1,000"),
        (1234567, "1,234,567"),
        (100000, "100,000"),
        (u64::MAX, "18,446,744,073,709,551,615"),
    ] {
        let mut s = String::new();
        push_grouped(&mut s, n);
        assert_eq!(s, want);
        assert_eq!(s.replace(',', ""), n.to_string());
    }
}

#[test]
fn tenths() {
    for (t, want) in [(0u128, "0.0"), (9, "0.9"), (10, "1.0"), (42, "4.2"), (123456, "12345.6")] {
        let mut s = String::new();
        push_tenths(&mut s, t);
        assert_eq!(s, want);
    }
}

fn quotient(n: u64, d: u64, shift: u32) -> String {
    let mut s = String::new();
    push_quotient(&mut s, n, d, shift);
    s
}

#[test]
fn quotients_are_those_of_doubles() {
    let mut x: u64 = 0x9e37_79b9_7f4a_7c15;
    for i in 0..20_000u32 {
        x = x.wrapping_mul(6364136223846793005).wrapping_add(1442695040888963407);
        let n = x >> (i % 64);
        x = x.wrapping_mul(6364136223846793005).wrapping_add(1442695040888963407);
        let d = (x >> (i % 61 + 1)) + 1;
        let scale = (1u64 << 20) as f64;
        assert_eq!(quotient(n, 1_000_000, 0), format!("{:.1}", n as f64 / 1e6));
        assert_eq!(quotient(n, d, 20), format!("{:.1}", n as f64 / scale / d as f64));
        assert_eq!(quotient(n, 1, 10), format!("{:.1}", n as f64 / 1024.0));
    }
}

#[test]
fn quotients_at_the_edges() {
    for n in [0u64, 1, 49_999, 50_000, 50_001, 150_000, 250_000, 950_000, u64::MAX, 1 << 53, (1 << 53) + 1] {
        assert_eq!(quotient(n, 1_000_000, 0), format!("{:.1}", n as f64 / 1e6));
    }
    for n in [0u64, 256, 768, 512, 1280, 51, 52, 1023, 1024] {
        assert_eq!(quotient(n, 1, 10), format!("{:.1}", n as f64 / 1024.0));
    }
    assert_eq!(quotient(0, 0, 20), format!("{:.1}", 0f64 / 0f64));
    assert_eq!(quotient(5, 0, 20), format!("{:.1}", 5f64 / 0f64));
    assert_eq!(quotient(4_200_000, 1_000_000, 0), "4.2");
}

#[test]
fn sorting() {
    let mut v = vec![3u64, 1, 2, 1, 0];
    sort(&mut v);
    assert_eq!(v, vec![0, 1, 1, 2, 3]);
    let mut none: Vec<u64> = vec![];
    sort(&mut none);
    assert!(none.is_empty());
}
