use sysinfo_reader::text::{
    chars_of, find_in, is_in, stands_at, trim_by, trim_in, unsigned_from, unsigned_in,
    whitespace_set,
};

fn chars(s: &str) -> Vec<char> {
    s.chars().collect()
}

#[test]
fn chars_of_gives_the_characters() {
    assert_eq!(chars_of("aé€"), vec!['a', 'é', '€']);
    assert_eq!(chars_of(""), Vec::<char>::new());
}

#[test]
fn find_in_gives_the_first_occurrence_in_the_part() {
    let hay = chars("abcabcabc");
    assert_eq!(find_in(&hay, 0, 9, &chars("bc")), Some(1));
    assert_eq!(find_in(&hay, 2, 9, &chars("bc")), Some(4));
    assert_eq!(find_in(&hay, 2, 5, &chars("bc")), None);
    assert_eq!(find_in(&hay, 2, 6, &chars("bc")), Some(4));
    assert_eq!(find_in(&hay, 0, 9, &chars("cb")), None);
    assert_eq!(find_in(&hay, 3, 9, &chars("")), Some(3));
    assert_eq!(find_in(&hay, 9, 9, &chars("")), Some(9));
    assert_eq!(find_in(&hay, 9, 9, &chars("a")), None);
    assert_eq!(find_in(&hay, 0, 9, &chars("abcabcabcd")), None);
    assert_eq!(find_in(&hay, 0, 9, &chars("abcabcabc")), Some(0));
}

#[test]
fn stands_at_compares_in_place() {
    let hay = chars("hello");
    assert!(stands_at(&hay, 1, &chars("ell")));
    assert!(!stands_at(&hay, 0, &chars("ell")));
    assert!(stands_at(&hay, 5, &chars("")));
}

#[test]
fn is_in_looks_through_the_set() {
    assert!(is_in(&['a', 'b'], 'b'));
    assert!(!is_in(&['a', 'b'], 'c'));
    assert!(!is_in(&[], 'c'));
}

#[test]
fn trim_in_cuts_both_ends() {
    let hay = chars("xx  ab c  yy");
    assert_eq!(trim_in(&hay, 2, 10, &[' ']), (4, 8));
    assert_eq!(trim_in(&hay, 0, 12, &[' ']), (0, 12));
    assert_eq!(trim_in(&hay, 2, 4, &[' ']), (4, 4));
    assert_eq!(trim_in(&hay, 0, 12, &['x', 'y', ' ']), (4, 8));
    assert_eq!(trim_by("  a b \n", &whitespace_set()), "a b");
    assert_eq!(trim_by("\u{3000}a\u{a0}", &whitespace_set()), "a");
    assert_eq!(trim_by("   ", &whitespace_set()), "");
}

#[test]
fn whitespace_set_is_what_std_trims() {
    for c in whitespace_set() {
        assert!(c.is_whitespace());
    }
    let mut count = 0;
    for code in 0..=0x10FFFFu32 {
        if let Some(c) = char::from_u32(code) {
            if c.is_whitespace() {
                count += 1;
            }
        }
    }
    assert_eq!(count, whitespace_set().len());
}

#[test]
fn unsigned_reads_decimal_numbers() {
    assert_eq!(unsigned_from("0", 10), Some(0));
    assert_eq!(unsigned_from("10", 10), Some(10));
    assert_eq!(unsigned_from("11", 10), None);
    assert_eq!(unsigned_from("007", 10), Some(7));
    assert_eq!(unsigned_from("+7", 10), Some(7));
    assert_eq!(unsigned_from("+", 10), None);
    assert_eq!(unsigned_from("", 10), None);
    assert_eq!(unsigned_from("-7", 10), None);
    assert_eq!(unsigned_from("++7", 10), None);
    assert_eq!(unsigned_from("7 ", 10), None);
    assert_eq!(unsigned_from("٣", 10), None);
    assert_eq!(unsigned_from("18446744073709551615", u64::MAX), Some(u64::MAX));
    assert_eq!(unsigned_from("18446744073709551616", u64::MAX), None);
    assert_eq!(unsigned_from("99999999999999999999999999999999999999999999", u64::MAX), None);
    assert_eq!(unsigned_from("4294967295", u32::MAX as u64), Some(4294967295));
    assert_eq!(unsigned_from("4294967296", u32::MAX as u64), None);
    let hay = chars("ab123cd");
    assert_eq!(unsigned_in(&hay, 2, 5, 1000), Some(123));
    assert_eq!(unsigned_in(&hay, 2, 6, 1000), None);
    assert_eq!(unsigned_in(&hay, 2, 2, 1000), None);
}

#[test]
fn unsigned_agrees_with_std() {
    for text in ["0", "1", "+1", "-1", "", "+", "12a", "4294967295", "4294967296", "00012", " 1"] {
        assert_eq!(
            unsigned_from(text, u32::MAX as u64),
            text.parse::<u32>().ok().map(|n| n as u64)
        );
        assert_eq!(unsigned_from(text, u64::MAX), text.parse::<u64>().ok());
    }
}
