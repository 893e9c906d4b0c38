use twitcher::extremes::{max_of, min_of};
use twitcher::text::{chars_of, decimal_string, less_than, push_decimal, same_text, starts_with};

#[test]
fn decimal_writing() {
    assert_eq!(decimal_string(0), "0");
    assert_eq!(decimal_string(7), "7");
    assert_eq!(decimal_string(1234567890), "1234567890");
    assert_eq!(decimal_string(u64::MAX), u64::MAX.to_string());
    let mut s = "jobs-".to_string();
    push_decimal(&mut s, 16);
    assert_eq!(s, "jobs-16");
}

#[test]
fn prefixes() {
    assert!(starts_with("path+file:///x", "path"));
    assert!(starts_with("path", "path"));
    assert!(!starts_with("pat", "path"));
    assert!(!starts_with("registry+path", "path"));
    assert!(starts_with("anything", ""));
}

#[test]
fn order_of_names_is_that_of_strings() {
    let names = ["", "a", "ab", "b", "B", "é", "z", "aa"];
    for a in names {
        for b in names {
            assert_eq!(less_than(a, b), a < b, "{a} {b}");
            assert_eq!(same_text(a, b), a == b);
        }
    }
}

#[test]
fn characters_in_order() {
    assert_eq!(chars_of("héllo"), vec!['h', 'é', 'l', 'l', 'o']);
}

#[test]
fn extremes_of_numbers() {
    assert_eq!(min_of(&vec![4, 2, 9, 2]), 2);
    assert_eq!(max_of(&vec![4, 2, 9, 2]), 9);
    assert_eq!(min_of(&vec![5]), 5);
}

#[test]
fn decimal_text_reads_back() {
    for n in [0u64, 9, 10, 99, 100, 4096, 18446744073709551615] {
        assert_eq!(decimal_string(n).parse::<u64>().unwrap(), n);
    }
}
