use imq::bytes::{le_number, push_le};
use imq::strings::{
    blank, char_list, comes_before, contains, find_from, join, pad_left, pad_right, parse_number,
    repeat, replace, rsplit_once, split_all, split_once, strip_prefix, to_ascii_lowercase, to_lower,
    trim,
};
use imq::text::{concat3, copy_texts, decimal, same_bytes, same_text};

#[test]
fn splitting_agrees_with_std() {
    for text in ["", "a", "a::b", "::", "x::y::z", "\u{e9}::\u{1f600}"] {
        assert_eq!(split_once(text, "::"), text.split_once("::"));
        assert_eq!(rsplit_once(text, ':'), text.rsplit_once(':'));
        assert_eq!(split_all(text, ':'), text.split(':').collect::<Vec<_>>());
        assert_eq!(strip_prefix(text, "a"), text.strip_prefix("a"));
        assert_eq!(contains(text, "b"), text.contains("b"));
        assert_eq!(replace(text, ":", "=="), text.replace(":", "=="));
    }
}

#[test]
fn trimming_agrees_with_std() {
    for text in ["", " ", "\t a b \n", "x", "\u{2003}x\u{a0}", "\u{85}y\u{3000}"] {
        assert_eq!(trim(text), text.trim());
    }
    for code in 0..0x3100u32 {
        if let Some(c) = char::from_u32(code) {
            assert_eq!(blank(c), c.is_whitespace());
        }
    }
}

#[test]
fn ascii_case_folds() {
    assert_eq!(to_ascii_lowercase("PnG-7"), "png-7");
    assert_eq!(to_lower('Z'), 'z');
    assert_eq!(to_lower('1'), '1');
}

#[test]
fn order_agrees_with_std() {
    let words = ["", "a", "ab", "b", "Z", "\u{e9}", "\u{1f600}"];
    for a in words {
        for b in words {
            assert_eq!(comes_before(a, b), a < b);
            assert_eq!(same_text(a, b), a == b);
        }
    }
}

#[test]
fn numbers_have_limits() {
    assert_eq!(parse_number("0", 9), Some(0));
    assert_eq!(parse_number("+7", 9), Some(7));
    assert_eq!(parse_number("12", 11), None);
    assert_eq!(parse_number("18446744073709551615", u64::MAX), Some(u64::MAX));
    assert_eq!(parse_number("18446744073709551616", u64::MAX), None);
    for text in ["", "+", "-1", "1 ", "x"] {
        assert_eq!(parse_number(text, 99), None);
    }
}

#[test]
fn decimals_agree_with_std() {
    for value in [0, 9, 10, 99, 1234567890, u64::MAX] {
        assert_eq!(decimal(value), value.to_string());
    }
}

#[test]
fn padding_counts_chars() {
    assert_eq!(pad_right("ab", 4, ' '), "ab  ");
    assert_eq!(pad_left("ab", 4, '.'), "..ab");
    assert_eq!(pad_left("abcde", 4, '.'), "abcde");
    assert_eq!(repeat('x', 3), "xxx");
    assert_eq!(
        join(&vec!["a".to_string(), "b".to_string()], ", "),
        "a, b"
    );
    assert_eq!(join(&vec![], ","), "");
    assert_eq!(concat3("a", "", "b"), "ab");
    assert_eq!(copy_texts(&vec!["q".to_string()]), ["q"]);
}

#[test]
fn patterns_are_found() {
    let text = char_list("abcabc");
    let pattern = char_list("ca");
    assert_eq!(find_from(&text, &pattern, 0), Some(2));
    assert_eq!(find_from(&text, &pattern, 3), None);
}

#[test]
fn little_endian_numbers_come_back() {
    let mut output = vec![9];
    push_le(&mut output, 0x1234, 2);
    push_le(&mut output, u64::MAX, 8);
    assert_eq!(output[..3], [9, 0x34, 0x12]);
    assert_eq!(le_number(&output[1..3]), 0x1234);
    assert_eq!(le_number(&output[3..]), u64::MAX);
    assert!(same_bytes(&output[1..3], &[0x34, 0x12]));
    assert!(!same_bytes(&output[1..3], &[0x34]));
}
