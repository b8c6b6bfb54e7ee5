use achilles::order::{increasing_unique_u16, sort_i32, sorted_unique, str_lt};
use achilles::text::{
    concat3, ends_with, i64_text, join, parse_u16, split_fields, split_words, str_eq, take_chars,
    u64_text,
};

fn strings(items: &[&str]) -> Vec<String> {
    items.iter().map(|s| s.to_string()).collect()
}

#[test]
fn decimal_rendering_matches_display() {
    for n in [0u64, 7, 10, 99, 100, 65535, 1234567890, u64::MAX] {
        assert_eq!(u64_text(n), n.to_string());
    }
    for n in [0i64, -1, 42, -2147483648, i64::MIN, i64::MAX] {
        assert_eq!(i64_text(n), n.to_string());
    }
}

#[test]
fn parse_u16_accepts_what_std_accepts() {
    for s in ["80", "abc", "443", "", "8080", "99999", "+22", "+", "-1", "065535", "65536", " 80", "0"] {
        assert_eq!(parse_u16(s), s.parse::<u16>().ok(), "input {:?}", s);
    }
    assert_eq!(parse_u16("65535"), Some(65535));
    assert_eq!(parse_u16("65536"), None);
}

#[test]
fn split_words_matches_split_whitespace() {
    for s in ["", "  ", "a", " a  b\tc\n", "PORT STATE SERVICE\n22/tcp open ssh", "x\u{3000}y"] {
        let expected: Vec<String> = s.split_whitespace().map(|w| w.to_string()).collect();
        assert_eq!(split_words(s), expected);
    }
}

#[test]
fn split_fields_matches_split() {
    for s in ["", "a", "10.0.0.1:80:OPEN", ":", "a::b:"] {
        let expected: Vec<String> = s.split(':').map(|w| w.to_string()).collect();
        assert_eq!(split_fields(s, ':'), expected);
    }
}

#[test]
fn small_string_helpers() {
    assert!(str_eq("OPEN", "OPEN"));
    assert!(!str_eq("OPEN", "open"));
    assert!(ends_with("web.htb", ".htb"));
    assert!(!ends_with("google.com", ".htb"));
    assert!(!ends_with("htb", ".htb"));
    assert_eq!(take_chars("WEB.TARGET.HTB", 10), "WEB.TARGET");
    assert_eq!(take_chars("DB", 10), "DB");
    assert_eq!(concat3("a", "-", "b"), "a-b");
    assert_eq!(join(&strings(&["22", "80", "443"]), ", "), "22, 80, 443");
    assert_eq!(join(&strings(&[]), ", "), "");
    assert_eq!(join(&strings(&["only"]), ", "), "only");
}

#[test]
fn string_order_matches_std() {
    let words = ["", "a", "ab", "b", "B", "é", "z", "mail.htb", "mail.htb.x"];
    for a in words {
        for b in words {
            assert_eq!(str_lt(a, b), a < b, "{:?} < {:?}", a, b);
        }
    }
}

#[test]
fn sorted_collections() {
    let items = strings(&["target.htb", "admin.target.htb", "target.htb", "mail.target.htb"]);
    assert_eq!(
        sorted_unique(&items),
        strings(&["admin.target.htb", "mail.target.htb", "target.htb"])
    );
    assert_eq!(increasing_unique_u16(&vec![443, 22, 80, 22, 443]), vec![22, 80, 443]);
    let mut data = vec![1, 5, 3, 8, 2, -4, 5];
    sort_i32(&mut data);
    assert_eq!(data, vec![-4, 1, 2, 3, 5, 5, 8]);
}

#[test]
fn whitespace_agrees_with_std_on_every_char() {
    for code in 0u32..=0x10FFFF {
        if let Some(c) = char::from_u32(code) {
            assert_eq!(achilles::text::char_is_whitespace(c), c.is_whitespace(), "U+{:04X}", code);
        }
    }
}
