use jwx_rs::string_map::StringMap;
use jwx_rs::text::{
    char_ascii_lower, char_is_whitespace, decode, eq_ignore_ascii_case, find_char, find_str,
    split_str, str_eq, str_to_u16, to_chars, to_decimal, trim,
};
use jwx_rs::url::URL;

#[test]
pub fn whitespace_is_what_the_standard_library_says() {
    let mut c = 0u32;
    while c <= 0x10ffff {
        if let Some(ch) = char::from_u32(c) {
            assert_eq!(char_is_whitespace(ch), ch.is_whitespace(), "{:x}", c);
        }
        c += 1;
    }
}

#[test]
pub fn lower_case_of_ascii_is_what_the_standard_library_says() {
    let mut c = 0u32;
    while c <= 0x10ffff {
        if let Some(ch) = char::from_u32(c) {
            assert_eq!(char_ascii_lower(ch), ch.to_ascii_lowercase(), "{:x}", c);
        }
        c += 1;
    }
}

#[test]
pub fn only_kelvin_lowers_into_ascii_from_outside() {
    // Comparing tokens without regard to ASCII case agrees with comparing
    // their full lower-case forms, since no token holds a `k`.
    let mut c = 0x80u32;
    while c <= 0x10ffff {
        if let Some(ch) = char::from_u32(c) {
            let lower: String = ch.to_string().to_lowercase();
            if lower.chars().any(|l| l.is_ascii()) {
                assert!(ch == '\u{212a}' || ch == '\u{130}', "{:x}", c);
            }
        }
        c += 1;
    }
    assert_eq!("\u{212a}".to_lowercase(), "k");
    assert_eq!("\u{130}".to_lowercase(), "i\u{307}");
}

#[test]
pub fn trimming_and_searching() {
    assert_eq!(trim("  a b \r\n"), "a b");
    assert_eq!(trim("\u{a0}\u{3000}x\u{2003}"), "x");
    assert_eq!(trim(" \t "), "");
    assert_eq!(trim(""), "");
    assert_eq!(trim("\u{200b}x"), "\u{200b}x");
    assert_eq!(find_char("h\u{e9}llo", 'l'), Some(2));
    assert_eq!(find_char("hello", 'z'), None);
    assert_eq!(find_str("a: b: c", ": "), Some(1));
    assert_eq!(find_str("abc", ""), Some(0));
    assert_eq!(find_str("abc", "abcd"), None);
    assert_eq!(to_chars("a\u{e9}"), vec!['a', '\u{e9}']);
    assert!(str_eq("abc", "abc"));
    assert!(!str_eq("abc", "abd"));
    assert!(eq_ignore_ascii_case("HeLLo", "hEllO"));
    assert!(!eq_ignore_ascii_case("hello", "hell"));
    assert!(!eq_ignore_ascii_case("k", "\u{212a}"));
}

#[test]
pub fn splitting() {
    assert_eq!(split_str("a/b/c", '/'), vec!["a", "b", "c"]);
    assert_eq!(split_str("", '/'), vec![""]);
    assert_eq!(split_str("/", '/'), vec!["", ""]);
    assert_eq!(split_str("a//b/", '/'), vec!["a", "", "b", ""]);
    assert_eq!(split_str("abc", '/'), vec!["abc"]);
}

#[test]
pub fn numbers() {
    assert_eq!(to_decimal(0), "0");
    assert_eq!(to_decimal(7), "7");
    assert_eq!(to_decimal(1234567890), "1234567890");
    assert_eq!(to_decimal(u64::MAX), "18446744073709551615");
    assert_eq!(str_to_u16("0"), Some(0));
    assert_eq!(str_to_u16("007"), Some(7));
    assert_eq!(str_to_u16("+404"), Some(404));
    assert_eq!(str_to_u16("65535"), Some(65535));
    assert_eq!(str_to_u16("65536"), None);
    assert_eq!(str_to_u16("99999999999999999999999999"), None);
    assert_eq!(str_to_u16(""), None);
    assert_eq!(str_to_u16("+"), None);
    assert_eq!(str_to_u16("-1"), None);
    assert_eq!(str_to_u16("++1"), None);
    assert_eq!(str_to_u16("12a"), None);
    assert_eq!(str_to_u16("\u{661}"), None);
    for n in [0u16, 1, 9, 10, 99, 100, 4955, 65535] {
        assert_eq!(str_to_u16(&n.to_string()), Some(n));
        assert_eq!(to_decimal(n as u64), n.to_string());
        assert_eq!(n.to_string().parse::<u16>().ok(), str_to_u16(&n.to_string()));
    }
    for s in ["+5", "05", "65536", "", "+", "-0", " 1", "1 "] {
        assert_eq!(s.parse::<u16>().ok(), str_to_u16(s), "{:?}", s);
    }
}

#[test]
pub fn decoding_accepts_exactly_utf8() {
    assert_eq!(decode(b"abc"), Some("abc"));
    assert_eq!(decode("h\u{e9}\u{1f600}".as_bytes()), Some("h\u{e9}\u{1f600}"));
    assert_eq!(decode(b""), Some(""));
    assert_eq!(decode(b"\xff"), None);
    assert_eq!(decode(b"\xc0\x80"), None);
    assert_eq!(decode(b"\xed\xa0\x80"), None);
    assert_eq!(decode(b"\xe2\x82"), None);
}

#[test]
pub fn string_map_keeps_insertion_order() {
    let mut m = StringMap::new();
    assert!(m.is_empty());
    m.insert("b".to_string(), "1".to_string());
    m.insert("a".to_string(), "2".to_string());
    m.insert("b".to_string(), "3".to_string());
    assert_eq!(m.len(), 2);
    assert_eq!(m.key_at(0), "b");
    assert_eq!(m.value_at(0), "3");
    assert_eq!(m.key_at(1), "a");
    assert!(m.contains_key("a"));
    assert!(!m.contains_key("c"));
    assert_eq!(m.get("c"), None);
    m.remove("b");
    assert_eq!(m.len(), 1);
    assert_eq!(m.key_at(0), "a");
    m.remove("zzz");
    assert_eq!(m.len(), 1);
}

#[test]
pub fn url_parsing_and_writing() {
    let url = URL::parse("/p?a=1&b=&c=x").unwrap();
    assert_eq!(url.uri, "/p");
    assert_eq!(url.queries.len(), 3);
    assert_eq!(url.queries.get("a").unwrap(), "1");
    assert_eq!(url.queries.get("b").unwrap(), "");
    assert_eq!(url.queries.get("c").unwrap(), "x");
    assert_eq!(url.to_string(), "/p?a=1&b=&c=x");

    let url = URL::parse("  /p?  ").unwrap();
    assert_eq!(url.uri, "/p");
    assert_eq!(url.queries.len(), 0);
    assert_eq!(url.to_string(), "/p");

    let url = URL::parse("/p?a&b=c&&d = e =f&a=2&b=3").unwrap();
    assert_eq!(url.queries.len(), 3);
    assert_eq!(url.queries.get("b").unwrap(), "3");
    assert_eq!(url.queries.get("d").unwrap(), "e =f");
    assert_eq!(url.queries.get("a").unwrap(), "2");
    assert_eq!(url.to_string(), "/p?b=3&d=e =f&a=2");

    let url = URL::parse("/p?x=1?y=2").unwrap();
    assert_eq!(url.uri, "/p");
    assert_eq!(url.queries.get("x").unwrap(), "1?y=2");

    let url = URL::parse("?=v").unwrap();
    assert_eq!(url.uri, "");
    assert_eq!(url.queries.get("").unwrap(), "v");
}

#[test]
pub fn written_urls_read_back() {
    for text in ["/p?a=1&b=&c=x", "/plain", "", "?a=b", "/p?a b = c d &e=f", " /x?k=1&k=2 "] {
        let first = URL::parse(text).unwrap();
        let second = URL::parse(&first.to_string()).unwrap();
        assert_eq!(second.uri, first.uri);
        assert_eq!(second.queries.len(), first.queries.len());
        for i in 0..first.queries.len() {
            assert_eq!(second.queries.key_at(i), first.queries.key_at(i));
            assert_eq!(second.queries.value_at(i), first.queries.value_at(i));
        }
    }
    // A path that ends in whitespace, with no parameter, reads back trimmed.
    let first = URL::parse("/a\t?").unwrap();
    assert_eq!(first.uri, "/a\t");
    assert_eq!(URL::parse(&first.to_string()).unwrap().uri, "/a");
}
