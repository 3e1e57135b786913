use labbridger::assoc_map::StringMap;
use labbridger::ip::{parse_ip, IpAddr, Ipv4Addr};
use labbridger::text::{
    chars_of, contains_text, same_ignoring_case, split, split_words, string_of, to_lower, trim_of,
    write_decimal, write_signed, CharClass,
};
use labbridger::wol::parse_mac_address;

#[test]
fn ipv4_addresses_are_written_and_read() {
    let a = Ipv4Addr { a: 192, b: 168, c: 0, d: 254 };
    assert_eq!(a.to_text(), "192.168.0.254");
    assert_eq!(parse_ip("192.168.0.254"), Some(IpAddr::V4(a)));
}

#[test]
fn what_is_no_address_is_refused() {
    let cases = [
        "256.1.1.1", "1.2.3", "1.2.3.4.5", "01.2.3.4", "1..2.3", " 1.2.3.4", "", "1:2:3:4:5:6:7",
        "1:2:3:4:5:6:7:8:9", "1::2::3", "12345::", "[::1]", "g::", ":1", "1:", "1.2.3.4::", "host",
        "+1.2.3.4",
    ];
    for c in cases {
        assert_eq!(parse_ip(c), None, "{}", c);
    }
}

#[test]
fn ipv6_addresses_are_read() {
    let cases: [(&str, [u16; 8]); 10] = [
        ("::", [0; 8]),
        ("::1", [0, 0, 0, 0, 0, 0, 0, 1]),
        ("1::", [1, 0, 0, 0, 0, 0, 0, 0]),
        ("fe80::1", [0xfe80, 0, 0, 0, 0, 0, 0, 1]),
        ("1:2:3:4:5:6:7:8", [1, 2, 3, 4, 5, 6, 7, 8]),
        ("::ffff:1.2.3.4", [0, 0, 0, 0, 0, 0xffff, 0x0102, 0x0304]),
        ("1:2:3:4:5:6:1.2.3.4", [1, 2, 3, 4, 5, 6, 0x0102, 0x0304]),
        ("FFFF::abcd", [0xffff, 0, 0, 0, 0, 0, 0, 0xabcd]),
        ("1:2:3:4:5:6:7::", [1, 2, 3, 4, 5, 6, 7, 0]),
        ("::2:3:4:5:6:7:8", [0, 2, 3, 4, 5, 6, 7, 8]),
    ];
    for (text, groups) in cases {
        assert_eq!(parse_ip(text), Some(IpAddr::V6(groups)), "{}", text);
    }
}

#[test]
fn mac_addresses_are_read_with_any_separator() {
    let expected = Ok([0xaa, 0xbb, 0xcc, 0xdd, 0xee, 0xff]);
    assert_eq!(parse_mac_address("aa:bb:cc:dd:ee:ff"), expected);
    assert_eq!(parse_mac_address("aa-bb-cc-dd-ee-ff"), expected);
    assert_eq!(parse_mac_address("aabbccddeeff"), expected);
    assert_eq!(parse_mac_address("AA:bb-CC:dd:eeff"), expected);
    assert_eq!(parse_mac_address("00:01:02:03:04:05"), Ok([0, 1, 2, 3, 4, 5]));
}

#[test]
fn mac_address_with_a_plus_sign_is_refused() {
    let expected = Err("Invalid hex in MAC address: +a".to_owned());
    assert_eq!(parse_mac_address("+a:+b:+c:+d:+e:+f"), expected);
    assert_eq!(parse_mac_address("+a+b+c+d+e+f"), expected);
}

#[test]
fn mac_address_of_wrong_length_is_refused() {
    assert_eq!(
        parse_mac_address("aa:bb"),
        Err("MAC address must be 12 hex characters, got 4".to_owned())
    );
    assert_eq!(
        parse_mac_address(""),
        Err("MAC address must be 12 hex characters, got 0".to_owned())
    );
}

#[test]
fn mac_address_with_bad_digits_is_refused() {
    assert_eq!(
        parse_mac_address("aa:bb:cc:dd:ee:fg"),
        Err("Invalid hex in MAC address: fg".to_owned())
    );
    assert_eq!(
        parse_mac_address("zz:yy:cc:dd:ee:ff"),
        Err("Invalid hex in MAC address: zz".to_owned())
    );
    assert_eq!(
        parse_mac_address("aa\u{e9}ccddeeff"),
        Err("Invalid hex in MAC address: \u{e9}".to_owned())
    );
}

#[test]
fn mac_address_is_shown_whole_where_a_pair_cuts_a_character() {
    assert_eq!(
        parse_mac_address("\u{20ac}\u{20ac}:\u{20ac}\u{20ac}"),
        Err("Invalid hex in MAC address: \u{20ac}\u{20ac}\u{20ac}\u{20ac}".to_owned())
    );
    assert_eq!(
        parse_mac_address("a\u{e9}bccddeeff"),
        Err("Invalid hex in MAC address: a\u{e9}bccddeeff".to_owned())
    );
    // An earlier pair that is no number comes first.
    assert_eq!(
        parse_mac_address("zza\u{e9}cddeeff"),
        Err("Invalid hex in MAC address: zz".to_owned())
    );
}

#[test]
fn text_is_split_and_trimmed() {
    let parts = split(&chars_of("a..b."), &CharClass::Only('.'));
    let parts: Vec<String> = parts.iter().map(string_of).collect();
    assert_eq!(parts, vec!["a", "", "b", ""]);
    let words = split_words(&chars_of(" a \t b\u{a0}c\n"));
    let words: Vec<String> = words.iter().map(string_of).collect();
    assert_eq!(words, vec!["a", "b", "c"]);
    assert_eq!(string_of(&trim_of(&chars_of("\u{2003} x y \n"), &CharClass::Whitespace)), "x y");
}

#[test]
fn case_is_folded_for_ascii_only() {
    assert_eq!(to_lower("AbC\u{c9}"), "abc\u{c9}");
    assert!(same_ignoring_case("Host", "hOST"));
    assert!(!same_ignoring_case("Host", "Hos"));
}

#[test]
fn numbers_are_written_in_decimal() {
    assert_eq!(write_decimal(0), "0");
    assert_eq!(write_decimal(65535), "65535");
    assert_eq!(write_decimal(u64::MAX), u64::MAX.to_string());
    assert_eq!(write_signed(-1), "-1");
    assert_eq!(write_signed(i32::MIN), i32::MIN.to_string());
    assert_eq!(write_signed(127), "127");
}

#[test]
fn substrings_are_found() {
    assert!(contains_text("abcabd", "abd"));
    assert!(contains_text("abc", ""));
    assert!(!contains_text("ab", "abc"));
}

#[test]
fn map_holds_one_value_for_each_key() {
    let mut m: StringMap<u8> = StringMap::new();
    m.insert("a".to_owned(), 1);
    m.insert("b".to_owned(), 2);
    m.insert("a".to_owned(), 3);
    assert_eq!(m.len(), 2);
    assert_eq!(m.get(&"a".to_owned()), Some(&3));
    m.remove(&"a".to_owned());
    assert_eq!(m.get(&"a".to_owned()), None);
    assert_eq!(m.entry(0), (&"b".to_owned(), &2));
}
