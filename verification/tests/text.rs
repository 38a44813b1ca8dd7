use data_tracker::text::{
    chars_of, decimal_len, parse_unsigned_range, push_decimal, push_padded, split_ranges,
    string_of, text_less, trim_range,
};

fn parse(s: &str, max: u64) -> Option<u64> {
    let v = chars_of(s);
    parse_unsigned_range(&v, 0, v.len(), max)
}

#[test]
fn unsigned_parsing_follows_str_parse() {
    for s in ["0", "7", "+7", "0012", "4294967295", "4294967296", "", "+", "-1", " 1", "1 ", "1_000", "١"] {
        assert_eq!(parse(s, u32::MAX as u64), s.parse::<u32>().ok().map(u64::from), "text {:?}", s);
    }
    assert_eq!(parse("18446744073709551615", u64::MAX), Some(u64::MAX));
    assert_eq!(parse("18446744073709551616", u64::MAX), None);
}

#[test]
fn trimming_follows_str_trim() {
    for s in ["  a b  ", "\t\n x\u{3000}", "\u{a0}y\u{2029}", "none", "   ", ""] {
        let v = chars_of(s);
        let (a, b) = trim_range(&v, 0, v.len());
        assert_eq!(string_of(&v, a, b), s.trim(), "text {:?}", s);
    }
}

#[test]
fn splitting_follows_str_split() {
    for s in ["a:b", "a::b", ":", "", "abc", "1.2.3."] {
        let v = chars_of(s);
        let parts: Vec<String> = split_ranges(&v, if s.contains('.') { '.' } else { ':' })
            .iter()
            .map(|&(a, b)| string_of(&v, a, b))
            .collect();
        let expected: Vec<String> =
            s.split(if s.contains('.') { '.' } else { ':' }).map(|p| p.to_string()).collect();
        assert_eq!(parts, expected, "text {:?}", s);
    }
}

#[test]
fn text_order_is_byte_order() {
    let pairs = [("2024-05-01", "2024-05-02"), ("2024-05", "2024-05-01"), ("b", "a"), ("", ""), ("", "a"), ("é", "z")];
    for (a, b) in pairs {
        assert_eq!(text_less(&a.to_string(), &b.to_string()), a < b, "{:?} < {:?}", a, b);
    }
}

#[test]
fn decimals_and_padding() {
    let mut s = String::new();
    push_decimal(&mut s, 0);
    push_decimal(&mut s, 1234567890);
    assert_eq!(s, "01234567890");
    let mut p = String::new();
    push_padded(&mut p, 7, 2);
    push_padded(&mut p, 123, 2);
    push_padded(&mut p, 5, 4);
    assert_eq!(p, "071230005");
    assert_eq!(decimal_len(0), 1);
    assert_eq!(decimal_len(99), 2);
    assert_eq!(decimal_len(u64::MAX), 20);
}
