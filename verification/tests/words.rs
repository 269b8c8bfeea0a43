use mgmt::html::html_escape;
use mgmt::json::{parse_json, Json};
use mgmt::sorting::{sort_numbers, sort_positions, sort_texts};
use mgmt::text;

#[test]
fn characters_are_classed_as_std_does() {
    for n in 0..=0x10_ffffu32 {
        if let Some(c) = char::from_u32(n) {
            assert_eq!(text::is_white(c), c.is_whitespace(), "{n:#x}");
            assert_eq!(text::is_control(c), c.is_control(), "{n:#x}");
        }
    }
    for c in (0..128u8).map(|b| b as char) {
        assert_eq!(text::is_digit(c), c.is_ascii_digit());
        assert_eq!(text::is_alnum(c), c.is_ascii_alphanumeric());
        assert_eq!(text::is_hex(c), c.is_ascii_hexdigit());
        assert_eq!(text::to_lower(c), c.to_ascii_lowercase());
    }
}

const SAMPLES: [&str; 12] = [
    "",
    " ",
    "a",
    "ab",
    "aab",
    "  a b\t",
    "ä",
    "zebra",
    "\u{e000}",
    "\u{10000}",
    "a,b,,c,",
    "aaa",
];

#[test]
fn texts_are_handled_as_std_does() {
    for a in SAMPLES {
        assert_eq!(text::trim(a), a.trim());
        assert_eq!(text::byte_count(a), a.len());
        assert_eq!(text::to_chars(a), a.chars().collect::<Vec<char>>());
        let parts: Vec<&str> = a.split(',').collect();
        assert_eq!(text::split(a, ','), parts);
        let words: Vec<&str> = a.split_whitespace().collect();
        assert_eq!(text::split_words(a), words);
        assert_eq!(text::replace(a, "a", "xy"), a.replace("a", "xy"));
        assert_eq!(text::replace(a, "aa", "b"), a.replace("aa", "b"));
        assert_eq!(text::take_chars(a, 2), a.chars().take(2).collect::<String>());
        for b in SAMPLES {
            assert_eq!(text::is_le(a, b), a <= b, "{a:?} {b:?}");
            assert_eq!(text::str_eq(a, b), a == b);
            assert_eq!(text::starts_with(a, b), a.starts_with(b));
            assert_eq!(text::ends_with(a, b), a.ends_with(b));
            assert_eq!(text::contains(a, b), a.contains(b));
            assert_eq!(text::strip_prefix(a, b).as_deref(), a.strip_prefix(b));
            assert_eq!(text::strip_suffix(a, b).as_deref(), a.strip_suffix(b));
        }
    }
}

#[test]
fn numbers_are_written_and_read() {
    for n in [0u64, 9, 10, 12345, u64::MAX] {
        assert_eq!(text::dec_of(n), n.to_string());
        assert_eq!(text::parse_unsigned(&n.to_string(), u64::MAX), Some(n));
    }
    for s in ["", "+", "+5", "-5", "5x", "18446744073709551616", "007"] {
        assert_eq!(text::parse_unsigned(s, u64::MAX), s.parse::<u64>().ok(), "{s}");
        assert_eq!(text::parse_signed(s), s.parse::<i64>().ok(), "{s}");
    }
    assert_eq!(text::parse_signed("-9223372036854775808"), Some(i64::MIN));
    assert_eq!(text::parse_signed("9223372036854775808"), None);
}

#[test]
fn sorting_keeps_the_order_of_equals() {
    let keys: Vec<String> = ["b", "a", "b", "a", "c"].iter().map(|s| s.to_string()).collect();
    assert_eq!(sort_positions(&keys, false), vec![1, 3, 0, 2, 4]);
    assert_eq!(sort_positions(&keys, true), vec![4, 0, 2, 1, 3]);
    assert_eq!(sort_texts(&keys, false), vec!["a", "a", "b", "b", "c"]);
    assert_eq!(sort_numbers(vec![3, 1, 2, 1]), vec![1, 1, 2, 3]);
}

#[test]
fn text_is_escaped_for_its_place() {
    assert_eq!(html_escape("<a href='x'>&\"</a>"), "&lt;a href=&#x27;x&#x27;&gt;&amp;&quot;&lt;/a&gt;");
    assert_eq!(mgmt::audit::url_with("", "t", "w", false, &vec![("q", "a b/ä~")]), "?tab=t&window=w&q=a%20b%2F%C3%A4~");
}

#[test]
fn json_is_read_as_a_tree() {
    match parse_json("{\"b\":[1,-2.5,true,null],\"a\":\"x\"}") {
        Some(Json::Object(fields)) => {
            assert_eq!(fields.len(), 2);
            let b = fields.iter().find(|f| f.0 == "b").unwrap();
            match &b.1 {
                Json::List(l) => {
                    assert!(matches!(&l[0], Json::Number(n) if n == "1"));
                    assert!(matches!(&l[1], Json::Number(n) if n == "-2.5"));
                    assert!(matches!(l[2], Json::Flag(true)));
                    assert!(matches!(l[3], Json::Null));
                }
                _ => panic!("a list"),
            }
        }
        _ => panic!("an object"),
    }
    assert!(parse_json("{").is_none());
}
