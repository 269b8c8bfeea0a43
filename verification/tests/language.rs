use mgmt::i18n::{init_bundles, parse_toml, substitute_placeholders, BundleError, Bundles, Locale, Translator};
use mgmt::locale_layer::resolve_locale;

const EN: &str = "[_meta]\nsentinel = \"ok\"\n[common.button]\ncopy = \"Copy\"\nonly_en = \"Only {who}\"\n[empty]\ntext = \"\"\n";
const ZH: &str = "[_meta]\nsentinel = \"ok\"\n[common.button]\ncopy = \"複製\"\n";

fn bundles() -> Bundles {
    init_bundles(EN, ZH).unwrap()
}

#[test]
fn bundles_can_be_read_again() {
    let (a, b) = (bundles(), bundles());
    let (first, second) = (Translator::new(&a, Locale::ZhTw), Translator::new(&b, Locale::ZhTw));
    for key in ["common.button.copy", "common.button.only_en", "no.such.key"] {
        assert_eq!(first.s(key), second.s(key));
    }
}

#[test]
fn locale_from_tag_exact_matches() {
    assert_eq!(Locale::from_tag("en"), Some(Locale::En));
    assert_eq!(Locale::from_tag("zh-TW"), Some(Locale::ZhTw));
}

#[test]
fn locale_from_tag_permissive_zh() {
    assert_eq!(Locale::from_tag("zh-Hant-TW"), Some(Locale::ZhTw));
    assert_eq!(Locale::from_tag("zh-CN"), Some(Locale::ZhTw));
    assert_eq!(Locale::from_tag("zh"), Some(Locale::ZhTw));
}

#[test]
fn locale_from_tag_unsupported_returns_none() {
    assert_eq!(Locale::from_tag("ja"), None);
    assert_eq!(Locale::from_tag("es"), None);
}

#[test]
fn translator_hits_active_bundle_first() {
    let b = bundles();
    let t = Translator::new(&b, Locale::ZhTw);
    assert_eq!(t.s("common.button.copy"), "複製");
    assert_eq!(t.locale_code(), "zh-TW");
}

#[test]
fn translator_falls_back_to_en_when_zh_missing() {
    let b = bundles();
    let t = Translator::new(&b, Locale::ZhTw);
    assert_eq!(t.s("common.button.only_en"), "Only {who}");
}

#[test]
fn translator_missing_key_returns_bang_sentinel() {
    let b = bundles();
    let t = Translator::new(&b, Locale::En);
    let v = t.s("does.not.exist");
    assert_eq!(v, "!!does.not.exist!!");
}

#[test]
fn translator_fmt_substitutes_named_placeholders() {
    let b = bundles();
    let out = Translator::new(&b, Locale::En).fmt("does.not.exist", &[("name", "Alice")]);
    assert_eq!(out, "!!does.not.exist!!");
    let out = Translator::new(&b, Locale::En).fmt("common.button.only_en", &[("who", "Alice")]);
    assert_eq!(out, "Only Alice");
}

#[test]
fn translator_fmt_unknown_placeholder_left_literal() {
    let b = bundles();
    let out = Translator::new(&b, Locale::En).fmt("common.button.only_en", &[("name", "Alice")]);
    assert_eq!(out, "Only {who}");
}

#[test]
fn substitute_placeholders_preserves_chinese() {
    let out = substitute_placeholders("你好 {name}，歡迎使用 drust。", &[("name", "Kael")]);
    assert_eq!(out, "你好 Kael，歡迎使用 drust。");
}

#[test]
fn substitute_placeholders_unknown_placeholder_left_literal() {
    let out = substitute_placeholders("hi {who}, count {n}", &[("n", "3")]);
    assert_eq!(out, "hi {who}, count 3");
}

#[test]
fn substitute_placeholders_empty_braces_left_literal() {
    let out = substitute_placeholders("a {} b", &[]);
    assert_eq!(out, "a {} b");
}

#[test]
fn substitute_placeholders_unterminated_brace_passes_through() {
    let out = substitute_placeholders("oops {name no close", &[("name", "x")]);
    assert_eq!(out, "oops {name no close");
}

#[test]
fn what_is_put_in_is_not_read_again() {
    let out = substitute_placeholders("{a}{b}", &[("a", "{b}"), ("b", "B")]);
    assert_eq!(out, "{b}B");
}

#[test]
fn a_table_without_its_sentinel_is_refused() {
    let e = parse_toml("[a]\nb = \"c\"\n", Locale::En);
    assert!(matches!(e, Err(BundleError::NoSentinel)));
    let e = parse_toml("[_meta]\nsentinel = \"x\"\n[a]\nb = 3\n", Locale::En);
    assert!(matches!(e, Err(BundleError::NotText(k)) if k == "a.b"));
    let e = parse_toml("[_meta\n", Locale::En);
    assert!(matches!(e, Err(BundleError::Malformed)));
    let e = parse_toml("\"a.b\" = \"x\"\n[_meta]\nsentinel = \"x\"\n[a]\nb = \"y\"\n", Locale::En);
    assert!(matches!(e, Err(BundleError::Duplicate(k)) if k == "a.b"));
}

#[test]
fn an_empty_text_is_a_text() {
    let b = bundles();
    assert_eq!(Translator::new(&b, Locale::En).s("empty.text"), "");
}

#[test]
fn cookie_wins_over_header() {
    assert_eq!(resolve_locale(Some("en"), Some("zh-TW")), Locale::En);
}

#[test]
fn header_used_when_no_cookie() {
    assert_eq!(resolve_locale(None, Some("zh-TW")), Locale::ZhTw);
}

#[test]
fn permissive_zh_hant_tw_matches() {
    assert_eq!(resolve_locale(None, Some("zh-Hant-TW")), Locale::ZhTw);
}

#[test]
fn priority_list_picks_first_supported() {
    assert_eq!(resolve_locale(None, Some("ja-JP, zh-TW;q=0.8, en;q=0.5")), Locale::ZhTw);
}

#[test]
fn no_supported_tag_falls_back_to_en() {
    assert_eq!(resolve_locale(None, Some("ja-JP, fr-FR")), Locale::En);
}

#[test]
fn an_unknown_cookie_does_not_count() {
    assert_eq!(resolve_locale(Some("fr"), Some("zh-TW")), Locale::ZhTw);
    assert_eq!(resolve_locale(None, None), Locale::En);
}
