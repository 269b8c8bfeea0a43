use mgmt::format::humanize_bytes;
use mgmt::script_json::{escape_json_for_script, json_for_script};
use mgmt::svg_charts::{
    horizontal_bars, no_data_svg, stacked_area_chart, xml_escape, TimeBucket, COLOR_2XX, COLOR_4XX, COLOR_5XX,
    VIEWBOX_W,
};

fn bucket(ts_unix: i64, count_2xx: u32, count_4xx: u32, count_5xx: u32) -> TimeBucket {
    TimeBucket { ts_unix, count_2xx, count_4xx, count_5xx }
}

/// A stream of numbers without much order.
fn shuffle(seed: &mut u64) -> u64 {
    *seed ^= *seed << 13;
    *seed ^= *seed >> 7;
    *seed ^= *seed << 17;
    *seed
}

#[test]
fn no_data_svg_contains_expected_marker() {
    let s = no_data_svg();
    assert!(s.contains("<svg"));
    assert!(s.contains("no data in this window"));
    assert!(s.contains(VIEWBOX_W.to_string().as_str()));
}

#[test]
fn stacked_area_chart_empty_renders_no_data_placeholder() {
    let svg = stacked_area_chart(&[]);
    assert!(svg.contains("no data"));
}

#[test]
fn stacked_area_chart_renders_three_paths() {
    let buckets = vec![bucket(0, 5, 2, 1), bucket(60, 3, 4, 0)];
    let svg = stacked_area_chart(&buckets);
    let path_count = svg.matches("<path").count();
    assert_eq!(path_count, 3, "expected 3 paths, got SVG:\n{svg}");
}

#[test]
fn stacked_area_chart_uses_status_colors() {
    let buckets = vec![bucket(0, 1, 1, 1)];
    let svg = stacked_area_chart(&buckets);
    assert!(svg.contains(COLOR_2XX), "2xx color missing");
    assert!(svg.contains(COLOR_4XX), "4xx color missing");
    assert!(svg.contains(COLOR_5XX), "5xx color missing");
}

#[test]
fn horizontal_bars_empty_renders_placeholder() {
    let svg = horizontal_bars(&[]);
    assert!(svg.contains("no data"));
}

#[test]
fn horizontal_bars_truncates_at_10() {
    let items: Vec<(String, u32)> = (0..15).map(|i| (format!("code-{i:02}"), 1)).collect();
    let svg = horizontal_bars(&items);
    assert!(svg.contains("+5 more not shown"), "expected truncation marker, got SVG:\n{svg}");
}

#[test]
fn a_bar_stands_for_each_of_the_first_ten() {
    for n in [1usize, 9, 10, 11, 25] {
        let items: Vec<(String, u32)> = (0..n).map(|i| (format!("<rect{i}"), i as u32)).collect();
        let svg = horizontal_bars(&items);
        assert_eq!(svg.matches("<rect").count(), n.min(10), "{n}");
        assert_eq!(svg.matches("<text").count(), 2 * n.min(10) + usize::from(n > 10), "{n}");
        assert_eq!(svg.contains("more not shown"), n > 10, "{n}");
    }
}

#[test]
fn what_is_not_shown_does_not_change_the_bars() {
    let mut items: Vec<(String, u32)> = (0..12).map(|i| (format!("c{i}"), 5 + i)).collect();
    let before = horizontal_bars(&items);
    items[10] = ("other".to_string(), 4_000_000);
    items[11].1 = 0;
    assert_eq!(horizontal_bars(&items), before);
}

#[test]
fn horizontal_bars_rect_widths_proportional() {
    let items = vec![("a".to_string(), 100), ("b".to_string(), 50)];
    let svg = horizontal_bars(&items);
    let mut widths: Vec<f64> = Vec::new();
    for cap in svg.split("<rect").skip(1) {
        let after = match cap.split_once(r#"width=""#) {
            Some(x) => x.1,
            None => continue,
        };
        let end = after.find('"').unwrap();
        let w: f64 = after[..end].parse().unwrap();
        widths.push(w);
    }
    assert_eq!(widths.len(), 2, "expected 2 rect widths, got {widths:?}");
    let ratio = widths[0] / widths[1];
    assert!((ratio - 2.0).abs() < 0.01, "expected ratio ~2.0, got {ratio} from widths {widths:?}");
}

/// The path of a layer, by floating point.
fn path_by_float(buckets: &[TimeBucket], top: fn(&TimeBucket) -> u32) -> String {
    let max: u32 = buckets.iter().map(|b| b.count_2xx + b.count_4xx + b.count_5xx).max().unwrap();
    let n = buckets.len();
    let x_at = |i: usize| (i as f64) * 800.0 / (n.saturating_sub(1).max(1) as f64);
    let mut d = String::from("M0,240 ");
    for (i, b) in buckets.iter().enumerate() {
        let h = (top(b) as f64) * (240.0 * 0.8) / (max as f64);
        d.push_str(&format!("L{:.2},{:.2} ", x_at(i), 240.0 - h));
    }
    d.push_str(&format!("L{:.2},240 Z", x_at(n - 1)));
    d
}

#[test]
fn charts_have_the_numbers_of_floating_point() {
    let mut seed = 0x9e3779b97f4a7c15u64;
    for round in 0..300usize {
        let n = 1 + round % 61;
        let cap = if round % 3 == 0 { 9 } else { 1_000_000_000 };
        let mut next = || (shuffle(&mut seed) % cap) as u32;
        let buckets: Vec<TimeBucket> =
            (0..n).map(|i| bucket(i as i64, next(), next(), next())).collect();
        if buckets.iter().all(|b| b.count_2xx + b.count_4xx + b.count_5xx == 0) {
            continue;
        }
        let svg = stacked_area_chart(&buckets);
        assert!(svg.contains(&path_by_float(&buckets, |b| b.count_2xx)));
        assert!(svg.contains(&path_by_float(&buckets, |b| b.count_2xx + b.count_4xx)));
        assert!(svg.contains(&path_by_float(&buckets, |b| b.count_2xx + b.count_4xx + b.count_5xx)));
    }
}

#[test]
fn bars_have_the_numbers_of_floating_point() {
    let mut seed = 0x2545f4914f6cdd1du64;
    for round in 0..300usize {
        let n = 1 + round % 14;
        let cap = if round % 3 == 0 { 7 } else { u32::MAX as u64 };
        let items: Vec<(String, u32)> =
            (0..n).map(|i| (format!("l{i}"), (shuffle(&mut seed) % cap) as u32)).collect();
        let svg = horizontal_bars(&items);
        let shown = &items[..n.min(10)];
        let max = shown.iter().map(|i| i.1).max().unwrap().max(1);
        let row_h = if n > 10 { 240.0 / 11.0 } else { 240.0 / n as f64 };
        let bar_h = row_h * 0.6;
        for (i, (_, count)) in shown.iter().enumerate() {
            let row_top = (i as f64) * row_h;
            let row_mid = row_top + row_h / 2.0;
            let bar_y = row_top + (row_h - bar_h) / 2.0;
            let bar_w = (*count as f64) / (max as f64) * 470.0;
            let rect =
                format!(r#"<rect x="250" y="{bar_y:.1}" width="{bar_w:.2}" height="{bar_h:.1}""#);
            assert!(svg.contains(&rect), "{rect} of {n} not in {svg}");
            assert!(svg.contains(&format!(r#"y="{row_mid:.1}""#)));
        }
    }
}

#[test]
fn labels_are_escaped() {
    assert_eq!(xml_escape("<a&'b\">"), "&lt;a&amp;&apos;b&quot;&gt;");
    let svg = horizontal_bars(&[("<x>".to_string(), 1)]);
    assert!(svg.contains("&lt;x&gt;"));
}

#[test]
fn humanize_bytes_unit_boundaries() {
    assert_eq!(humanize_bytes(0), "0 B");
    assert_eq!(humanize_bytes(512), "512 B");
    assert_eq!(humanize_bytes(1023), "1023 B");
    assert_eq!(humanize_bytes(1024), "1.0 KB");
    assert_eq!(humanize_bytes(1536), "1.5 KB");
    assert_eq!(humanize_bytes(2048), "2.0 KB");
    assert_eq!(humanize_bytes(2_097_152), "2.0 MB");
    assert_eq!(humanize_bytes(5 * 1024 * 1024), "5.0 MB");
    assert_eq!(humanize_bytes(2_147_483_648), "2.00 GB");
}

#[test]
fn humanize_bytes_ranges() {
    assert_eq!(humanize_bytes(0), "0 B");
    assert_eq!(humanize_bytes(512), "512 B");
    assert_eq!(humanize_bytes(1536), "1.5 KB");
    assert_eq!(humanize_bytes(5 * 1024 * 1024), "5.0 MB");
}

#[test]
fn sizes_are_rounded_as_floating_point_is() {
    let by_float = |n: u64| {
        let f = n as f64;
        if n < 1 << 10 {
            format!("{n} B")
        } else if n < 1 << 20 {
            format!("{:.1} KB", f / 1024.0)
        } else if n < 1 << 30 {
            format!("{:.1} MB", f / 1_048_576.0)
        } else {
            format!("{:.2} GB", f / 1_073_741_824.0)
        }
    };
    for n in 0..3000u64 {
        assert_eq!(humanize_bytes(n), by_float(n));
        assert_eq!(humanize_bytes(n * 349_525 + 7), by_float(n * 349_525 + 7));
    }
    for k in 0..64 {
        let n = 1u64 << k;
        for m in [n, n - 1, n + n / 3, n + n / 2 + 1] {
            assert_eq!(humanize_bytes(m), by_float(m), "{m}");
        }
    }
    assert_eq!(humanize_bytes(u64::MAX), by_float(u64::MAX));
    let mut seed = 88172645463325252u64;
    for _ in 0..5000 {
        let n = shuffle(&mut seed);
        assert_eq!(humanize_bytes(n), by_float(n), "{n}");
        assert_eq!(humanize_bytes(n >> 20), by_float(n >> 20));
    }
}

#[test]
fn escapes_script_closer_and_comment_open() {
    let safe = escape_json_for_script(r#"</script><!--x--></SCRIPT>"#);
    assert!(!safe.contains("</"), "raw `</` must be gone: {safe}");
    assert!(!safe.contains("<!--"), "raw `<!--` must be gone: {safe}");
    assert!(safe.contains("<\\/script>"), "closer must become <\\/script>: {safe}");
    assert!(safe.contains("<\\/SCRIPT>"), "closer is case-insensitive: {safe}");
}

#[test]
fn escapes_line_and_paragraph_separators() {
    let safe = escape_json_for_script("a\u{2028}b\u{2029}c");
    assert!(!safe.contains('\u{2028}'), "U+2028 must be gone: {safe:?}");
    assert!(!safe.contains('\u{2029}'), "U+2029 must be gone: {safe:?}");
    assert!(safe.contains("\\u2028") && safe.contains("\\u2029"), "got: {safe:?}");
}

#[test]
fn json_for_script_neutralizes_hostile_field_description() {
    let mut field = serde_json::Map::new();
    field.insert(
        "description".to_string(),
        serde_json::Value::String("</script><img src=x onerror=alert(1)>".to_string()),
    );
    let fields = vec![serde_json::Value::Object(field)];
    let out = json_for_script(serde_json::to_string(&fields).ok());
    assert!(!out.contains("</script>"), "live closer leaked: {out}");
    assert!(out.contains("<\\/script>"), "closer not escaped: {out}");
    let parsed: serde_json::Value = serde_json::from_str(&out).unwrap();
    assert_eq!(parsed[0]["description"], "</script><img src=x onerror=alert(1)>");
}

#[test]
fn json_for_script_serialize_failure_yields_valid_js_literal() {
    let mut object = serde_json::Map::new();
    object.insert("ok".to_string(), serde_json::Value::Bool(true));
    let json = serde_json::to_string(&serde_json::Value::Object(object)).ok();
    assert_eq!(json_for_script(json), r#"{"ok":true}"#);
    assert_eq!(json_for_script(None), "null");
}

#[test]
fn escaped_json_reads_as_before() {
    for text in ["<!-- x -->", "</script><!--", "a\u{2028}b\u{2029}", "\\</ \\\\ \"<!--\"", "</</"] {
        let json = serde_json::to_string(text).unwrap();
        let safe = escape_json_for_script(&json);
        assert!(!safe.contains("<!--") && !safe.contains("</"));
        let back: String = serde_json::from_str(&safe).unwrap();
        assert_eq!(back, text);
    }
}
