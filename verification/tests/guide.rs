use mgmt::docs::{arrange, html_escape, render_markdown, slugify, unique_slug, MdEvent, MdPiece};

#[test]
fn headings_become_anchors() {
    assert_eq!(slugify("Hello, World!"), "hello-world");
    assert_eq!(slugify("  v1.2 — Notes  "), "v1-2-—-notes");
    let mut used: Vec<(String, usize)> = Vec::new();
    let a = unique_slug("Same", &mut used);
    let b = unique_slug("same", &mut used);
    let c = unique_slug("SAME", &mut used);
    assert_eq!(a, "same");
    assert_ne!(a, b);
    assert_ne!(b, c);
    assert_ne!(a, c);
}

#[test]
fn elements_escape_three_characters() {
    assert_eq!(html_escape("<a & \"b\">"), "&lt;a &amp; \"b\"&gt;");
}

#[test]
fn a_heading_gets_an_anchor_and_an_entry() {
    let events = vec![
        MdEvent::HeadingStart,
        MdEvent::Text("One".to_string()),
        MdEvent::HeadingEnd(2),
        MdEvent::Other,
    ];
    let (pieces, nav) = arrange(&events);
    assert_eq!(nav.len(), 1);
    assert_eq!((nav[0].slug.as_str(), nav[0].text.as_str()), ("one", "One"));
    assert!(pieces.iter().any(|p| matches!(p, MdPiece::Html(h) if h.contains("id=\"one\""))));
    assert!(pieces.iter().any(|p| matches!(p, MdPiece::Keep(3))));
}

#[test]
fn a_page_is_rendered() {
    let (html, nav) = render_markdown("# Top\n\n## First\n\ntext *here* `code`\n\n## First\n");
    assert!(html.contains("<em>here</em>"));
    assert!(html.contains("<code>code</code>"));
    assert!(html.contains("id=\"first\""));
    assert!(nav.len() >= 2);
    let slugs: Vec<&str> = nav.iter().map(|n| n.slug.as_str()).collect();
    let mut once = slugs.clone();
    once.dedup();
    assert_eq!(slugs, once);
}

#[test]
fn a_diagram_is_kept_as_text() {
    let (html, _) = render_markdown("```mermaid\na --> <b>\n```\n");
    assert!(html.contains("mermaid"));
    assert!(html.contains("a --&gt; &lt;b&gt;"));
    let (code, _) = render_markdown("```rust\nfn x() {}\n```\n");
    assert!(code.contains("<pre><code class=\"language-rust\">"));
    let (table, _) = render_markdown("| a | b |\n|---|---|\n| 1 | 2 |\n");
    assert!(table.contains("<table>"));
}
