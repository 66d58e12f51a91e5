use gadget::decode::DecodeError;
use gadget::html::serialize;
use gadget::query::{query, Node, Step};
use gadget::rewrite::{
    inject_polyfill, parse_legacy_html, rewrite_head, update_machine_stats, script_node, stats_json, substitute_legacy, MachineStats,
    RewriteError,
};

fn el(tag: &str, attrs: &[(&str, &str)], children: Vec<Node>) -> Node {
    Node {
        tag: Some(tag.to_string()),
        attrs: attrs.iter().map(|(k, v)| (k.to_string(), v.to_string())).collect(),
        children,
        text: None,
    }
}

fn text(t: &str) -> Node {
    Node { tag: None, attrs: Vec::new(), children: Vec::new(), text: Some(t.to_string()) }
}

fn root(children: Vec<Node>) -> Node {
    Node { tag: None, attrs: Vec::new(), children, text: None }
}

fn stats() -> MachineStats {
    MachineStats { cpu_usage: vec!["12.5".to_string(), "3".to_string()], total_memory: 8_000_000_000, available_memory: 2_500_000 }
}

const SCRIPT_OPEN: &str = r#"<script type="text/javascript" language="javascript">"#;

fn rewrite(raw: &[u8], shim: &str, stats: &MachineStats) -> Result<String, RewriteError> {
    inject_polyfill(raw, shim, stats).map(|b| String::from_utf8(b).unwrap())
}

fn head_of(doc: &Node) -> &Node {
    query(doc, &vec![Step::Child, Step::Tag("html".to_string()), Step::Child, Step::Tag("head".to_string())]).unwrap()
}

#[test]
fn stats_object_as_json() {
    assert_eq!(
        stats_json(&stats()),
        r#"{"CPUs":[{"usagePercentage":12.5},{"usagePercentage":3}],"availableMemory":2,"totalMemory":8000}"#
    );
    let none = MachineStats { cpu_usage: vec![], total_memory: 999_999, available_memory: 0 };
    assert_eq!(stats_json(&none), r#"{"CPUs":[],"availableMemory":0,"totalMemory":0}"#);
    let max = MachineStats { cpu_usage: vec!["0".to_string()], total_memory: u64::MAX, available_memory: 10_000_000 };
    assert_eq!(
        stats_json(&max),
        r#"{"CPUs":[{"usagePercentage":0}],"availableMemory":10,"totalMemory":18446744073709}"#
    );
}

#[test]
fn refresh_script_assigns_the_stats() {
    assert_eq!(
        update_machine_stats(&stats()),
        r#"window.System.Machine = {"CPUs":[{"usagePercentage":12.5},{"usagePercentage":3}],"availableMemory":2,"totalMemory":8000}"#
    );
}

#[test]
fn serialize_closes_every_element() {
    let doc = root(vec![el(
        "html",
        &[],
        vec![el("head", &[], vec![]), el("body", &[], vec![el("img", &[("src", "x")], vec![]), el("br", &[], vec![])])],
    )]);
    assert_eq!(serialize(&doc), r#"<html><head></head><body><img src="x"></img><br></br></body></html>"#);
}

#[test]
fn serialize_escapes_text_but_not_script() {
    let doc = root(vec![
        el("p", &[("title", "a\"b&c<d")], vec![text("1 < 2 & 3 > 2\u{a0}")]),
        el("script", &[], vec![text("if (a < b && c) {}")]),
    ]);
    assert_eq!(
        serialize(&doc),
        "<p title=\"a&quot;b&amp;c<d\">1 &lt; 2 &amp; 3 &gt; 2&nbsp;</p><script>if (a < b && c) {}</script>"
    );
}

#[test]
fn legacy_elements_become_img() {
    assert_eq!(
        substitute_legacy(r#"<g:image src="a"></g:image><g:background src="b"/></g:background>"#),
        r#"<img src="a"></img><img src="b"/></img>"#
    );
    assert_eq!(substitute_legacy("plain <g:text>"), "plain <g:text>");
}

#[test]
fn rewrite_makes_legacy_image_an_img() {
    let html = r#"<html><head><title>T</title></head><body><g:image src="x"/></body></html>"#;
    let out = rewrite(html.as_bytes(), "S", &stats()).unwrap();
    let expected = format!(
        "<html><head>{o}S</script>{o}window.System.Machine = {j};</script><title>T</title></head><body><img src=\"x\"></img></body></html>",
        o = SCRIPT_OPEN,
        j = stats_json(&stats())
    );
    assert_eq!(out, expected);
}

#[test]
fn rewrite_drops_content_type_meta_in_any_case() {
    let html = r#"<html><head><meta http-equiv="CONTENT-type" content="text/html; charset=utf-16"><meta http-equiv="Content-Type"><meta name="x"></head><body></body></html>"#;
    let out = rewrite(html.as_bytes(), "S", &stats()).unwrap();
    assert!(!out.to_lowercase().contains("content-type"));
    assert!(out.contains(r#"<meta name="x"></meta></head>"#));
}

#[test]
fn rewrite_decodes_utf16() {
    let html = "<html><head></head><body>ü</body></html>";
    let mut raw = vec![0xff, 0xfe];
    for u in html.encode_utf16() {
        raw.extend_from_slice(&u.to_le_bytes());
    }
    let out = rewrite(&raw, "S", &stats()).unwrap();
    assert!(out.ends_with("</head><body>ü</body></html>"));
    assert!(out.starts_with(&format!("<html><head>{}S</script>", SCRIPT_OPEN)));
}

#[test]
fn rewrite_fails_on_undecodable_bytes() {
    assert_eq!(rewrite(&[0xfe, 0xff, 0x00], "S", &stats()), Err(RewriteError::Decode(DecodeError::OddLength)));
    assert_eq!(rewrite(&[0xc3, 0x28], "S", &stats()), Err(RewriteError::Decode(DecodeError::InvalidUtf8)));
}

#[test]
fn head_gains_exactly_two_scripts_first() {
    let mut doc = parse_legacy_html("<html><head><title>T</title><link rel=\"a\"></head><body></body></html>");
    let before = head_of(&doc).children.len();
    rewrite_head(&mut doc, "S", "J").unwrap();
    let head = head_of(&doc);
    assert_eq!(head.children.len(), before + 2);
    assert_eq!(head.children[0].children[0].text, Some("S".to_string()));
    assert_eq!(head.children[1].children[0].text, Some("J".to_string()));
    assert_eq!(head.children[2].tag, Some("title".to_string()));
    assert_eq!(head.children[3].tag, Some("link".to_string()));
}

#[test]
fn rewrite_head_without_head_fails() {
    let mut doc = root(vec![el("html", &[], vec![el("body", &[], vec![])])]);
    assert_eq!(rewrite_head(&mut doc, "S", "J"), Err(RewriteError::MissingHead));
    assert_eq!(doc.children[0].children.len(), 1);
}

#[test]
fn script_node_holds_its_text() {
    let s = script_node("var a = 1;");
    assert_eq!(serialize(&s), format!("{}var a = 1;</script>", SCRIPT_OPEN));
}
