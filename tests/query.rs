use gadget::query::{get_attr, get_name, get_text_contents, query, query_path, swap_children_at, Node, Step};
use gadget::rewrite::parse_legacy_html;

const TEST_HTML: &str = r#"
        <html>
            <head>
                <meta http-equiv="Content-Type" value="Unicode" />
                <title>Foo</title>
            </head>
        </html>
    "#;

fn el(tag: &str, attrs: &[(&str, &str)], children: Vec<Node>) -> Node {
    Node {
        tag: Some(tag.to_string()),
        attrs: attrs.iter().map(|(k, v)| (k.to_string(), v.to_string())).collect(),
        children,
        text: None,
    }
}

fn text(t: &str) -> Node {
    Node { tag: None, attrs: Vec::new(), children: Vec::new(), text: Some(t.to_string()) }
}

fn tag(t: &str) -> Step {
    Step::Tag(t.to_string())
}

#[test]
fn test_macro_compiles_html5ever() {
    let dom = parse_legacy_html(TEST_HTML);
    assert!(dom.tag.is_none() && dom.text.is_none());

    query(&dom, &vec![Step::Child, tag("html"), Step::Child, tag("head")]).unwrap();
    let title = query(&dom, &vec![Step::Child, tag("html"), Step::Child, tag("head"), Step::Child, tag("title")]).unwrap();
    assert_eq!(get_text_contents(title), Some("Foo".to_string()));
    query(
        &dom,
        &vec![
            Step::Child,
            tag("html"),
            Step::Child,
            tag("head"),
            Step::Child,
            tag("meta"),
            Step::AttrIs("http-equiv".to_string(), "Content-Type".to_string()),
        ],
    )
    .unwrap();
    query(
        &dom,
        &vec![
            Step::Child,
            tag("html"),
            Step::Child,
            tag("head"),
            Step::Child,
            tag("meta"),
            Step::AttrIsNoCase("http-equiv".to_string(), "content-type".to_string()),
        ],
    )
    .unwrap();
}

#[test]
fn exact_attribute_match_is_case_sensitive() {
    let root = el("meta", &[("http-equiv", "Content-Type")], vec![]);
    let exact = vec![tag("meta"), Step::AttrIs("http-equiv".to_string(), "content-type".to_string())];
    assert!(query(&root, &exact).is_none());
    let loose = vec![tag("meta"), Step::AttrIsNoCase("http-equiv".to_string(), "content-type".to_string())];
    assert!(query(&root, &loose).is_some());
}

#[test]
fn query_backtracks_to_later_sibling() {
    let root = el(
        "root",
        &[],
        vec![el("a", &[("id", "first")], vec![el("c", &[], vec![])]), el("a", &[("id", "second")], vec![el("b", &[("id", "found")], vec![])])],
    );
    let q = vec![tag("root"), Step::Child, tag("a"), Step::Child, tag("b")];
    let b = query(&root, &q).unwrap();
    assert_eq!(get_attr(b, &"id".to_string()), Some(&"found".to_string()));
    assert_eq!(query_path(&root, &q), Some(vec![1, 0]));
}

#[test]
fn query_returns_first_match_in_document_order() {
    let root = el("r", &[], vec![el("x", &[("n", "1")], vec![]), el("x", &[("n", "2")], vec![])]);
    let q = vec![tag("r"), Step::Child, tag("x")];
    assert_eq!(query_path(&root, &q), Some(vec![0]));
}

#[test]
fn query_without_match_is_none() {
    let root = el("r", &[], vec![el("x", &[], vec![])]);
    assert!(query(&root, &vec![tag("r"), Step::Child, tag("y")]).is_none());
    assert!(query(&root, &vec![tag("q")]).is_none());
    let empty = query_path(&root, &vec![]);
    assert_eq!(empty, Some(vec![]));
}

#[test]
fn get_name_attr_and_text() {
    let n = el("p", &[("a", "1"), ("a", "2")], vec![text("he"), el("b", &[], vec![text("x")]), text("llo")]);
    assert_eq!(get_name(&n), Some(&"p".to_string()));
    assert_eq!(get_name(&text("t")), None);
    assert_eq!(get_attr(&n, &"a".to_string()), Some(&"1".to_string()));
    assert_eq!(get_attr(&n, &"z".to_string()), None);
    assert_eq!(get_text_contents(&n), Some("hello".to_string()));
    assert_eq!(get_text_contents(&el("p", &[], vec![el("b", &[], vec![])])), None);
}

#[test]
fn swap_children_replaces_only_the_target() {
    let mut root = el("r", &[], vec![el("a", &[], vec![text("old")]), el("b", &[], vec![])]);
    let old = swap_children_at(&mut root, &vec![0], vec![text("new1"), text("new2")]);
    assert_eq!(old.len(), 1);
    assert_eq!(old[0].text, Some("old".to_string()));
    assert_eq!(root.children[0].children.len(), 2);
    assert_eq!(root.children[0].children[1].text, Some("new2".to_string()));
    assert_eq!(root.children[1].tag, Some("b".to_string()));
    assert_eq!(root.children.len(), 2);
}
