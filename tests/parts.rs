use axonote::compile::{parse_attributes, NodeMeta};
use axonote::def::{Ext, MdNode, TypedNode, Entry};
use axonote::utils::{canonicalize_id, extract_links_with_prefix};

fn text(s: &str) -> MdNode {
    MdNode::Text(s.to_string())
}

fn link(url: &str, title: Option<&str>) -> MdNode {
    MdNode::Link { title: title.map(|t| t.to_string()), url: url.to_string() }
}

#[test]
fn canonicalize_ignores_case_and_whitespace() {
    assert_eq!(canonicalize_id("My  Heading\n"), canonicalize_id("my-heading"));
    assert_eq!(canonicalize_id("my-heading"), "my-heading");
}

#[test]
fn canonicalize_twice_is_once() {
    for s in ["My  Heading\n", "  Hello World  ", "A\r\nB", "\tTabbed\ttext ", "ÄÖÜ Straße", ""] {
        let once = canonicalize_id(s);
        assert_eq!(canonicalize_id(&once), once);
    }
}

#[test]
fn canonicalize_exact_values() {
    assert_eq!(canonicalize_id("  Hello World  "), "hello-world");
    assert_eq!(canonicalize_id("A\r\nB"), "a-b");
    assert_eq!(canonicalize_id("One Two  Three"), "one-two-three");
    assert_eq!(canonicalize_id("ÄB"), "äb");
    assert_eq!(canonicalize_id("   "), "");
    assert_eq!(canonicalize_id(""), "");
}

#[test]
fn extract_keeps_order_and_prefix() {
    let para = MdNode::Paragraph(vec![
        text("See "),
        link("#b", None),
        link("^key", None),
        text(" and "),
        link("#c", Some("C")),
    ]);
    let found = extract_links_with_prefix(&para, "#").unwrap();
    assert_eq!(found.len(), 2);
    assert_eq!(*found[0], link("#b", None));
    assert_eq!(*found[1], link("#c", Some("C")));
    let cites = extract_links_with_prefix(&para, "^").unwrap();
    assert_eq!(cites.len(), 1);
    assert!(extract_links_with_prefix(&para, "http").is_none());
}

#[test]
fn extract_without_links_is_none() {
    let para = MdNode::Paragraph(vec![text("plain")]);
    assert!(extract_links_with_prefix(&para, "#").is_none());
    let not_para = MdNode::List(vec![link("#b", None)]);
    assert!(extract_links_with_prefix(&not_para, "#").is_none());
}

#[test]
fn classify_leaves() {
    assert_eq!(TypedNode::node_transform(Ext::M(&text("hi"))), TypedNode::Text("hi".to_string()));
    assert_eq!(
        TypedNode::node_transform(Ext::M(&MdNode::Math("x^2".to_string()))),
        TypedNode::Formula("x^2".to_string())
    );
    assert_eq!(
        TypedNode::node_transform(Ext::M(&MdNode::Image {
            title: Some("t".to_string()),
            url: "a.png".to_string()
        })),
        TypedNode::Image { title: Some("t".to_string()), url: "a.png".to_string() }
    );
    assert_eq!(
        TypedNode::node_transform(Ext::M(&link("http://x", None))),
        TypedNode::Link { title: None, url: "http://x".to_string() }
    );
    assert_eq!(
        TypedNode::node_transform(Ext::M(&MdNode::Code {
            lang: Some("rust".to_string()),
            value: "fn f() {}".to_string()
        })),
        TypedNode::CodeBlock { lang: Some("rust".to_string()), code: "fn f() {}".to_string() }
    );
}

#[test]
fn classify_paragraph_takes_its_text() {
    let para = MdNode::Paragraph(vec![text("One "), link("http://x", None), text("two")]);
    assert_eq!(TypedNode::node_transform(Ext::M(&para)), TypedNode::Text("One two".to_string()));
}

#[test]
fn classify_list_uses_first_child_of_each_item() {
    let list = MdNode::List(vec![
        MdNode::ListItem(vec![text("a"), text("ignored")]),
        MdNode::ListItem(vec![MdNode::Math("m".to_string())]),
        MdNode::ListItem(vec![]),
    ]);
    assert_eq!(
        TypedNode::node_transform(Ext::M(&list)),
        TypedNode::List(vec![
            TypedNode::Text("a".to_string()),
            TypedNode::Formula("m".to_string()),
            TypedNode::Text("Unsupported node type".to_string()),
        ])
    );
}

#[test]
fn classify_unknown_kind_degrades() {
    assert_eq!(
        TypedNode::node_transform(Ext::M(&MdNode::Other("Table".to_string()))),
        TypedNode::Text("Unsupported node type".to_string())
    );
}

#[test]
fn classify_passes_resolved_payload() {
    let entry = Entry { key: "k".to_string(), author: None, title: None, year: None, doi: None };
    assert_eq!(
        TypedNode::node_transform(Ext::Typed(TypedNode::Bibliography(entry.clone()))),
        TypedNode::Bibliography(entry)
    );
}

#[test]
fn node_meta_from_heading() {
    let m = NodeMeta::new("My Heading".to_string());
    assert_eq!(m.original_text, "My Heading");
    assert_eq!(m.id, "my-heading");
    assert_eq!(m.attributes, parse_attributes("My Heading"));
    assert!(m.attributes.explicit_id.is_none());
    assert!(m.attributes.classes.is_empty());
    assert!(m.attributes.key_value_pairs.is_empty());
}

#[test]
fn default_payload_is_empty_text() {
    assert_eq!(TypedNode::default(), TypedNode::Text(String::new()));
}

#[test]
fn canonicalize_ascii_case_variants_agree() {
    let s = "Mixed Case  Heading";
    assert_eq!(canonicalize_id(&s.to_ascii_uppercase()), canonicalize_id(s));
    assert_eq!(canonicalize_id(&s.to_ascii_lowercase()), canonicalize_id(s));
    assert_eq!(canonicalize_id(s), "mixed-case-heading");
}

#[test]
fn canonicalize_run_between_words_is_one_dash() {
    assert_eq!(canonicalize_id("Alpha \r\n  Beta"), "alpha-beta");
    assert_eq!(
        canonicalize_id("Alpha \n Beta"),
        format!("{}-{}", canonicalize_id("Alpha"), canonicalize_id("Beta"))
    );
}
