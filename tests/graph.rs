use axonote::compile::{compile, referenced_files, AxonoteGraph, BuildError};
use axonote::def::{Entry, MdNode, TypedNode};

fn text(s: &str) -> MdNode {
    MdNode::Text(s.to_string())
}

fn h1(s: &str) -> MdNode {
    MdNode::Heading { depth: 1, children: vec![text(s)] }
}

fn link(url: &str, title: Option<&str>) -> MdNode {
    MdNode::Link { title: title.map(|t| t.to_string()), url: url.to_string() }
}

fn para(children: Vec<MdNode>) -> MdNode {
    MdNode::Paragraph(children)
}

fn code(s: &str) -> MdNode {
    MdNode::Code { lang: None, value: s.to_string() }
}

fn no_files() -> Vec<(String, String)> {
    Vec::new()
}

fn build(children: Vec<MdNode>, files: &Vec<(String, String)>) -> Result<AxonoteGraph, BuildError> {
    compile(&MdNode::Root(children), files)
}

const BIB: &str = "@article{key1,\n  author = {Doe, John and Roe, Jane},\n  title = {A Title},\n  year = {2020},\n  doi = {10.1000/xyz},\n}\n";

fn bib_files() -> Vec<(String, String)> {
    vec![("refs.bib".to_string(), BIB.to_string())]
}

#[test]
fn two_headings_and_one_link() {
    // # A\n\nSee [link](#b).\n\n# B\n
    let doc = vec![h1("A"), para(vec![text("See "), link("#b", None), text(".")]), h1("B")];
    let g = build(doc, &no_files()).unwrap();
    assert_eq!(g.nodes.len(), 2);
    assert_eq!(g.nodes[0].id, "a");
    assert_eq!(g.nodes[1].id, "b");
    assert_eq!(g.nodes[0].title, Some("A".to_string()));
    assert_eq!(g.nodes[0].raw, TypedNode::Text("A".to_string()));
    assert!(g.nodes[0].position.is_none());
    assert_eq!(g.edges.len(), 1);
    assert_eq!(g.edges[0].id, 0);
    assert_eq!(g.edges[0].source_id, "a");
    assert_eq!(g.edges[0].target_id, "b");
    assert_eq!(g.edges[0].label, None);
    assert!(g.meta.is_none());
}

#[test]
fn citation_resolves_to_entry() {
    let doc = vec![
        MdNode::Yaml("bibliography: refs.bib".to_string()),
        h1("A"),
        para(vec![link("^key1", None)]),
    ];
    let g = build(doc, &bib_files()).unwrap();
    assert_eq!(g.nodes.len(), 1);
    assert_eq!(g.nodes[0].id, "a");
    assert_eq!(
        g.nodes[0].raw,
        TypedNode::Bibliography(Entry {
            key: "key1".to_string(),
            author: Some("DoeRoe".to_string()),
            title: Some("A Title".to_string()),
            year: Some("2020".to_string()),
            doi: Some("10.1000/xyz".to_string()),
        })
    );
    assert!(g.bibliography.is_some());
}

#[test]
fn citation_of_missing_key_fails() {
    let doc = vec![
        MdNode::Yaml("bibliography: refs.bib".to_string()),
        h1("A"),
        para(vec![link("^key2", None)]),
    ];
    assert_eq!(build(doc, &bib_files()).err(), Some(BuildError::EntryNotFound("^key2".to_string())));
}

#[test]
fn citation_without_bibliography_fails() {
    let doc = vec![h1("A"), para(vec![link("^key1", None)])];
    assert_eq!(build(doc, &no_files()).err(), Some(BuildError::NoBibliography));
}

#[test]
fn two_citations_in_a_paragraph_fail() {
    let doc = vec![
        MdNode::Yaml("bibliography: refs.bib".to_string()),
        h1("A"),
        para(vec![link("^key1", None), link("^key1", None)]),
    ];
    assert_eq!(build(doc, &bib_files()).err(), Some(BuildError::SeveralCitations));
}

#[test]
fn heading_with_image_fails() {
    let doc = vec![MdNode::Heading {
        depth: 1,
        children: vec![MdNode::Image { title: None, url: "x.png".to_string() }],
    }];
    assert_eq!(build(doc, &no_files()).err(), Some(BuildError::MalformedHeading));
    let empty = vec![MdNode::Heading { depth: 1, children: vec![] }];
    assert_eq!(build(empty, &no_files()).err(), Some(BuildError::MalformedHeading));
}

#[test]
fn document_without_heading_fails() {
    assert_eq!(build(vec![], &no_files()).err(), Some(BuildError::NoHeading));
    let doc = vec![code("x"), MdNode::Heading { depth: 2, children: vec![text("Sub")] }];
    assert_eq!(build(doc, &no_files()).err(), Some(BuildError::NoHeading));
}

#[test]
fn node_with_two_contents_fails() {
    let doc = vec![h1("A"), code("x"), MdNode::Math("y".to_string()), h1("B")];
    assert_eq!(build(doc, &no_files()).err(), Some(BuildError::SeveralContents));
    let before = vec![code("x"), h1("A"), para(vec![text("more")])];
    assert_eq!(build(before, &no_files()).err(), Some(BuildError::SeveralContents));
}

#[test]
fn content_before_first_heading_joins_it() {
    let doc = vec![code("x"), h1("A")];
    let g = build(doc, &no_files()).unwrap();
    assert_eq!(g.nodes[0].raw, TypedNode::CodeBlock { lang: None, code: "x".to_string() });
}

#[test]
fn one_node_per_heading() {
    let doc = vec![
        h1("One"),
        para(vec![text("first")]),
        MdNode::Heading { depth: 2, children: vec![text("Sub")] },
        h1("Two Words"),
        MdNode::Other("ThematicBreak".to_string()),
        h1("Three"),
        MdNode::List(vec![MdNode::ListItem(vec![text("i")])]),
    ];
    let g = build(doc, &no_files()).unwrap();
    assert_eq!(g.nodes.len(), 3);
    assert_eq!(g.nodes[0].raw, TypedNode::Text("first".to_string()));
    assert_eq!(g.nodes[1].id, "two-words");
    assert_eq!(g.nodes[1].raw, TypedNode::Text("Two Words".to_string()));
    assert_eq!(g.nodes[2].raw, TypedNode::List(vec![TypedNode::Text("i".to_string())]));
}

#[test]
fn edges_follow_links_in_order() {
    let doc = vec![
        h1("A"),
        para(vec![link("#B", Some("to b")), link("#My  Heading", None)]),
        h1("B"),
        para(vec![link("#a", None)]),
    ];
    let g = build(doc, &no_files()).unwrap();
    assert_eq!(g.edges.len(), 3);
    assert_eq!((g.edges[0].id, g.edges[0].source_id.as_str(), g.edges[0].target_id.as_str()), (0, "a", "b"));
    assert_eq!(g.edges[0].label, Some("to b".to_string()));
    assert_eq!((g.edges[1].id, g.edges[1].source_id.as_str(), g.edges[1].target_id.as_str()), (1, "a", "my-heading"));
    assert_eq!((g.edges[2].id, g.edges[2].source_id.as_str(), g.edges[2].target_id.as_str()), (2, "b", "a"));
}

#[test]
fn links_before_heading_fail() {
    let doc = vec![para(vec![link("#a", None)]), h1("A")];
    assert_eq!(build(doc, &no_files()).err(), Some(BuildError::LinksWithoutHeading));
}

#[test]
fn front_matter_fills_metadata() {
    let doc = vec![
        MdNode::Yaml("title: Notes\nauthor: Ann\ndate: 2024-01-01\ncss: style.css\nother: 1".to_string()),
        h1("A"),
    ];
    let files = vec![("style.css".to_string(), "body {}".to_string())];
    let g = build(doc, &files).unwrap();
    let m = g.meta.unwrap();
    assert_eq!(m.title, Some("Notes".to_string()));
    assert_eq!(m.author, Some("Ann".to_string()));
    assert_eq!(m.date, Some("2024-01-01".to_string()));
    assert_eq!(m.css, Some("body {}".to_string()));
    assert!(g.bibliography.is_none());
}

#[test]
fn unreadable_style_sheet_fails() {
    let doc = vec![MdNode::Yaml("css: style.css".to_string()), h1("A")];
    assert_eq!(build(doc, &no_files()).err(), Some(BuildError::Unreadable("style.css".to_string())));
}

#[test]
fn unreadable_bibliography_fails() {
    let doc = vec![MdNode::Yaml("bibliography: refs.bib".to_string()), h1("A")];
    assert_eq!(build(doc, &no_files()).err(), Some(BuildError::Unreadable("refs.bib".to_string())));
}

#[test]
fn malformed_front_matter_fails() {
    let doc = vec![MdNode::Yaml("title: [unclosed".to_string()), h1("A")];
    assert_eq!(build(doc, &no_files()).err(), Some(BuildError::MalformedFrontMatter));
    let empty = vec![MdNode::Yaml(String::new()), h1("A")];
    assert_eq!(build(empty, &no_files()).err(), Some(BuildError::MalformedFrontMatter));
}

#[test]
fn malformed_bibliography_fails() {
    let doc = vec![MdNode::Yaml("bibliography: refs.bib".to_string()), h1("A")];
    let files = vec![("refs.bib".to_string(), "@article{key1, title = {unclosed".to_string())];
    assert_eq!(build(doc, &files).err(), Some(BuildError::MalformedBibliography));
}

#[test]
fn non_root_is_refused() {
    assert_eq!(compile(&h1("A"), &no_files()).err(), Some(BuildError::NotARoot));
}

#[test]
fn building_twice_gives_the_same_graph() {
    let doc = || {
        vec![
            MdNode::Yaml("title: T".to_string()),
            h1("A"),
            para(vec![link("#b", Some("l"))]),
            code("c"),
            h1("B"),
        ]
    };
    let g1 = build(doc(), &no_files()).unwrap();
    let g2 = build(doc(), &no_files()).unwrap();
    assert_eq!(g1.nodes, g2.nodes);
    assert_eq!(g1.edges, g2.edges);
    assert_eq!(g1.meta, g2.meta);
}

#[test]
fn referenced_files_lists_front_matter_paths() {
    let root = MdNode::Root(vec![
        MdNode::Yaml("bibliography: refs.bib\ncss: style.css".to_string()),
        h1("A"),
    ]);
    assert_eq!(referenced_files(&root), vec!["style.css".to_string(), "refs.bib".to_string()]);
    assert!(referenced_files(&h1("A")).is_empty());
}

#[test]
fn headings_with_the_same_id_fail() {
    let doc = vec![h1("A"), h1("A")];
    assert_eq!(build(doc, &no_files()).err(), Some(BuildError::DuplicateId));
    let doc = vec![h1("My Heading"), code("x"), h1("my  heading")];
    assert_eq!(build(doc, &no_files()).err(), Some(BuildError::DuplicateId));
}

#[test]
fn nodes_have_default_style_and_no_position() {
    let g = build(vec![h1("A"), h1("B")], &no_files()).unwrap();
    for n in &g.nodes {
        assert!(n.position.is_none());
        assert!(n.style.explicit_id.is_none());
        assert!(n.style.classes.is_empty());
        assert!(n.style.key_value_pairs.is_empty());
    }
    assert_eq!(g.nodes[1].raw, TypedNode::Text("B".to_string()));
}

#[test]
fn later_bibliography_replaces_earlier() {
    let other = "@book{key9,\n  title = {Other},\n}\n";
    let files = vec![
        ("refs.bib".to_string(), BIB.to_string()),
        ("other.bib".to_string(), other.to_string()),
    ];
    let doc = vec![
        MdNode::Yaml("bibliography: refs.bib".to_string()),
        MdNode::Yaml("bibliography: other.bib".to_string()),
        h1("A"),
        para(vec![link("^key1", None)]),
    ];
    assert_eq!(build(doc, &files).err(), Some(BuildError::EntryNotFound("^key1".to_string())));
}

#[test]
fn entry_lookup_without_bibliography_fails_for_any_target() {
    let g = AxonoteGraph::new();
    assert_eq!(g.get_entry("").err(), Some(BuildError::NoBibliography));
    assert_eq!(g.get_entry("^key1").err(), Some(BuildError::NoBibliography));
}

#[test]
fn entry_lookup_with_empty_target_fails() {
    let doc = vec![MdNode::Yaml("bibliography: refs.bib".to_string()), h1("A")];
    let g = build(doc, &bib_files()).unwrap();
    assert_eq!(g.get_entry("").err(), Some(BuildError::EntryNotFound(String::new())));
    assert_eq!(g.get_entry("^key1").unwrap().key, "key1");
}
