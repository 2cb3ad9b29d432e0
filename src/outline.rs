//! What a document's top-level elements amount to: its headings, the content
//! elements of each node, its structural links.
use vstd::prelude::*;
use crate::classify::classifies;
use biblatex::Bibliography;
use crate::compile::{AxonoteGraph, BuildError};
use crate::def::{opt_view, Edge, Ext, Metadata, MdNode, Node, TypedNode};
use crate::citation::entry_from;
use crate::external::{bib_entries, bib_source, front_matter_strings, RawEntryView};
use crate::utils::{canonical, links_with, para_children};

verus! {

/// `e` is the edge with sequence number `k` from `source` to the link target
/// `url` (marker included), labelled `label`.
pub open spec fn edge_is(e: Edge, k: int, source: Seq<char>, url: Seq<char>, label: Option<String>) -> bool {
    &&& e.id == k
    &&& e.source_id@ == source
    &&& e.target_id@ == canonical(url.drop_first())
    &&& e.label == label
}

/// A level-1 heading.
pub open spec fn is_heading1(n: MdNode) -> bool {
    n matches MdNode::Heading { depth, .. } && depth == 1
}

/// The text of a heading's first child, where that child is plain text.
pub open spec fn heading_text(n: MdNode) -> Seq<char> {
    match n {
        MdNode::Heading { children, .. } => if children@.len() > 0 {
            match children@[0] {
                MdNode::Text(v) => v@,
                _ => Seq::empty(),
            }
        } else {
            Seq::empty()
        },
        _ => Seq::empty(),
    }
}

/// The texts of the level-1 headings among `cs`, in order.
pub open spec fn heading_titles(cs: Seq<MdNode>) -> Seq<Seq<char>>
    decreases cs.len(),
{
    if cs.len() == 0 {
        Seq::empty()
    } else if is_heading1(cs.last()) {
        heading_titles(cs.drop_last()).push(heading_text(cs.last()))
    } else {
        heading_titles(cs.drop_last())
    }
}

/// The target of a link element.
pub open spec fn link_url(n: MdNode) -> Seq<char> {
    match n {
        MdNode::Link { url, .. } => url@,
        _ => Seq::empty(),
    }
}

/// The title of a link element.
pub open spec fn link_title(n: MdNode) -> Option<String> {
    match n {
        MdNode::Link { title, .. } => title,
        _ => None,
    }
}

/// The links of a paragraph that refer to another node.
pub open spec fn structural_links(n: MdNode) -> Seq<MdNode> {
    links_with(para_children(n), "#"@)
}

/// The links of a paragraph that cite a bibliography entry.
pub open spec fn citation_links(n: MdNode) -> Seq<MdNode> {
    links_with(para_children(n), "^"@)
}

/// An element that becomes content of the node it stands under.
pub open spec fn is_content(n: MdNode) -> bool {
    ||| n is Code
    ||| n is Math
    ||| n is Image
    ||| n is List
    ||| (n is Paragraph && structural_links(n).len() == 0)
}

/// The structural links among `cs`, each with the id of the heading it stands under.
pub open spec fn edge_sources(cs: Seq<MdNode>) -> Seq<(Seq<char>, MdNode)>
    decreases cs.len(),
{
    if cs.len() == 0 {
        Seq::empty()
    } else {
        let prev = edge_sources(cs.drop_last());
        let source = canonical(heading_titles(cs.drop_last()).last());
        prev + structural_links(cs.last()).map_values(|l: MdNode| (source, l))
    }
}

/// Two content elements among the first `n` of `cs` with no level-1 heading between them.
pub open spec fn crowded_before(cs: Seq<MdNode>, n: int) -> bool {
    exists|j: int, k: int|
        0 <= j < k < n && #[trigger] is_content(cs[j]) && #[trigger] is_content(cs[k]) && forall|
            m: int,
        |
            j < m < k ==> !is_heading1(#[trigger] cs[m])
}

/// Some node of the document would get two content elements.
pub open spec fn crowded(cs: Seq<MdNode>) -> bool {
    crowded_before(cs, cs.len() as int)
}

/// The content elements of a scanned document, by index, grouped by the node
/// they fall to: the groups of the nodes sealed so far, the group of the node
/// that is open (or of the first node, before any heading), and whether a
/// heading was seen.
pub ghost struct Grouping {
    pub sealed: Seq<Seq<int>>,
    pub current: Seq<int>,
    pub seen: bool,
}

pub open spec fn grouping(cs: Seq<MdNode>) -> Grouping
    decreases cs.len(),
{
    if cs.len() == 0 {
        Grouping { sealed: Seq::empty(), current: Seq::empty(), seen: false }
    } else {
        let g = grouping(cs.drop_last());
        let x = cs.last();
        if is_heading1(x) {
            if g.seen {
                Grouping { sealed: g.sealed.push(g.current), current: Seq::empty(), seen: true }
            } else {
                Grouping { seen: true, ..g }
            }
        } else if is_content(x) {
            Grouping { current: g.current.push(cs.len() - 1), ..g }
        } else {
            g
        }
    }
}

/// The indices of the content elements of each node of a document, in order.
pub open spec fn node_groups(cs: Seq<MdNode>) -> Seq<Seq<int>> {
    let g = grouping(cs);
    if g.seen {
        g.sealed.push(g.current)
    } else {
        g.sealed
    }
}

/// A paragraph that stands for one bibliography entry.
pub open spec fn is_citation(n: MdNode) -> bool {
    n is Paragraph && structural_links(n).len() == 0 && citation_links(n).len() == 1
}

/// The key that a citation paragraph cites.
pub open spec fn cite_key(n: MdNode) -> Seq<char> {
    link_url(citation_links(n)[0]).drop_first()
}

/// The bibliography in force after the elements `cs`: that of the last front
/// matter whose bibliography loads.
pub open spec fn bib_after(cs: Seq<MdNode>, files: Seq<(String, String)>) -> Option<
    Map<Seq<char>, RawEntryView>,
>
    decreases cs.len(),
{
    if cs.len() == 0 {
        None
    } else {
        let prev = bib_after(cs.drop_last(), files);
        match cs.last() {
            MdNode::Yaml(t) => match front_matter_strings(t@) {
                Some(ys) => bib_named(ys, files, prev),
                None => prev,
            },
            _ => prev,
        }
    }
}

/// The text of the last front-matter block among `cs`.
pub open spec fn last_front_matter(cs: Seq<MdNode>) -> Option<Seq<char>>
    decreases cs.len(),
{
    if cs.len() == 0 {
        None
    } else {
        match cs.last() {
            MdNode::Yaml(t) => Some(t@),
            _ => last_front_matter(cs.drop_last()),
        }
    }
}

/// `meta` is what the last front matter among `cs` gives; none without front matter.
pub open spec fn meta_follows(meta: Option<Metadata>, cs: Seq<MdNode>, files: Seq<(String, String)>) -> bool {
    match last_front_matter(cs) {
        None => meta is None,
        Some(t) => front_matter_strings(t) matches Some(ys) && meta matches Some(m) && meta_matches(
            m,
            ys,
            files,
        ),
    }
}

/// The element at `j` finds what it needs: front matter parses and names files
/// at hand, and a citation finds its entry in the bibliography then in force.
pub open spec fn resolvable_at(cs: Seq<MdNode>, files: Seq<(String, String)>, j: int) -> bool {
    &&& (cs[j] matches MdNode::Yaml(t) ==> (front_matter_strings(t@) matches Some(ys)
        && front_matter_ok(ys, files)))
    &&& (is_citation(cs[j]) ==> (bib_after(cs.take(j), files) matches Some(m) && m.contains_key(
        cite_key(cs[j]),
    )))
}

/// Every element of `cs` finds what it needs from `files`.
pub open spec fn resolvable(cs: Seq<MdNode>, files: Seq<(String, String)>) -> bool {
    forall|j: int| 0 <= j < cs.len() ==> #[trigger] resolvable_at(cs, files, j)
}

/// No two headings give the same id.
pub open spec fn distinct_ids(titles: Seq<Seq<char>>) -> bool {
    forall|a: int, b: int|
        #![trigger titles[a], titles[b]]
        0 <= a < b < titles.len() ==> canonical(titles[a]) != canonical(titles[b])
}

/// `raw` is the payload of a node titled `title` whose content elements are
/// those of `cs` at the indices `group`.
pub open spec fn content_is(
    cs: Seq<MdNode>,
    files: Seq<(String, String)>,
    group: Seq<int>,
    title: Seq<char>,
    raw: TypedNode,
) -> bool {
    &&& group.len() <= 1
    &&& group.len() == 0 ==> (raw matches TypedNode::Text(t) && t@ == title)
    &&& group.len() == 1 ==> if is_citation(cs[group[0]]) {
        (bib_after(cs.take(group[0]), files) matches Some(m) && raw matches TypedNode::Bibliography(
            e,
        ) && entry_from(e, m[cite_key(cs[group[0]])]))
    } else {
        classifies(cs[group[0]], raw)
    }
}

/// The buffered item `e` stands for the content element at `j`.
pub open spec fn item_for(e: Ext, cs: Seq<MdNode>, files: Seq<(String, String)>, j: int) -> bool {
    match e {
        Ext::M(n) => *n == cs[j] && !is_citation(cs[j]),
        Ext::Typed(t) => is_citation(cs[j]) && (bib_after(cs.take(j), files) matches Some(m)
            && t matches TypedNode::Bibliography(en) && entry_from(en, m[cite_key(cs[j])])),
    }
}

/// The payloads of `nodes` follow the content `groups` of `cs`.
pub open spec fn contents_follow(
    nodes: Seq<Node>,
    cs: Seq<MdNode>,
    files: Seq<(String, String)>,
    groups: Seq<Seq<int>>,
    titles: Seq<Seq<char>>,
) -> bool {
    forall|k: int|
        0 <= k < nodes.len() ==> content_is(cs, files, groups[k], titles[k], (#[trigger] nodes[k]).raw)
}

/// The nodes of `g` stand for the headings `titles`, in order.
pub open spec fn nodes_follow(nodes: Seq<Node>, titles: Seq<Seq<char>>) -> bool {
    &&& nodes.len() == titles.len()
    &&& forall|k: int|
        0 <= k < nodes.len() ==> opt_view((#[trigger] nodes[k]).title) == Some(titles[k])
            && nodes[k].id@ == canonical(titles[k]) && nodes[k].position is None
            && nodes[k].style.is_empty()
}

/// The edges of `g` are the structural links `links`, numbered in order.
pub open spec fn edges_follow(edges: Seq<Edge>, links: Seq<(Seq<char>, MdNode)>) -> bool {
    &&& edges.len() == links.len()
    &&& forall|k: int|
        0 <= k < edges.len() ==> edge_is(
            #[trigger] edges[k],
            k,
            links[k].0,
            link_url(links[k].1),
            link_title(links[k].1),
        )
}

/// The contents of the file at `path` among `files` (the first one listed).
pub open spec fn file_in(files: Seq<(String, String)>, path: Seq<char>) -> Option<Seq<char>>
    decreases files.len(),
{
    if files.len() == 0 {
        None
    } else {
        match file_in(files.drop_last(), path) {
            Some(c) => Some(c),
            None => if files.last().0@ == path {
                Some(files.last().1@)
            } else {
                None
            },
        }
    }
}

/// The value under `key`, if any.
pub open spec fn lookup(m: Map<Seq<char>, Seq<char>>, key: Seq<char>) -> Option<Seq<char>> {
    if m.contains_key(key) {
        Some(m[key])
    } else {
        None
    }
}

/// A level-1 heading whose first child is plain text.
pub open spec fn heading_ok(n: MdNode) -> bool {
    n matches MdNode::Heading { children, .. } && children@.len() > 0 && children@[0] is Text
}

/// The element at `j` of `cs` obeys the rules of the document model on its own:
/// a level-1 heading starts with plain text, structural links follow a heading,
/// and a paragraph cites at most one entry.
pub open spec fn element_ok(cs: Seq<MdNode>, j: int) -> bool {
    &&& is_heading1(cs[j]) ==> heading_ok(cs[j])
    &&& structural_links(cs[j]).len() > 0 ==> exists|m: int| 0 <= m < j && is_heading1(#[trigger] cs[m])
    &&& structural_links(cs[j]).len() == 0 ==> citation_links(cs[j]).len() <= 1
}

/// A document that the graph model can hold: it has a level-1 heading, each
/// node gets at most one content element, and every element obeys the rules.
pub open spec fn well_formed(cs: Seq<MdNode>) -> bool {
    &&& heading_titles(cs).len() > 0
    &&& distinct_ids(heading_titles(cs))
    &&& forall|k: int| 0 <= k < node_groups(cs).len() ==> (#[trigger] node_groups(cs)[k]).len() <= 1
    &&& forall|j: int| 0 <= j < cs.len() ==> #[trigger] element_ok(cs, j)
}

/// The headings of a prefix of a document come first among its headings.
pub proof fn lemma_titles_prefix(cs: Seq<MdNode>, n: int)
    requires
        0 <= n <= cs.len(),
    ensures
        heading_titles(cs.take(n)).len() <= heading_titles(cs).len(),
        forall|k: int|
            0 <= k < heading_titles(cs.take(n)).len() ==> #[trigger] heading_titles(cs.take(n))[k]
                == heading_titles(cs)[k],
    decreases cs.len(),
{
    if n == cs.len() {
        assert(cs.take(n) =~= cs);
    } else {
        assert(cs.drop_last().take(n) =~= cs.take(n));
        lemma_titles_prefix(cs.drop_last(), n);
    }
}

pub proof fn lemma_seen_iff_headings(cs: Seq<MdNode>)
    ensures
        grouping(cs).seen <==> heading_titles(cs).len() > 0,
    decreases cs.len(),
{
    if cs.len() > 0 {
        lemma_seen_iff_headings(cs.drop_last());
    }
}

/// Content gathered for a node stays with that node as the scan goes on.
pub proof fn lemma_group_lands(cs: Seq<MdNode>, i: int, n: int)
    requires
        0 <= i <= n <= cs.len(),
    ensures
        grouping(cs.take(n)).sealed.len() >= grouping(cs.take(i)).sealed.len(),
        grouping(cs.take(n)).sealed.len() > grouping(cs.take(i)).sealed.len() ==> grouping(
            cs.take(n),
        ).sealed[grouping(cs.take(i)).sealed.len() as int].len() >= grouping(
            cs.take(i),
        ).current.len(),
        grouping(cs.take(n)).sealed.len() == grouping(cs.take(i)).sealed.len() ==> grouping(
            cs.take(n),
        ).current.len() >= grouping(cs.take(i)).current.len(),
    decreases n - i,
{
    if n > i {
        lemma_group_lands(cs, i, n - 1);
        assert(cs.take(n).drop_last() =~= cs.take(n - 1));
        let a = grouping(cs.take(i));
        let b = grouping(cs.take(n - 1));
        let c = grouping(cs.take(n));
        if c.sealed.len() > b.sealed.len() {
            assert(c.sealed == b.sealed.push(b.current));
            if b.sealed.len() > a.sealed.len() {
                assert(c.sealed[a.sealed.len() as int] == b.sealed[a.sealed.len() as int]);
            }
        }
    }
}

/// A content element that meets another one gathered for the same node makes
/// the document ill-formed.
pub proof fn lemma_second_content(cs: Seq<MdNode>, i: int)
    requires
        0 <= i < cs.len(),
        is_content(cs[i]),
        grouping(cs.take(i)).current.len() >= 1,
    ensures
        !well_formed(cs),
{
    assert(cs.take(i + 1).drop_last() =~= cs.take(i));
    let a = grouping(cs.take(i + 1));
    assert(a.current.len() >= 2);
    lemma_group_lands(cs, i + 1, cs.len() as int);
    assert(cs.take(cs.len() as int) =~= cs);
    let b = grouping(cs);
    lemma_seen_iff_headings(cs);
    if b.sealed.len() > a.sealed.len() {
        assert(node_groups(cs)[a.sealed.len() as int] == b.sealed[a.sealed.len() as int]);
    } else if b.seen {
        assert(node_groups(cs)[b.sealed.len() as int] == b.current);
    }
}

/// The entries of a loaded bibliography, if any.
pub open spec fn bib_state(o: Option<Bibliography>) -> Option<Map<Seq<char>, RawEntryView>> {
    match o {
        Some(b) => Some(bib_entries(b)),
        None => None,
    }
}

/// `m` is the metadata that the front-matter values `ys` give, with the style
/// sheet read from `files`.
pub open spec fn meta_matches(m: Metadata, ys: Map<Seq<char>, Seq<char>>, files: Seq<(String, String)>) -> bool {
    &&& opt_view(m.title) == lookup(ys, "title"@)
    &&& opt_view(m.author) == lookup(ys, "author"@)
    &&& opt_view(m.date) == lookup(ys, "date"@)
    &&& opt_view(m.css) == match lookup(ys, "css"@) {
        Some(p) => file_in(files, p),
        None => None,
    }
}

/// Every file that the front-matter values `ys` name is at hand, and the
/// bibliography among them parses.
pub open spec fn front_matter_ok(ys: Map<Seq<char>, Seq<char>>, files: Seq<(String, String)>) -> bool {
    &&& (lookup(ys, "css"@) matches Some(p) ==> file_in(files, p) is Some)
    &&& (lookup(ys, "bibliography"@) matches Some(p) ==> (file_in(files, p) matches Some(src)
        && bib_source(src) is Some))
}

/// The bibliography loaded after front-matter values `ys`, where `prev` was loaded before.
pub open spec fn bib_named(
    ys: Map<Seq<char>, Seq<char>>,
    files: Seq<(String, String)>,
    prev: Option<Map<Seq<char>, RawEntryView>>,
) -> Option<Map<Seq<char>, RawEntryView>> {
    match lookup(ys, "bibliography"@) {
        Some(p) => match file_in(files, p) {
            Some(src) => match bib_source(src) {
                Some(m) => Some(m),
                None => prev,
            },
            None => prev,
        },
        None => prev,
    }
}

/// `e` is the error that loading front-matter values `ys` ends in.
pub open spec fn front_matter_error(
    ys: Map<Seq<char>, Seq<char>>,
    files: Seq<(String, String)>,
    e: BuildError,
) -> bool {
    match lookup(ys, "css"@) {
        Some(p) if file_in(files, p) is None => e matches BuildError::Unreadable(q) && q@ == p,
        _ => match lookup(ys, "bibliography"@) {
            Some(p) => match file_in(files, p) {
                None => e matches BuildError::Unreadable(q) && q@ == p,
                Some(_) => e == BuildError::MalformedBibliography,
            },
            None => false,
        },
    }
}

/// Loading the front-matter values `ys` took graph `g0` to `g1` with outcome `r`.
pub open spec fn loads(
    ys: Map<Seq<char>, Seq<char>>,
    files: Seq<(String, String)>,
    g0: AxonoteGraph,
    g1: AxonoteGraph,
    r: Result<(), BuildError>,
) -> bool {
    &&& g1.nodes == g0.nodes
    &&& g1.edges == g0.edges
    &&& r is Ok <==> front_matter_ok(ys, files)
    &&& r matches Err(e) ==> front_matter_error(ys, files, e)
    &&& (lookup(ys, "css"@) matches Some(p) ==> file_in(files, p) is Some) ==> (g1.meta matches Some(
        m,
    ) && meta_matches(m, ys, files))
    &&& r is Ok ==> bib_state(g1.bibliography) == bib_named(ys, files, bib_state(g0.bibliography))
    &&& r is Ok && lookup(ys, "bibliography"@) is None ==> g1.bibliography == g0.bibliography
}

} // verus!
