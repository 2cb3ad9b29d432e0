//! The graph builder: one forward scan over a document's top-level elements.
use vstd::prelude::*;
use biblatex::Bibliography;
use yaml_rust2::Yaml;
use crate::citation::{entry_from, entry_of};
use crate::classify::transforms;
use crate::def::{
    clone_opt, opt_view, Edge, Entry, Ext, MdNode, Metadata, Node, NodeAttributes, TypedNode,
};
use crate::external::{
    bib_entries, bib_lookup, bib_source, front_matter_strings, load_yaml, parse_bibliography,
    yaml_str, yaml_strings,
};
use crate::outline::{
    content_is, contents_follow, crowded, crowded_before, edge_is, edge_sources, edges_follow,
    file_in, grouping, heading_titles, is_content, is_heading1, item_for, link_title, link_url,
    lookup, node_groups, nodes_follow, structural_links, Grouping, citation_links, element_ok,
    heading_ok, lemma_second_content, loads, well_formed, bib_after, bib_state, distinct_ids,
    is_citation, last_front_matter, lemma_titles_prefix, meta_follows, resolvable, resolvable_at,
};
use crate::utils::{
    canonical, canonicalize_id, extract_links_with_prefix, links_with, para_children, starts_with,
};

verus! {

/// Why a document could not be turned into a graph.
#[derive(Debug, PartialEq, Eq)]
pub enum BuildError {
    /// The parsed document is not a document root.
    NotARoot,
    /// A level-1 heading whose first child is not plain text.
    MalformedHeading,
    /// A paragraph with structural links before any heading.
    LinksWithoutHeading,
    /// A paragraph with more than one citation link.
    SeveralCitations,
    /// A node with more than one content item.
    SeveralContents,
    /// A level-1 heading whose id is that of an earlier one.
    DuplicateId,
    /// A document without a level-1 heading.
    NoHeading,
    /// A citation while no bibliography is loaded.
    NoBibliography,
    /// A citation key that the bibliography lacks (the link target).
    EntryNotFound(String),
    /// A file named in the front matter that is not at hand (its path).
    Unreadable(String),
    /// Front matter that is not YAML, or holds no document.
    MalformedFrontMatter,
    /// A bibliography source that does not parse.
    MalformedBibliography,
}

/// The graph built from one document.
pub struct AxonoteGraph {
    pub meta: Option<Metadata>,
    pub nodes: Vec<Node>,
    pub edges: Vec<Edge>,
    /// The bibliography loaded from the front matter; used while building only.
    pub bibliography: Option<Bibliography>,
}

/// The heading of the node that is open: its text, id and attributes.
pub struct NodeMeta {
    pub original_text: String,
    pub id: String,
    pub attributes: NodeAttributes,
}

/// Node attributes written in a heading. Attribute syntax is not read yet:
/// every heading gets the default attributes.
pub fn parse_attributes(_value: &str) -> (r: NodeAttributes)
    ensures
        r.is_empty(),
{
    NodeAttributes::default()
}

impl NodeMeta {
    pub fn new(text: String) -> (r: NodeMeta)
        ensures
            r.original_text == text,
            r.id@ == canonical(text@),
            r.attributes.is_empty(),
    {
        let id = canonicalize_id(text.as_str());
        let attributes = parse_attributes(text.as_str());
        NodeMeta { original_text: text, id, attributes }
    }
}

/// `n` is the node sealed from heading `meta` with content `pending`.
pub open spec fn seals(meta: NodeMeta, pending: Seq<Ext>, n: Node) -> bool {
    &&& n.id == meta.id
    &&& n.title == Some(meta.original_text)
    &&& n.style == meta.attributes
    &&& n.position is None
    &&& pending.len() == 0 ==> n.raw == TypedNode::Text(meta.original_text)
    &&& pending.len() == 1 ==> transforms(pending[0], n.raw)
}

/// The contents of the file at `path`, where the caller has read it.
pub fn find_file(files: &Vec<(String, String)>, path: &str) -> (r: Option<String>)
    ensures
        opt_view(r) == file_in(files@, path@),
{
    let mut i: usize = 0;
    while i < files.len()
        invariant
            i <= files@.len(),
            file_in(files@.take(i as int), path@) is None,
        decreases files.len() - i,
    {
        assert(files@.take(i + 1).drop_last() =~= files@.take(i as int));
        let name = files[i].0.as_str();
        if name.unicode_len() == path.unicode_len() && starts_with(name, path) {
            assert(name@ =~= path@);
            let c = files[i].1.clone();
            proof {
                lemma_file_in_prefix(files@, path@, i + 1);
            }
            return Some(c);
        }
        i = i + 1;
    }
    assert(files@.take(files@.len() as int) =~= files@);
    None
}

proof fn lemma_file_in_prefix(files: Seq<(String, String)>, path: Seq<char>, n: int)
    requires
        0 <= n <= files.len(),
        file_in(files.take(n), path) is Some,
    ensures
        file_in(files, path) == file_in(files.take(n), path),
    decreases files.len(),
{
    if n < files.len() {
        assert(files.drop_last().take(n) =~= files.take(n));
        lemma_file_in_prefix(files.drop_last(), path, n);
    } else {
        assert(files.take(n) =~= files);
    }
}

fn link_target(n: &MdNode) -> (r: &str)
    requires
        n is Link,
    ensures
        r@ == link_url(*n),
{
    match n {
        MdNode::Link { url, .. } => url.as_str(),
        _ => "",
    }
}

impl AxonoteGraph {
    pub fn new() -> (r: AxonoteGraph)
        ensures
            r.meta is None,
            r.nodes@.len() == 0,
            r.edges@.len() == 0,
            r.bibliography is None,
    {
        AxonoteGraph { meta: None, nodes: Vec::new(), edges: Vec::new(), bibliography: None }
    }

    /// Seals the open node `meta` with its content `nodes`.
    fn add_node(&mut self, meta: NodeMeta, nodes: Vec<Ext>)
        requires
            nodes@.len() <= 1,
        ensures
            final(self).nodes@.len() == old(self).nodes@.len() + 1,
            final(self).nodes@.drop_last() == old(self).nodes@,
            seals(meta, nodes@, final(self).nodes@.last()),
            final(self).edges == old(self).edges,
            final(self).meta == old(self).meta,
            final(self).bibliography == old(self).bibliography,
    {
        let ghost pending = nodes@;
        let mut nodes = nodes;
        let typed_node = match nodes.pop() {
            None => TypedNode::Text(meta.original_text.clone()),
            Some(x) => TypedNode::node_transform(x),
        };
        let node = Node {
            id: meta.id,
            title: Some(meta.original_text),
            raw: typed_node,
            style: meta.attributes,
            position: None,
        };
        self.nodes.push(node);
        assert(self.nodes@.drop_last() =~= old(self).nodes@);
    }

    pub fn add_edge(&mut self, from: String, to: String, label: Option<String>, id: usize)
        ensures
            final(self).edges@ == old(self).edges@.push(
                Edge { id, source_id: from, target_id: to, label },
            ),
            final(self).nodes == old(self).nodes,
            final(self).meta == old(self).meta,
            final(self).bibliography == old(self).bibliography,
    {
        let edge = Edge { source_id: from, target_id: to, id, label };
        self.edges.push(edge);
    }

    /// One edge from `from` for each structural link, numbered on from the edges so far.
    pub fn links_to_edges(&mut self, links: &Vec<&MdNode>, from: &str)
        requires
            forall|k: int|
                0 <= k < links@.len() ==> (#[trigger] links@[k]) is Link && link_url(
                    *links@[k],
                ).len() >= 1,
        ensures
            final(self).edges@.len() == old(self).edges@.len() + links@.len(),
            final(self).edges@.take(old(self).edges@.len() as int) == old(self).edges@,
            forall|k: int|
                0 <= k < links@.len() ==> edge_is(
                    #[trigger] final(self).edges@[old(self).edges@.len() + k],
                    old(self).edges@.len() + k,
                    from@,
                    link_url(*links@[k]),
                    link_title(*links@[k]),
                ),
            final(self).nodes == old(self).nodes,
            final(self).meta == old(self).meta,
            final(self).bibliography == old(self).bibliography,
    {
        let ghost start = self.edges@.len();
        let mut i: usize = 0;
        while i < links.len()
            invariant
                i <= links@.len(),
                start == old(self).edges@.len(),
                self.edges@.len() == start + i,
                self.edges@.take(start as int) == old(self).edges@,
                forall|k: int|
                    0 <= k < links@.len() ==> (#[trigger] links@[k]) is Link && link_url(
                        *links@[k],
                    ).len() >= 1,
                forall|k: int|
                    0 <= k < i ==> edge_is(
                        #[trigger] self.edges@[start + k],
                        start + k,
                        from@,
                        link_url(*links@[k]),
                        link_title(*links@[k]),
                    ),
                self.nodes == old(self).nodes,
                self.meta == old(self).meta,
                self.bibliography == old(self).bibliography,
            decreases links.len() - i,
        {
            let link = links[i];
            let url = link_target(link);
            let n = url.unicode_len();
            let to = canonicalize_id(url.substring_char(1, n));
            assert(url@.subrange(1, n as int) =~= url@.drop_first());
            let label = match link {
                MdNode::Link { title, .. } => clone_opt(title),
                _ => None,
            };
            let id = self.edges.len();
            let ghost before = self.edges@;
            self.add_edge(from.to_string(), to, label, id);
            assert(self.edges@.take(start as int) =~= before.take(start as int));
            i = i + 1;
        }
    }

    /// The citation that the link target `url` (marker included) refers to.
    pub fn get_entry(&self, url: &str) -> (r: Result<Entry, BuildError>)
        ensures
            self.bibliography is None ==> r == Err::<Entry, BuildError>(BuildError::NoBibliography),
            self.bibliography matches Some(b) ==> if url@.len() >= 1 && bib_entries(b).contains_key(
                url@.drop_first(),
            ) {
                r matches Ok(e) && entry_from(e, bib_entries(b)[url@.drop_first()])
            } else {
                r matches Err(BuildError::EntryNotFound(u)) && u@ == url@
            },
    {
        match &self.bibliography {
            Some(bib) => {
                let n = url.unicode_len();
                if n == 0 {
                    return Err(BuildError::EntryNotFound(url.to_string()));
                }
                let key = url.substring_char(1, n);
                assert(key@ =~= url@.drop_first());
                match bib_lookup(bib, key) {
                    Some(raw) => Ok(entry_of(&raw)),
                    None => Err(BuildError::EntryNotFound(url.to_string())),
                }
            },
            None => Err(BuildError::NoBibliography),
        }
    }
}


impl AxonoteGraph {
    /// Loads the bibliography named under `bibliography` in the front matter.
    pub fn load_bib(&mut self, doc: &Yaml, files: &Vec<(String, String)>) -> (r: Result<
        (),
        BuildError,
    >)
        ensures
            final(self).nodes == old(self).nodes,
            final(self).edges == old(self).edges,
            final(self).meta == old(self).meta,
            match lookup(yaml_strings(*doc), "bibliography"@) {
                None => r is Ok && final(self).bibliography == old(self).bibliography,
                Some(p) => match file_in(files@, p) {
                    None => r matches Err(BuildError::Unreadable(q)) && q@ == p,
                    Some(t) => (r is Ok <==> bib_source(t) is Some) && (r is Ok ==> (final(self).bibliography matches Some(b) && bib_entries(b) == bib_source(t)->Some_0))
                        && (r is Err ==> r == Err::<(), BuildError>(
                        BuildError::MalformedBibliography,
                    )),
                },
            },
    {
        match yaml_str(doc, "bibliography") {
            Some(path) => match find_file(files, path.as_str()) {
                Some(text) => match parse_bibliography(text.as_str()) {
                    Ok(bib) => {
                        self.bibliography = Some(bib);
                        Ok(())
                    },
                    Err(_) => Err(BuildError::MalformedBibliography),
                },
                None => Err(BuildError::Unreadable(path)),
            },
            None => Ok(()),
        }
    }

    /// Fills the metadata from a front-matter document, reading the style sheet
    /// and the bibliography that it names from `files`.
    pub fn load_meta_from(&mut self, doc: &Yaml, files: &Vec<(String, String)>) -> (r: Result<
        (),
        BuildError,
    >)
        ensures
            loads(yaml_strings(*doc), files@, *old(self), *final(self), r),
    {
        let css = match yaml_str(doc, "css") {
            Some(path) => match find_file(files, path.as_str()) {
                Some(text) => Some(text),
                None => {
                    return Err(BuildError::Unreadable(path));
                },
            },
            None => None,
        };
        self.meta = Some(
            Metadata {
                title: yaml_str(doc, "title"),
                author: yaml_str(doc, "author"),
                date: yaml_str(doc, "date"),
                css,
            },
        );
        self.load_bib(doc, files)
    }

    /// Reads a front-matter block: parses it as YAML and loads its first document.
    pub fn load_meta(&mut self, yaml: &str, files: &Vec<(String, String)>) -> (r: Result<
        (),
        BuildError,
    >)
        ensures
            match front_matter_strings(yaml@) {
                None => r == Err::<(), BuildError>(BuildError::MalformedFrontMatter) && final(self).nodes == old(self).nodes && final(self).edges == old(self).edges,
                Some(ys) => loads(ys, files@, *old(self), *final(self), r),
            },
    {
        match load_yaml(yaml) {
            Ok(docs) => {
                if docs.len() == 0 {
                    Err(BuildError::MalformedFrontMatter)
                } else {
                    self.load_meta_from(&docs[0], files)
                }
            },
            Err(_) => Err(BuildError::MalformedFrontMatter),
        }
    }
}

/// Appends a content item to the open node's buffer; a node holds at most one.
fn push_content<'a>(pending: &mut Vec<Ext<'a>>, item: Ext<'a>) -> (r: Result<(), BuildError>)
    ensures
        old(pending)@.len() == 0 ==> r is Ok && final(pending)@ == seq![item],
        old(pending)@.len() > 0 ==> r == Err::<(), BuildError>(BuildError::SeveralContents)
            && *final(pending) == *old(pending),
{
    if pending.len() > 0 {
        return Err(BuildError::SeveralContents);
    }
    pending.push(item);
    assert(pending@ =~= seq![item]);
    Ok(())
}

/// Whether `id` is the id of a sealed node or of the open one.
fn id_taken(nodes: &Vec<Node>, open: &Option<NodeMeta>, id: &String) -> (r: bool)
    ensures
        r <==> (exists|k: int| 0 <= k < nodes@.len() && (#[trigger] nodes@[k]).id@ == id@) || (
        open matches Some(m) && m.id@ == id@),
{
    if let Some(m) = open {
        if m.id == *id {
            return true;
        }
    }
    let mut k: usize = 0;
    while k < nodes.len()
        invariant
            k <= nodes@.len(),
            forall|j: int| 0 <= j < k ==> (#[trigger] nodes@[j]).id@ != id@,
        decreases nodes.len() - k,
    {
        if nodes[k].id == *id {
            return true;
        }
        k = k + 1;
    }
    false
}

impl AxonoteGraph {
    /// One forward scan over the top-level elements of a document.
    fn collect(&mut self, children: &Vec<MdNode>, files: &Vec<(String, String)>) -> (r: Result<
        (),
        BuildError,
    >)
        requires
            old(self).nodes@.len() == 0,
            old(self).edges@.len() == 0,
            old(self).meta is None,
            old(self).bibliography is None,
        ensures
            heading_titles(children@).len() == 0 ==> r is Err,
            crowded(children@) ==> r is Err,
            r is Ok <==> well_formed(children@) && resolvable(children@, files@),
            r is Ok ==> nodes_follow(final(self).nodes@, heading_titles(children@)),
            r is Ok ==> edges_follow(final(self).edges@, edge_sources(children@)),
            r is Ok ==> contents_follow(
                final(self).nodes@,
                children@,
                files@,
                node_groups(children@),
                heading_titles(children@),
            ),
            r is Ok ==> meta_follows(final(self).meta, children@, files@),
            r is Ok ==> bib_state(final(self).bibliography) == bib_after(children@, files@),
    {
        let mut open: Option<NodeMeta> = None;
        let mut pending: Vec<Ext> = Vec::new();
        let mut i: usize = 0;
        proof {
            assert(children@.take(0) =~= Seq::<MdNode>::empty());
        }
        while i < children.len()
            invariant
                0 <= i <= children@.len(),
                nodes_follow(
                    self.nodes@,
                    if open is Some {
                        heading_titles(children@.take(i as int)).drop_last()
                    } else {
                        heading_titles(children@.take(i as int))
                    },
                ),
                open is None <==> heading_titles(children@.take(i as int)).len() == 0,
                open matches Some(m) ==> m.original_text@ == heading_titles(
                    children@.take(i as int),
                ).last() && m.id@ == canonical(heading_titles(children@.take(i as int)).last())
                    && m.attributes.is_empty(),
                distinct_ids(heading_titles(children@.take(i as int))),
                edges_follow(self.edges@, edge_sources(children@.take(i as int))),
                pending@.len() <= 1,
                pending@.len() == 0 ==> forall|j: int|
                    0 <= j < i && #[trigger] is_content(children@[j]) ==> exists|m: int|
                        j < m < i && is_heading1(#[trigger] children@[m]),
                !crowded_before(children@, i as int),
                grouping(children@.take(i as int)).seen <==> open is Some,
                grouping(children@.take(i as int)).sealed.len() == self.nodes@.len(),
                contents_follow(
                    self.nodes@,
                    children@,
                    files@,
                    grouping(children@.take(i as int)).sealed,
                    heading_titles(children@.take(i as int)),
                ),
                pending@.len() == grouping(children@.take(i as int)).current.len(),
                pending@.len() == 1 ==> item_for(
                    pending@[0],
                    children@,
                    files@,
                    grouping(children@.take(i as int)).current[0],
                ),
                forall|j: int| 0 <= j < i ==> #[trigger] element_ok(children@, j),
                forall|j: int| 0 <= j < i ==> #[trigger] resolvable_at(children@, files@, j),
                open is None ==> forall|m: int| 0 <= m < i ==> !is_heading1(#[trigger] children@[m]),
                open is Some ==> exists|m: int| 0 <= m < i && is_heading1(#[trigger] children@[m]),
                meta_follows(self.meta, children@.take(i as int), files@),
                bib_state(self.bibliography) == bib_after(children@.take(i as int), files@),
            decreases children.len() - i,
        {
            let child = &children[i];
            let ghost cs = children@;
            let ghost prefix = cs.take(i as int);
            let ghost next = cs.take(i + 1);
            let ghost titles = heading_titles(prefix);
            assert(next.drop_last() =~= prefix);
            assert(next.last() == *child);
            assert(cs[i as int] == *child);
            let ghost old_nodes = self.nodes@;
            let ghost old_edges = self.edges@;
            let ghost gr = grouping(prefix);
            assert(!is_heading1(*child) ==> heading_titles(next) == titles);
            assert(!is_heading1(*child) && !is_content(*child) ==> grouping(next) == gr);
            assert(!is_heading1(*child) && is_content(*child) ==> grouping(next) == Grouping {
                current: gr.current.push(i as int),
                ..gr
            });
            assert(!(*child is Yaml) ==> last_front_matter(next) == last_front_matter(prefix)
                && bib_after(next, files@) == bib_after(prefix, files@));
            match child {
                MdNode::Yaml(v) => {
                    let loaded = self.load_meta(v.as_str(), files);
                    if let Err(e) = loaded {
                        assert(!resolvable_at(children@, files@, i as int));
                        return Err(e);
                    }
                    assert(edge_sources(next) =~= edge_sources(prefix));
                },
                MdNode::Heading { depth, children: hc } => {
                    if *depth == 1 {
                        if hc.len() == 0 {
                            assert(!element_ok(children@, i as int));
                            return Err(BuildError::MalformedHeading);
                        }
                        match &hc[0] {
                            MdNode::Text(t) => {
                                let id = canonicalize_id(t.as_str());
                                assert(heading_titles(next) == titles.push(t@));
                                if id_taken(&self.nodes, &open, &id) {
                                    proof {
                                        lemma_titles_prefix(cs, i + 1);
                                        let hn = heading_titles(next);
                                        let n = titles.len() as int;
                                        let k: int = if exists|k: int|
                                            0 <= k < self.nodes@.len() && (#[trigger] self.nodes@[k]).id@
                                                == id@ {
                                            choose|k: int|
                                                0 <= k < self.nodes@.len() && (#[trigger] self.nodes@[k]).id@
                                                    == id@
                                        } else {
                                            n - 1
                                        };
                                        assert(hn[k] == titles[k]);
                                        assert(canonical(hn[k]) == id@);
                                        assert(hn[k] == heading_titles(cs)[k]);
                                        assert(hn[n] == heading_titles(cs)[n]);
                                        assert(!distinct_ids(heading_titles(cs)));
                                    }
                                    return Err(BuildError::DuplicateId);
                                }
                                let ghost was_open = open;
                                assert(forall|k: int| 0 <= k < old_nodes.len() ==> (#[trigger] old_nodes[k]).id@ != id@);
                                let prev = open.take();
                                match prev {
                                    Some(m) => {
                                        let mut sealed: Vec<Ext> = Vec::new();
                                        core::mem::swap(&mut pending, &mut sealed);
                                        let ghost mm = m;
                                        let ghost sp = sealed@;
                                        self.add_node(m, sealed);
                                        assert(self.nodes@.drop_last() == old_nodes);
                                        proof {
                                            lemma_seal_content(mm, sp, cs, files@, gr.current, self.nodes@.last());
                                            assert(grouping(next).sealed == gr.sealed.push(gr.current));
                                        }
                                        assert forall|k: int| 0 <= k < self.nodes@.len() implies opt_view(
                                            (#[trigger] self.nodes@[k]).title,
                                        ) == Some(titles[k]) && self.nodes@[k].id@ == canonical(titles[k])
                                            && self.nodes@[k].position is None
                                            && self.nodes@[k].style.is_empty()
                                            && content_is(
                                            cs,
                                            files@,
                                            grouping(next).sealed[k],
                                            heading_titles(next)[k],
                                            self.nodes@[k].raw,
                                        ) by {
                                            assert(heading_titles(next)[k] == titles[k]);
                                            if k < old_nodes.len() {
                                                assert(self.nodes@[k] == self.nodes@.drop_last()[k]);
                                            } else {
                                                assert(titles[k] == titles.last());
                                            }
                                        }
                                    },
                                    None => {},
                                }
                                open = Some(NodeMeta::new(t.clone()));
                                assert(heading_titles(next).drop_last() =~= titles);
                                assert forall|k: int| 0 <= k < self.nodes@.len() implies content_is(
                                    cs,
                                    files@,
                                    grouping(next).sealed[k],
                                    heading_titles(next)[k],
                                    (#[trigger] self.nodes@[k]).raw,
                                ) by {
                                    assert(heading_titles(next)[k] == titles[k]);
                                }
                                assert forall|a: int, b: int|
                                    0 <= a < b < heading_titles(next).len() implies canonical(
                                    #[trigger] heading_titles(next)[a],
                                ) != canonical(#[trigger] heading_titles(next)[b]) by {
                                    if b == titles.len() {
                                        assert(heading_titles(next)[a] == titles[a]);
                                        assert(heading_titles(next)[b] == t@);
                                        if a < old_nodes.len() {
                                            assert(old_nodes[a].id@ == canonical(titles[a]));
                                        } else {
                                            assert(was_open matches Some(m) && m.id@ == canonical(titles[a]));
                                        }
                                    } else {
                                        assert(heading_titles(next)[a] == titles[a]);
                                        assert(heading_titles(next)[b] == titles[b]);
                                    }
                                }
                                assert(edge_sources(next) =~= edge_sources(prefix));
                            },
                            _ => {
                                assert(!element_ok(children@, i as int));
                                return Err(BuildError::MalformedHeading);
                            },
                        }
                    } else {
                        assert(edge_sources(next) =~= edge_sources(prefix));
                    }
                },
                MdNode::Paragraph(_) => {
                    proof {
                        reveal_strlit("#");
                        reveal_strlit("^");
                    }
                    match extract_links_with_prefix(child, "#") {
                        Some(links) => {
                            match &open {
                                Some(m) => {
                                    proof {
                                        lemma_links_with_are_links(para_children(*child), "#"@);
                                        assert forall|k: int| 0 <= k < links@.len() implies (#[trigger] links@[k]) is Link
                                            && link_url(*links@[k]).len() >= 1 by {
                                            assert(*links@[k] == links_with(para_children(*child), "#"@)[k]);
                                        }
                                    }
                                    self.links_to_edges(&links, m.id.as_str());
                                    let ghost added = structural_links(*child).map_values(
                                        |l: MdNode| (canonical(titles.last()), l),
                                    );
                                    assert(edge_sources(next) == edge_sources(prefix) + added);
                                    assert(self.edges@.take(old_edges.len() as int) == old_edges);
                                    assert forall|k: int| 0 <= k < self.edges@.len() implies edge_is(
                                        #[trigger] self.edges@[k],
                                        k,
                                        edge_sources(next)[k].0,
                                        link_url(edge_sources(next)[k].1),
                                        link_title(edge_sources(next)[k].1),
                                    ) by {
                                        if k < old_edges.len() {
                                            assert(self.edges@[k] == self.edges@.take(old_edges.len() as int)[k]);
                                        } else {
                                            let j = k - old_edges.len();
                                            assert(edge_is(self.edges@[old_edges.len() + j], old_edges.len() + j, m.id@, link_url(*links@[j]), link_title(*links@[j])));
                                        }
                                    }
                                },
                                None => {
                                    assert(!element_ok(children@, i as int));
                                    return Err(BuildError::LinksWithoutHeading);
                                },
                            }
                        },
                        None => {
                            assert(edge_sources(next) =~= edge_sources(prefix));
                            match extract_links_with_prefix(child, "^") {
                                Some(refs) => {
                                    if refs.len() != 1 {
                                        assert(!element_ok(children@, i as int));
                                        return Err(BuildError::SeveralCitations);
                                    }
                                    proof {
                                        lemma_links_with_are_links(para_children(*child), "^"@);
                                        assert(*refs@[0] == links_with(para_children(*child), "^"@)[0]);
                                        assert(is_citation(*child));
                                    }
                                    let found = self.get_entry(link_target(refs[0]));
                                    let entry = match found {
                                        Ok(e) => e,
                                        Err(e) => {
                                            assert(!resolvable_at(children@, files@, i as int));
                                            return Err(e);
                                        },
                                    };
                                    proof {
                                        if pending@.len() > 0 {
                                            lemma_second_content(children@, i as int);
                                        }
                                    }
                                    push_content(
                                        &mut pending,
                                        Ext::Typed(TypedNode::Bibliography(entry)),
                                    )?;
                                },
                                None => {
                                    proof {
                                        if pending@.len() > 0 {
                                            lemma_second_content(children@, i as int);
                                        }
                                    }
                                    push_content(&mut pending, Ext::M(child))?;
                                },
                            }
                        },
                    }
                },
                MdNode::Code { .. } | MdNode::Math(_) | MdNode::Image { .. } | MdNode::List(_) => {
                    proof {
                        if pending@.len() > 0 {
                            lemma_second_content(children@, i as int);
                        }
                    }
                    push_content(&mut pending, Ext::M(child))?;
                    assert(edge_sources(next) =~= edge_sources(prefix));
                },
                _ => {
                    assert(edge_sources(next) =~= edge_sources(prefix));
                },
            }
            assert(is_heading1(*child) ==> is_heading1(children@[i as int]));
            assert(element_ok(children@, i as int));
            assert(resolvable_at(children@, files@, i as int));
            i = i + 1;
        }
        assert(children@.take(children@.len() as int) =~= children@);
        match open {
            Some(m) => {
                let ghost titles = heading_titles(children@);
                let ghost old_nodes = self.nodes@;
                let ghost gr = grouping(children@);
                let ghost mm = m;
                let ghost sp = pending@;
                self.add_node(m, pending);
                proof {
                    lemma_seal_content(mm, sp, children@, files@, gr.current, self.nodes@.last());
                }
                assert(self.nodes@.drop_last() == old_nodes);
                assert forall|k: int| 0 <= k < self.nodes@.len() implies opt_view(
                    (#[trigger] self.nodes@[k]).title,
                ) == Some(titles[k]) && self.nodes@[k].id@ == canonical(titles[k])
                    && self.nodes@[k].position is None && self.nodes@[k].style.is_empty()
                    && content_is(
                    children@,
                    files@,
                    node_groups(children@)[k],
                    titles[k],
                    self.nodes@[k].raw,
                ) by {
                    if k < old_nodes.len() {
                        assert(self.nodes@[k] == self.nodes@.drop_last()[k]);
                    }
                }
                proof {
                    assert forall|k: int| 0 <= k < node_groups(children@).len() implies (
                        #[trigger] node_groups(children@)[k]).len() <= 1 by {
                        assert(content_is(children@, files@, node_groups(children@)[k], titles[k], self.nodes@[k].raw));
                    }
                }
                Ok(())
            },
            None => Err(BuildError::NoHeading),
        }
    }
}

proof fn lemma_seal_content(
    meta: NodeMeta,
    pending: Seq<Ext>,
    cs: Seq<MdNode>,
    files: Seq<(String, String)>,
    cur: Seq<int>,
    n: Node,
)
    requires
        seals(meta, pending, n),
        pending.len() == cur.len(),
        cur.len() <= 1,
        pending.len() == 1 ==> item_for(pending[0], cs, files, cur[0]),
    ensures
        content_is(cs, files, cur, meta.original_text@, n.raw),
{
}

proof fn lemma_links_with_are_links(cs: Seq<MdNode>, p: Seq<char>)
    ensures
        forall|k: int|
            0 <= k < links_with(cs, p).len() ==> (#[trigger] links_with(cs, p)[k]) is Link
                && p.is_prefix_of(link_url(links_with(cs, p)[k])),
    decreases cs.len(),
{
    if cs.len() > 0 {
        lemma_links_with_are_links(cs.drop_last(), p);
    }
}

/// Builds the graph of a parsed document. `files` holds the contents of the
/// files that the front matter may name, by path.
pub fn compile(root: &MdNode, files: &Vec<(String, String)>) -> (r: Result<AxonoteGraph, BuildError>)
    ensures
        !(root is Root) ==> r == Err::<AxonoteGraph, BuildError>(BuildError::NotARoot),
        root matches MdNode::Root(cs) ==> {
            &&& heading_titles(cs@).len() == 0 ==> r is Err
            &&& crowded(cs@) ==> r is Err
            &&& r is Ok <==> well_formed(cs@) && resolvable(cs@, files@)
            &&& r matches Ok(g) ==> meta_follows(g.meta, cs@, files@)
            &&& r matches Ok(g) ==> bib_state(g.bibliography) == bib_after(cs@, files@)
            &&& r matches Ok(g) ==> nodes_follow(g.nodes@, heading_titles(cs@)) && edges_follow(
                g.edges@,
                edge_sources(cs@),
            ) && contents_follow(g.nodes@, cs@, files@, node_groups(cs@), heading_titles(cs@))
        },
{
    match root {
        MdNode::Root(cs) => {
            let mut graph = AxonoteGraph::new();
            graph.collect(cs, files)?;
            Ok(graph)
        },
        _ => Err(BuildError::NotARoot),
    }
}


/// The characters of each string.
pub open spec fn strings_view(v: Seq<String>) -> Seq<Seq<char>> {
    v.map_values(|s: String| s@)
}

/// A value that may be missing, as a sequence of zero or one items.
pub open spec fn seq_of(o: Option<Seq<char>>) -> Seq<Seq<char>> {
    match o {
        Some(v) => seq![v],
        None => Seq::empty(),
    }
}

/// The files that a front-matter document names: its style sheet, then its
/// bibliography.
pub fn named_files(doc: &Yaml) -> (r: Vec<String>)
    ensures
        strings_view(r@) == seq_of(lookup(yaml_strings(*doc), "css"@)) + seq_of(
            lookup(yaml_strings(*doc), "bibliography"@),
        ),
{
    let mut out: Vec<String> = Vec::new();
    if let Some(p) = yaml_str(doc, "css") {
        out.push(p);
    }
    if let Some(p) = yaml_str(doc, "bibliography") {
        out.push(p);
    }
    assert(strings_view(out@) =~= seq_of(lookup(yaml_strings(*doc), "css"@)) + seq_of(
        lookup(yaml_strings(*doc), "bibliography"@),
    ));
    out
}

/// The files that the front-matter blocks among `cs` name, in order: for each
/// block that parses, its style sheet, then its bibliography.
pub open spec fn files_named(cs: Seq<MdNode>) -> Seq<Seq<char>>
    decreases cs.len(),
{
    if cs.len() == 0 {
        Seq::empty()
    } else {
        let prev = files_named(cs.drop_last());
        match cs.last() {
            MdNode::Yaml(t) => match front_matter_strings(t@) {
                Some(ys) => prev + seq_of(lookup(ys, "css"@)) + seq_of(lookup(ys, "bibliography"@)),
                None => prev,
            },
            _ => prev,
        }
    }
}

/// The files that the front-matter blocks of a document name, in order; a
/// block that does not parse names none (building the graph reports it).
pub fn referenced_files(root: &MdNode) -> (r: Vec<String>)
    ensures
        root matches MdNode::Root(cs) ==> strings_view(r@) == files_named(cs@),
        !(root is Root) ==> r@.len() == 0,
{
    let mut out: Vec<String> = Vec::new();
    if let MdNode::Root(cs) = root {
        let mut i: usize = 0;
        assert(cs@.take(0) =~= Seq::<MdNode>::empty());
        assert(strings_view(out@) =~= Seq::<Seq<char>>::empty());
        while i < cs.len()
            invariant
                i <= cs@.len(),
                strings_view(out@) == files_named(cs@.take(i as int)),
            decreases cs.len() - i,
        {
            assert(cs@.take(i + 1).drop_last() =~= cs@.take(i as int));
            let ghost before = out@;
            if let MdNode::Yaml(v) = &cs[i] {
                if let Ok(docs) = load_yaml(v.as_str()) {
                    if docs.len() > 0 {
                        let mut named = named_files(&docs[0]);
                        let ghost added = named@;
                        out.append(&mut named);
                        assert(strings_view(out@) =~= strings_view(before) + strings_view(added));
                    }
                }
            }
            i = i + 1;
        }
        assert(cs@.take(cs@.len() as int) =~= cs@);
    }
    out
}

} // verus!
