use vstd::prelude::*;
use crate::def::{clone_opt, Ext, MdNode, TypedNode};

verus! {

/// The plain text of a run of inline elements: their text children, concatenated.
pub open spec fn inline_text(cs: Seq<MdNode>) -> Seq<char>
    decreases cs.len(),
{
    if cs.len() == 0 {
        Seq::empty()
    } else {
        match cs.last() {
            MdNode::Text(v) => inline_text(cs.drop_last()) + v@,
            _ => inline_text(cs.drop_last()),
        }
    }
}

/// The payload that stands for an element of a kind that has no payload of its own.
pub open spec fn is_unsupported(t: TypedNode) -> bool {
    t matches TypedNode::Text(s) && s@ == "Unsupported node type"@
}

/// `t` is the payload that classifying `n` gives.
pub open spec fn classifies(n: MdNode, t: TypedNode) -> bool
    decreases n,
{
    match n {
        MdNode::Text(v) => t == TypedNode::Text(v),
        MdNode::Paragraph(cs) => t matches TypedNode::Text(s) && s@ == inline_text(cs@),
        MdNode::Math(v) => t == TypedNode::Formula(v),
        MdNode::Image { title, url } => t == (TypedNode::Image { title, url }),
        MdNode::Link { title, url } => t == (TypedNode::Link { title, url }),
        MdNode::Code { lang, value } => t == (TypedNode::CodeBlock { lang, code: value }),
        MdNode::ListItem(cs) => if cs@.len() > 0 {
            classifies(cs@[0], t)
        } else {
            is_unsupported(t)
        },
        MdNode::List(cs) => t matches TypedNode::List(ts) && ts@.len() == cs@.len() && forall|i: int|
            0 <= i < cs@.len() ==> classifies(#[trigger] cs@[i], ts@[i]),
        _ => is_unsupported(t),
    }
}

/// `t` is the payload of a node whose single content item is `e`.
pub open spec fn transforms(e: Ext, t: TypedNode) -> bool {
    match e {
        Ext::M(n) => classifies(*n, t),
        Ext::Typed(x) => t == x,
    }
}

fn inline_text_of(cs: &Vec<MdNode>) -> (r: String)
    ensures
        r@ == inline_text(cs@),
{
    let mut out = String::new();
    let mut i: usize = 0;
    while i < cs.len()
        invariant
            i <= cs@.len(),
            out@ == inline_text(cs@.take(i as int)),
        decreases cs.len() - i,
    {
        assert(cs@.take(i + 1).drop_last() =~= cs@.take(i as int));
        if let MdNode::Text(v) = &cs[i] {
            out.append(v.as_str());
        }
        i = i + 1;
    }
    assert(cs@.take(cs@.len() as int) =~= cs@);
    out
}

fn unsupported() -> (r: TypedNode)
    ensures
        is_unsupported(r),
{
    TypedNode::Text(String::from_str("Unsupported node type"))
}

fn classify(n: &MdNode) -> (r: TypedNode)
    ensures
        classifies(*n, r),
    decreases n,
{
    match n {
        MdNode::Text(v) => TypedNode::Text(v.clone()),
        MdNode::Paragraph(cs) => TypedNode::Text(inline_text_of(cs)),
        MdNode::Math(v) => TypedNode::Formula(v.clone()),
        MdNode::Image { title, url } => TypedNode::Image { title: clone_opt(title), url: url.clone() },
        MdNode::Link { title, url } => TypedNode::Link { title: clone_opt(title), url: url.clone() },
        MdNode::Code { lang, value } => TypedNode::CodeBlock {
            lang: clone_opt(lang),
            code: value.clone(),
        },
        MdNode::ListItem(cs) => {
            if cs.len() > 0 {
                classify(&cs[0])
            } else {
                unsupported()
            }
        },
        MdNode::List(cs) => {
            let mut ts: Vec<TypedNode> = Vec::new();
            let mut i: usize = 0;
            while i < cs.len()
                invariant
                    i <= cs@.len(),
                    *n == MdNode::List(*cs),
                    ts@.len() == i,
                    forall|k: int| 0 <= k < i ==> classifies(#[trigger] cs@[k], ts@[k]),
                decreases cs.len() - i,
            {
                proof {
                    vstd::std_specs::vec::axiom_vec_index_decreases(*cs, i as int);
                    assert(*n == MdNode::List(*cs));
                    assert(decreases_to!(*n => n->List_0));
                    assert(decreases_to!(*n => cs[i as int]));
                }
                let t = classify(&cs[i]);
                ts.push(t);
                i = i + 1;
            }
            TypedNode::List(ts)
        },
        _ => unsupported(),
    }
}

impl TypedNode {
    /// The payload of a node whose single content item is `node`: a resolved
    /// payload passes through, a document element is classified.
    pub fn node_transform(node: Ext) -> (r: TypedNode)
        ensures
            transforms(node, r),
    {
        match node {
            Ext::M(n) => classify(n),
            Ext::Typed(t) => t,
        }
    }
}

} // verus!
