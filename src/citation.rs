//! Citations: bibliography entries turned into the library's entries.
use vstd::prelude::*;
use crate::def::{opt_view, Entry};
use crate::external::{fragments_view, RawEntry, RawEntryView};

verus! {

/// The concatenation of text fragments.
pub open spec fn concat_all(s: Seq<Seq<char>>) -> Seq<char>
    decreases s.len(),
{
    if s.len() == 0 {
        Seq::empty()
    } else {
        concat_all(s.drop_last()) + s.last()
    }
}

pub open spec fn flatten_field(o: Option<Seq<Seq<char>>>) -> Option<Seq<char>> {
    match o {
        Some(s) => Some(concat_all(s)),
        None => None,
    }
}

/// `e` is the citation made from the bibliography entry `raw`.
pub open spec fn entry_from(e: Entry, raw: RawEntryView) -> bool {
    &&& e.key@ == raw.key
    &&& opt_view(e.author) == flatten_field(raw.author)
    &&& opt_view(e.title) == flatten_field(raw.title)
    &&& opt_view(e.year) == flatten_field(raw.year)
    &&& opt_view(e.doi) == flatten_field(raw.doi)
}

fn concat_fragments(v: &Vec<String>) -> (r: String)
    ensures
        r@ == concat_all(v@.map_values(|s: String| s@)),
{
    let ghost views = v@.map_values(|s: String| s@);
    let mut out = String::new();
    let mut i: usize = 0;
    while i < v.len()
        invariant
            i <= v@.len(),
            views == v@.map_values(|s: String| s@),
            out@ == concat_all(views.take(i as int)),
        decreases v.len() - i,
    {
        assert(views.take(i + 1).drop_last() =~= views.take(i as int));
        out.append(v[i].as_str());
        i = i + 1;
    }
    assert(views.take(v@.len() as int) =~= views);
    out
}

fn flatten(o: &Option<Vec<String>>) -> (r: Option<String>)
    ensures
        opt_view(r) == flatten_field(fragments_view(*o)),
{
    match o {
        Some(v) => Some(concat_fragments(v)),
        None => None,
    }
}

/// The entry made from the bibliography's fields.
pub fn entry_of(raw: &RawEntry) -> (r: Entry)
    ensures
        entry_from(r, raw@),
{
    Entry {
        key: raw.key.clone(),
        author: flatten(&raw.author),
        title: flatten(&raw.title),
        year: flatten(&raw.year),
        doi: flatten(&raw.doi),
    }
}


} // verus!
