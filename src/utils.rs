use vstd::prelude::*;
use crate::def::MdNode;
use crate::external::{ascii_lower, ascii_lowered, is_ascii_chars, is_ws, lower_of, lowercase, push_char, trim_end, trim_start, trim_str, trimmed};

verus! {

/// A character that canonical ids spell as a dash.
pub open spec fn is_break(c: char) -> bool {
    c == ' ' || c == '\n' || c == '\r'
}

/// Each maximal run of spaces and line breaks replaced by one dash.
pub open spec fn dash_runs(s: Seq<char>) -> Seq<char>
    decreases s.len(),
{
    if s.len() == 0 {
        s
    } else {
        let p = dash_runs(s.drop_last());
        if !is_break(s.last()) {
            p.push(s.last())
        } else if s.len() >= 2 && is_break(s[s.len() - 2]) {
            p
        } else {
            p.push('-')
        }
    }
}

/// Heading or link-target text with whitespace normalised, before lower-casing.
pub open spec fn normalized(s: Seq<char>) -> Seq<char> {
    dash_runs(trimmed(s))
}

/// The canonical node id of a heading or link-target text.
pub open spec fn canonical(s: Seq<char>) -> Seq<char> {
    lower_of(normalized(s))
}

fn dash_breaks(s: &str) -> (r: String)
    ensures
        r@ == dash_runs(s@),
{
    let n = s.unicode_len();
    let mut out = String::new();
    let mut i: usize = 0;
    while i < n
        invariant
            n == s@.len(),
            i <= n,
            out@ == dash_runs(s@.take(i as int)),
        decreases n - i,
    {
        let c = s.get_char(i);
        assert(s@.take(i + 1).drop_last() =~= s@.take(i as int));
        if !(c == ' ' || c == '\n' || c == '\r') {
            push_char(&mut out, c);
        } else if i == 0 {
            push_char(&mut out, '-');
        } else {
            let p = s.get_char(i - 1);
            if !(p == ' ' || p == '\n' || p == '\r') {
                push_char(&mut out, '-');
            }
        }
        i = i + 1;
    }
    assert(s@.take(n as int) =~= s@);
    out
}

/// Canonical id: surrounding whitespace trimmed, each run of spaces and line
/// breaks turned into one dash, then lower-cased.
pub fn canonicalize_id(id: &str) -> (r: String)
    ensures
        r@ == canonical(id@),
        trimmed(id@).len() == 0 ==> r@.len() == 0,
        is_ascii_chars(id@) ==> r@ == ascii_canonical(id@),
{
    let t = trim_str(id);
    let d = dash_breaks(t);
    proof {
        if is_ascii_chars(id@) {
            lemma_normalized_ascii(id@);
        }
    }
    lowercase(d.as_str())
}

/// The canonical id of ASCII text.
pub open spec fn ascii_canonical(s: Seq<char>) -> Seq<char> {
    ascii_lowered(normalized(s))
}


pub fn starts_with(s: &str, prefix: &str) -> (r: bool)
    ensures
        r == prefix@.is_prefix_of(s@),
{
    let n = s.unicode_len();
    let m = prefix.unicode_len();
    if m > n {
        return false;
    }
    let mut i: usize = 0;
    while i < m
        invariant
            n == s@.len(),
            m == prefix@.len(),
            m <= n,
            i <= m,
            prefix@.take(i as int) =~= s@.subrange(0, i as int),
        decreases m - i,
    {
        if s.get_char(i) != prefix.get_char(i) {
            assert(prefix@[i as int] != s@.subrange(0, m as int)[i as int]);
            return false;
        }
        i = i + 1;
        assert(prefix@.take(i as int) =~= s@.subrange(0, i as int));
    }
    assert(prefix@.take(m as int) =~= prefix@);
    true
}

/// A link element whose target begins with `p`.
pub open spec fn is_link_with(n: MdNode, p: Seq<char>) -> bool {
    n matches MdNode::Link { url, .. } && p.is_prefix_of(url@)
}

/// The links among `cs` whose target begins with `p`, in order.
pub open spec fn links_with(cs: Seq<MdNode>, p: Seq<char>) -> Seq<MdNode>
    decreases cs.len(),
{
    if cs.len() == 0 {
        Seq::empty()
    } else if is_link_with(cs.last(), p) {
        links_with(cs.drop_last(), p).push(cs.last())
    } else {
        links_with(cs.drop_last(), p)
    }
}

/// The inline children of a paragraph; no children for any other element.
pub open spec fn para_children(n: MdNode) -> Seq<MdNode> {
    match n {
        MdNode::Paragraph(cs) => cs@,
        _ => Seq::empty(),
    }
}

/// The links of a paragraph whose target begins with `prefix`, in document
/// order; `None` where there is none.
pub fn extract_links_with_prefix<'a>(node: &'a MdNode, prefix: &str) -> (r: Option<
    Vec<&'a MdNode>,
>)
    ensures
        r is None <==> links_with(para_children(*node), prefix@).len() == 0,
        r matches Some(v) ==> v@.len() == links_with(para_children(*node), prefix@).len() && (
        forall|k: int|
            0 <= k < v@.len() ==> *v@[k] == #[trigger] links_with(
                para_children(*node),
                prefix@,
            )[k]),
{
    let mut out: Vec<&'a MdNode> = Vec::new();
    if let MdNode::Paragraph(cs) = node {
        let mut i: usize = 0;
        while i < cs.len()
            invariant
                i <= cs@.len(),
                para_children(*node) == cs@,
                out@.len() == links_with(cs@.take(i as int), prefix@).len(),
                forall|k: int|
                    0 <= k < out@.len() ==> *out@[k] == #[trigger] links_with(
                        cs@.take(i as int),
                        prefix@,
                    )[k],
            decreases cs.len() - i,
        {
            let c = &cs[i];
            assert(cs@.take(i + 1).drop_last() =~= cs@.take(i as int));
            if let MdNode::Link { url, .. } = c {
                if starts_with(url.as_str(), prefix) {
                    out.push(c);
                }
            }
            i = i + 1;
        }
        assert(cs@.take(cs@.len() as int) =~= cs@);
    }
    if out.len() == 0 {
        None
    } else {
        Some(out)
    }
}


proof fn lemma_dash_runs_no_breaks(s: Seq<char>)
    ensures
        forall|k: int| 0 <= k < dash_runs(s).len() ==> !is_break(#[trigger] dash_runs(s)[k]),
    decreases s.len(),
{
    if s.len() > 0 {
        let p = dash_runs(s.drop_last());
        lemma_dash_runs_no_breaks(s.drop_last());
        assert forall|k: int| 0 <= k < dash_runs(s).len() implies !is_break(
            #[trigger] dash_runs(s)[k],
        ) by {
            if k < p.len() {
                assert(dash_runs(s)[k] == p[k]);
            }
        }
    }
}

proof fn lemma_dash_runs_keeps(s: Seq<char>)
    requires
        forall|k: int| 0 <= k < s.len() ==> !is_break(#[trigger] s[k]),
    ensures
        dash_runs(s) == s,
    decreases s.len(),
{
    if s.len() > 0 {
        lemma_dash_runs_keeps(s.drop_last());
        assert(s.drop_last().push(s.last()) =~= s);
    }
}

proof fn lemma_dash_runs_ends(s: Seq<char>)
    requires
        s.len() > 0,
        !is_break(s[0]),
    ensures
        dash_runs(s).len() > 0,
        dash_runs(s)[0] == s[0],
        !is_break(s.last()) ==> dash_runs(s).last() == s.last(),
    decreases s.len(),
{
    let p = dash_runs(s.drop_last());
    if s.len() > 1 {
        lemma_dash_runs_ends(s.drop_last());
        assert(s.drop_last()[0] == s[0]);
        assert(dash_runs(s)[0] == p[0]);
    } else {
        assert(p.len() == 0);
    }
}

proof fn lemma_trim_start_shape(s: Seq<char>)
    ensures
        trim_start(s).len() == 0 || !is_ws(trim_start(s)[0]),
    decreases s.len(),
{
    if s.len() > 0 && is_ws(s[0]) {
        lemma_trim_start_shape(s.drop_first());
    }
}

proof fn lemma_trim_end_shape(s: Seq<char>)
    requires
        s.len() == 0 || !is_ws(s[0]),
    ensures
        trim_end(s).len() == 0 || (!is_ws(trim_end(s)[0]) && !is_ws(trim_end(s).last())),
    decreases s.len(),
{
    if s.len() > 0 && is_ws(s.last()) {
        lemma_trim_end_shape(s.drop_last());
    }
}

/// Whitespace normalisation is idempotent.
pub proof fn lemma_normalized_idempotent(s: Seq<char>)
    ensures
        normalized(normalized(s)) == normalized(s),
{
    let t = trimmed(s);
    lemma_trim_start_shape(s);
    lemma_trim_end_shape(trim_start(s));
    let d = dash_runs(t);
    lemma_dash_runs_no_breaks(t);
    if t.len() > 0 {
        lemma_dash_runs_ends(t);
        assert(trim_start(d) == d);
        assert(trim_end(d) == d);
    }
    lemma_dash_runs_no_breaks(d);
    lemma_dash_runs_keeps(trimmed(d));
}

/// Canonical ids see text only through its whitespace-normalised form: text
/// and its normalised form get the same id.
pub proof fn lemma_canonical_whitespace_insensitive(s: Seq<char>)
    ensures
        canonical(normalized(s)) == canonical(s),
{
    lemma_normalized_idempotent(s);
}

proof fn lemma_trim_start_ascii(s: Seq<char>)
    requires
        is_ascii_chars(s),
    ensures
        is_ascii_chars(trim_start(s)),
        trim_start(ascii_lowered(s)) == ascii_lowered(trim_start(s)),
    decreases s.len(),
{
    if s.len() > 0 {
        assert(ascii_lowered(s).drop_first() =~= ascii_lowered(s.drop_first()));
        assert(ascii_lowered(s)[0] == ascii_lower(s[0]));
        if is_ws(s[0]) {
            lemma_trim_start_ascii(s.drop_first());
        }
    } else {
        assert(ascii_lowered(s) =~= s);
    }
}

proof fn lemma_trim_end_ascii(s: Seq<char>)
    requires
        is_ascii_chars(s),
    ensures
        is_ascii_chars(trim_end(s)),
        trim_end(ascii_lowered(s)) == ascii_lowered(trim_end(s)),
    decreases s.len(),
{
    if s.len() > 0 {
        assert(ascii_lowered(s).drop_last() =~= ascii_lowered(s.drop_last()));
        assert(ascii_lowered(s).last() == ascii_lower(s.last()));
        if is_ws(s.last()) {
            lemma_trim_end_ascii(s.drop_last());
        }
    } else {
        assert(ascii_lowered(s) =~= s);
    }
}

proof fn lemma_dash_runs_ascii(s: Seq<char>)
    requires
        is_ascii_chars(s),
    ensures
        is_ascii_chars(dash_runs(s)),
        dash_runs(ascii_lowered(s)) == ascii_lowered(dash_runs(s)),
    decreases s.len(),
{
    if s.len() > 0 {
        let l = ascii_lowered(s);
        assert(l.drop_last() =~= ascii_lowered(s.drop_last()));
        lemma_dash_runs_ascii(s.drop_last());
        let p = dash_runs(s.drop_last());
        assert(l.last() == ascii_lower(s.last()));
        if s.len() >= 2 {
            assert(l[s.len() - 2] == ascii_lower(s[s.len() - 2]));
        }
        assert(ascii_lowered(p.push(s.last())) =~= ascii_lowered(p).push(ascii_lower(s.last())));
        assert(ascii_lowered(p.push('-')) =~= ascii_lowered(p).push('-'));
        assert forall|i: int| 0 <= i < dash_runs(s).len() implies (#[trigger] dash_runs(s)[i] as u32)
            < 128 by {
            if i < p.len() {
                assert(dash_runs(s)[i] == p[i]);
            }
        }
    } else {
        assert(ascii_lowered(s) =~= s);
    }
}

proof fn lemma_normalized_ascii(s: Seq<char>)
    requires
        is_ascii_chars(s),
    ensures
        is_ascii_chars(normalized(s)),
        normalized(ascii_lowered(s)) == ascii_lowered(normalized(s)),
{
    lemma_trim_start_ascii(s);
    lemma_trim_end_ascii(trim_start(s));
    lemma_dash_runs_ascii(trimmed(s));
}

proof fn lemma_lowered_ascii(s: Seq<char>)
    requires
        is_ascii_chars(s),
    ensures
        is_ascii_chars(ascii_lowered(s)),
        ascii_lowered(ascii_lowered(s)) == ascii_lowered(s),
{
    assert(ascii_lowered(ascii_lowered(s)) =~= ascii_lowered(s));
}

proof fn lemma_ascii_canonical_of_lowered(s: Seq<char>)
    requires
        is_ascii_chars(s),
    ensures
        ascii_canonical(ascii_lowered(s)) == ascii_canonical(s),
{
    lemma_normalized_ascii(s);
    lemma_lowered_ascii(normalized(s));
}

/// On ASCII text, canonical ids are case-insensitive: two texts that differ
/// only in the case of their letters get the same id.
pub proof fn lemma_ascii_canonical_case_insensitive(s: Seq<char>, t: Seq<char>)
    requires
        is_ascii_chars(s),
        is_ascii_chars(t),
        ascii_lowered(s) == ascii_lowered(t),
    ensures
        ascii_canonical(s) == ascii_canonical(t),
{
    lemma_ascii_canonical_of_lowered(s);
    lemma_ascii_canonical_of_lowered(t);
}

/// On ASCII text, canonicalising twice is canonicalising once.
pub proof fn lemma_ascii_canonical_idempotent(s: Seq<char>)
    requires
        is_ascii_chars(s),
    ensures
        is_ascii_chars(ascii_canonical(s)),
        ascii_canonical(ascii_canonical(s)) == ascii_canonical(s),
{
    let n = normalized(s);
    lemma_normalized_ascii(s);
    lemma_lowered_ascii(n);
    lemma_normalized_idempotent(s);
    lemma_normalized_ascii(n);
}

proof fn lemma_dash_runs_concat(x: Seq<char>, y: Seq<char>)
    requires
        x.len() == 0 || y.len() == 0 || !is_break(x.last()) || !is_break(y[0]),
    ensures
        dash_runs(x + y) == dash_runs(x) + dash_runs(y),
    decreases y.len(),
{
    if y.len() == 0 {
        assert(x + y =~= x);
        assert(dash_runs(x) + dash_runs(y) =~= dash_runs(x));
    } else {
        let xy = x + y;
        assert(xy.drop_last() =~= x + y.drop_last());
        assert(xy.last() == y.last());
        lemma_dash_runs_concat(x, y.drop_last());
        if y.len() >= 2 {
            assert(xy[xy.len() - 2] == y[y.len() - 2]);
        } else if x.len() > 0 {
            assert(xy[xy.len() - 2] == x.last());
        }
        let p = dash_runs(x) + dash_runs(y.drop_last());
        assert(p.push(y.last()) =~= dash_runs(x) + dash_runs(y.drop_last()).push(y.last()));
        assert(p.push('-') =~= dash_runs(x) + dash_runs(y.drop_last()).push('-'));
    }
}

proof fn lemma_dash_runs_break_run(r: Seq<char>)
    requires
        r.len() > 0,
        forall|i: int| 0 <= i < r.len() ==> is_break(#[trigger] r[i]),
    ensures
        dash_runs(r) == seq!['-'],
    decreases r.len(),
{
    if r.len() > 1 {
        lemma_dash_runs_break_run(r.drop_last());
    } else {
        assert(dash_runs(r.drop_last()) =~= Seq::<char>::empty());
        assert(Seq::<char>::empty().push('-') =~= seq!['-']);
    }
}

proof fn lemma_trim_start_concat(a: Seq<char>, b: Seq<char>)
    requires
        trim_start(a).len() > 0,
    ensures
        trim_start(a + b) == trim_start(a) + b,
    decreases a.len(),
{
    if a.len() > 0 && is_ws(a[0]) {
        assert((a + b).drop_first() =~= a.drop_first() + b);
        lemma_trim_start_concat(a.drop_first(), b);
    } else {
        assert((a + b)[0] == a[0]);
    }
}

proof fn lemma_trim_end_concat(a: Seq<char>, b: Seq<char>)
    requires
        trim_end(b).len() > 0,
    ensures
        trim_end(a + b) == a + trim_end(b),
    decreases b.len(),
{
    if b.len() > 0 && is_ws(b.last()) {
        assert((a + b).drop_last() =~= a + b.drop_last());
        lemma_trim_end_concat(a, b.drop_last());
    } else {
        assert((a + b).last() == b.last());
    }
}

proof fn lemma_trim_end_keeps(s: Seq<char>)
    requires
        s.len() > 0,
        !is_ws(s.last()),
    ensures
        trim_end(s) == s,
{
}

proof fn lemma_trim_start_keeps(s: Seq<char>)
    requires
        s.len() > 0,
        !is_ws(s[0]),
    ensures
        trim_start(s) == s,
{
}

proof fn lemma_trim_start_ends(s: Seq<char>)
    requires
        s.len() > 0,
        !is_ws(s.last()),
    ensures
        trim_start(s).len() > 0,
        trim_start(s).last() == s.last(),
    decreases s.len(),
{
    if is_ws(s[0]) {
        assert(s.drop_first().last() == s.last());
        lemma_trim_start_ends(s.drop_first());
    }
}

proof fn lemma_trim_end_starts(s: Seq<char>)
    requires
        s.len() > 0,
        !is_ws(s[0]),
    ensures
        trim_end(s).len() > 0,
        trim_end(s)[0] == s[0],
    decreases s.len(),
{
    if is_ws(s.last()) {
        assert(s.drop_last()[0] == s[0]);
        lemma_trim_end_starts(s.drop_last());
    }
}

/// A run of spaces and line breaks between two words becomes one dash of the
/// normalised text: `a`, the run, then `b` normalise to `a` normalised, a dash,
/// and `b` normalised.
pub proof fn lemma_normalized_break_run(a: Seq<char>, r: Seq<char>, b: Seq<char>)
    requires
        a.len() > 0,
        b.len() > 0,
        !is_ws(a.last()),
        !is_ws(b[0]),
        r.len() > 0,
        forall|i: int| 0 <= i < r.len() ==> is_break(#[trigger] r[i]),
    ensures
        normalized(a + r + b) == normalized(a) + seq!['-'] + normalized(b),
{
    let ta = trim_start(a);
    let tb = trim_end(b);
    lemma_trim_start_ends(a);
    lemma_trim_end_starts(b);
    lemma_trim_end_keeps(ta);
    lemma_trim_start_keeps(tb);
    assert(trimmed(a) == ta);
    assert(trimmed(b) == tb);
    lemma_trim_start_concat(a, r + b);
    assert(a + r + b =~= a + (r + b));
    lemma_trim_end_concat(ta + r, b);
    assert(ta + (r + b) =~= (ta + r) + b);
    assert(trimmed(a + r + b) == (ta + r) + tb);
    assert(ta.last() == a.last());
    lemma_dash_runs_concat(ta, r);
    lemma_dash_runs_break_run(r);
    assert((ta + r).last() == r.last());
    lemma_dash_runs_concat(ta + r, tb);
}

/// On ASCII text, a run of spaces and line breaks between two words becomes
/// one dash: the id of `a`, the run, then `b` is the id of `a`, a dash, and the
/// id of `b`.
pub proof fn lemma_ascii_canonical_break_run(a: Seq<char>, r: Seq<char>, b: Seq<char>)
    requires
        is_ascii_chars(a),
        is_ascii_chars(b),
        a.len() > 0,
        b.len() > 0,
        !is_ws(a.last()),
        !is_ws(b[0]),
        r.len() > 0,
        forall|i: int| 0 <= i < r.len() ==> is_break(#[trigger] r[i]),
    ensures
        ascii_canonical(a + r + b) == ascii_canonical(a) + seq!['-'] + ascii_canonical(b),
{
    lemma_normalized_break_run(a, r, b);
    let d = normalized(a) + seq!['-'] + normalized(b);
    assert(ascii_lowered(d) =~= ascii_lowered(normalized(a)) + seq!['-'] + ascii_lowered(
        normalized(b),
    ));
}

} // verus!
