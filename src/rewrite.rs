//! Rewriting a gadget's entry document for a modern rendering engine:
//! legacy image elements become `img`, the stale charset declaration goes,
//! and the compatibility shim and the machine statistics are put first in
//! `head`.
use vstd::prelude::*;

use vstd::utf8::encode_utf8;

use html5ever::tendril::TendrilSink;
use markup5ever_rcdom::{Node as DomNode, NodeData};

use crate::decode::{decode_text, decoded, DecodeError};
use crate::html::{document_html, serialize};
use crate::query::{
    children_replaced, lemma_replaced_at, locate, node_at, query_path, query_spec, steps_view, swap_children_at, Node,
    Step, StepV,
};
use crate::text::{push_char, push_str};

verus! {

/// Why a document could not be rewritten.
#[derive(Debug, PartialEq, Eq, Structural)]
pub enum RewriteError {
    /// Its bytes are not text.
    Decode(DecodeError),
    /// It has no `html > head`.
    MissingHead,
}

/// A snapshot of the host machine, as the statistics object reports it.
pub struct MachineStats {
    /// The usage of each processor core in percent, each written as a JSON
    /// number.
    pub cpu_usage: Vec<String>,
    /// Total memory, in bytes.
    pub total_memory: u64,
    /// Available memory, in bytes.
    pub available_memory: u64,
}

/// `s` with every match of `from` replaced by `to`, matches taken from the
/// left and not overlapping.
pub open spec fn replace_all(s: Seq<char>, from: Seq<char>, to: Seq<char>) -> Seq<char>
    decreases s.len(),
{
    if from.len() == 0 || s.len() == 0 {
        s
    } else if s.len() >= from.len() && s.subrange(0, from.len() as int) == from {
        to + replace_all(s.subrange(from.len() as int, s.len() as int), from, to)
    } else {
        seq![s[0]] + replace_all(s.drop_first(), from, to)
    }
}

/// Relies on `str::replace`: replaces every match of a non-empty pattern,
/// scanning from the left.
#[verifier::external_body]
fn replace(s: &str, from: &str, to: &str) -> (r: String)
    requires
        from@.len() > 0,
    ensures
        r@ == replace_all(s@, from@, to@),
{
    s.replace(from, to)
}

/// The text with the legacy `g:background` and `g:image` elements made
/// into `img` elements.
pub open spec fn legacy_substituted(t: Seq<char>) -> Seq<char> {
    replace_all(
        replace_all(
            replace_all(replace_all(t, "<g:background"@, "<img"@), "</g:background"@, "</img"@),
            "<g:image"@,
            "<img"@,
        ),
        "</g:image"@,
        "</img"@,
    )
}

/// Whether `pat` occurs in `s`.
pub open spec fn occurs(s: Seq<char>, pat: Seq<char>) -> bool {
    exists|i: int| 0 <= i && i + pat.len() <= s.len() && #[trigger] s.subrange(i, i + pat.len()) == pat
}

proof fn lemma_replace_absent(s: Seq<char>, from: Seq<char>, to: Seq<char>)
    requires
        !occurs(s, from),
    ensures
        replace_all(s, from, to) == s,
    decreases s.len(),
{
    if from.len() > 0 && s.len() > 0 {
        if s.len() >= from.len() && s.subrange(0, from.len() as int) == from {
            assert(s.subrange(0, 0 + from.len() as int) == from);
        } else {
            let rest = s.drop_first();
            assert forall|i: int| 0 <= i && i + from.len() <= rest.len() implies #[trigger] rest.subrange(i, i + from.len())
                != from by {
                assert(rest.subrange(i, i + from.len()) =~= s.subrange(i + 1, i + 1 + from.len()));
            }
            lemma_replace_absent(rest, from, to);
            assert(seq![s[0]] + rest =~= s);
        }
    }
}

/// A text with none of the legacy tags in it is left as it is.
pub proof fn law_no_legacy_unchanged(t: Seq<char>)
    requires
        !occurs(t, "<g:background"@),
        !occurs(t, "</g:background"@),
        !occurs(t, "<g:image"@),
        !occurs(t, "</g:image"@),
    ensures
        legacy_substituted(t) == t,
{
    lemma_replace_absent(t, "<g:background"@, "<img"@);
    lemma_replace_absent(t, "</g:background"@, "</img"@);
    lemma_replace_absent(t, "<g:image"@, "<img"@);
    lemma_replace_absent(t, "</g:image"@, "</img"@);
}

/// Makes the legacy `g:background` and `g:image` elements into `img`
/// elements, by their opening and closing tags; attributes stay as written.
pub fn substitute_legacy(t: &str) -> (r: String)
    ensures
        r@ == legacy_substituted(t@),
{
    proof {
        reveal_strlit("<g:background");
        reveal_strlit("</g:background");
        reveal_strlit("<g:image");
        reveal_strlit("</g:image");
    }
    let a = replace(t, "<g:background", "<img");
    let b = replace(a.as_str(), "</g:background", "</img");
    let c = replace(b.as_str(), "<g:image", "<img");
    replace(c.as_str(), "</g:image", "</img")
}

/// html5ever's DOM node, carried only between its parser and
/// `node_of_rcdom`.
#[verifier::external_type_specification]
#[verifier::external_body]
pub struct ExDomNode(DomNode);

/// The tree that html5ever's parser builds from a text.
pub uninterp spec fn html_tree(text: Seq<char>) -> Node;

/// The conversion half of `parse_html`, recursive and so a function of its
/// own. Converts html5ever's tree into a `Node` tree: elements keep their tag,
/// attributes and children, text nodes their text; other nodes become empty
/// nodes.
#[verifier::external_body]
fn node_of_rcdom(h: &std::rc::Rc<DomNode>) -> Node {
    let children = h.children.borrow().iter().map(node_of_rcdom).collect();
    match &h.data {
        NodeData::Element { name, attrs, .. } => Node {
            tag: Some(name.local.to_string()),
            attrs: attrs.borrow().iter().map(|a| (a.name.local.to_string(), a.value.to_string())).collect(),
            children,
            text: None,
        },
        NodeData::Text { contents } => Node { tag: None, attrs: Vec::new(), children, text: Some(contents.borrow().to_string()) },
        _ => Node { tag: None, attrs: Vec::new(), children, text: None },
    }
}

/// Relies on `html5ever::parse_document`: parses HTML the way browsers do,
/// which never fails and depends on the text alone.
#[verifier::external_body]
fn parse_html(text: &str) -> (r: Node)
    ensures
        r == html_tree(text@),
{
    let sink = markup5ever_rcdom::RcDom::default();
    let dom = html5ever::parse_document(sink, Default::default()).one(text);
    node_of_rcdom(&dom.document)
}

/// Parses a legacy document: its legacy image elements made into `img`
/// elements first, since the parser does not know their namespace.
pub fn parse_legacy_html(text: &str) -> (r: Node)
    ensures
        r == html_tree(legacy_substituted(text@)),
{
    let substituted = substitute_legacy(text);
    parse_html(substituted.as_str())
}

/// The character of a decimal digit.
pub open spec fn digit_char(d: nat) -> char {
    seq!['0', '1', '2', '3', '4', '5', '6', '7', '8', '9'][d as int]
}

/// `n` in decimal.
pub open spec fn decimal(n: nat) -> Seq<char>
    decreases n,
{
    if n < 10 {
        seq![digit_char(n)]
    } else {
        decimal(n / 10) + seq![digit_char(n % 10)]
    }
}

fn push_decimal(out: &mut String, n: u64)
    ensures
        final(out)@ == old(out)@ + decimal(n as nat),
    decreases n,
{
    let digits: [char; 10] = ['0', '1', '2', '3', '4', '5', '6', '7', '8', '9'];
    assert(digits@ == seq!['0', '1', '2', '3', '4', '5', '6', '7', '8', '9']);
    if n >= 10 {
        push_decimal(out, n / 10);
    }
    push_char(out, digits[(n % 10) as usize]);
    assert(out@ =~= old(out)@ + decimal(n as nat));
}

/// The per-core entries of the statistics object, for the first `k` cores.
pub open spec fn cpus_json(c: Seq<String>, k: int) -> Seq<char>
    decreases k,
{
    if k <= 0 || k > c.len() {
        Seq::empty()
    } else {
        cpus_json(c, k - 1) + (if k > 1 {
            ","@
        } else {
            Seq::empty()
        }) + "{\"usagePercentage\":"@ + c[k - 1]@ + "}"@
    }
}

/// The statistics object as JSON, keys in sorted order, memory in megabytes
/// (millions of bytes, rounded down).
pub open spec fn stats_json_spec(s: MachineStats) -> Seq<char> {
    "{\"CPUs\":["@ + cpus_json(s.cpu_usage@, s.cpu_usage@.len() as int) + "],\"availableMemory\":"@
        + decimal(s.available_memory as nat / 1_000_000) + ",\"totalMemory\":"@ + decimal(
        s.total_memory as nat / 1_000_000,
    ) + "}"@
}

fn push_stats_json(out: &mut String, s: &MachineStats)
    ensures
        final(out)@ == old(out)@ + stats_json_spec(*s),
{
    push_str(out, "{\"CPUs\":[");
    let ghost start = out@;
    let mut i: usize = 0;
    while i < s.cpu_usage.len()
        invariant
            i <= s.cpu_usage@.len(),
            start == old(out)@ + "{\"CPUs\":["@,
            out@ == start + cpus_json(s.cpu_usage@, i as int),
        decreases s.cpu_usage@.len() - i,
    {
        if i > 0 {
            push_str(out, ",");
        }
        push_str(out, "{\"usagePercentage\":");
        push_str(out, s.cpu_usage[i].as_str());
        push_str(out, "}");
        i += 1;
        assert(out@ =~= start + cpus_json(s.cpu_usage@, i as int));
    }
    push_str(out, "],\"availableMemory\":");
    push_decimal(out, s.available_memory / 1_000_000);
    push_str(out, ",\"totalMemory\":");
    push_decimal(out, s.total_memory / 1_000_000);
    push_str(out, "}");
    assert(out@ =~= old(out)@ + stats_json_spec(*s));
}

/// The statistics object of `s` as JSON.
pub fn stats_json(s: &MachineStats) -> (r: String)
    ensures
        r@ == stats_json_spec(*s),
{
    let mut out = String::new();
    push_stats_json(&mut out, s);
    assert(out@ =~= stats_json_spec(*s));
    out
}

/// The script that hands the statistics to a loaded document.
pub open spec fn refresh_script(s: MachineStats) -> Seq<char> {
    "window.System.Machine = "@ + stats_json_spec(s)
}

/// The script statement that the rewritten document opens with.
pub open spec fn stats_script(s: MachineStats) -> Seq<char> {
    refresh_script(s) + ";"@
}

/// The script that hands fresh statistics to a loaded document; the stored
/// document is not touched.
pub fn update_machine_stats(s: &MachineStats) -> (r: String)
    ensures
        r@ == refresh_script(*s),
{
    let mut out = String::new();
    push_str(&mut out, "window.System.Machine = ");
    push_stats_json(&mut out, s);
    out
}

/// `n` is a `script` element holding the text `body` and nothing else.
pub open spec fn is_script(n: Node, body: Seq<char>) -> bool {
    &&& n.tag matches Some(t) && t@ == "script"@
    &&& n.attrs@.len() == 2
    &&& n.attrs@[0].0@ == "type"@ && n.attrs@[0].1@ == "text/javascript"@
    &&& n.attrs@[1].0@ == "language"@ && n.attrs@[1].1@ == "javascript"@
    &&& n.text is None
    &&& n.children@.len() == 1
    &&& n.children@[0].tag is None
    &&& n.children@[0].attrs@.len() == 0
    &&& n.children@[0].children@.len() == 0
    &&& n.children@[0].text matches Some(x) && x@ == body
}

/// A `script` element holding `body`.
pub fn script_node(body: &str) -> (r: Node)
    ensures
        is_script(r, body@),
{
    let text = Node { tag: None, attrs: Vec::new(), children: Vec::new(), text: Some(body.to_owned()) };
    let mut attrs: Vec<(String, String)> = Vec::new();
    attrs.push(("type".to_owned(), "text/javascript".to_owned()));
    attrs.push(("language".to_owned(), "javascript".to_owned()));
    let mut children: Vec<Node> = Vec::new();
    children.push(text);
    Node { tag: Some("script".to_owned()), attrs, children, text: None }
}

/// The query for a `meta` element that declares a content type, whatever
/// the case of `http-equiv`'s value.
pub open spec fn stale_meta_query() -> Seq<StepV> {
    seq![StepV::Tag("meta"@), StepV::AttrIsNoCase("http-equiv"@, "content-type"@)]
}

/// Whether `c` is a stale charset declaration.
pub open spec fn is_stale_meta(c: Node) -> bool {
    locate(c, stale_meta_query(), 0) is Some
}

/// The first `i` of `cs` without the stale charset declarations.
pub open spec fn kept(cs: Seq<Node>, i: int) -> Seq<Node>
    decreases i,
{
    if i <= 0 || i > cs.len() {
        Seq::empty()
    } else if is_stale_meta(cs[i - 1]) {
        kept(cs, i - 1)
    } else {
        kept(cs, i - 1).push(cs[i - 1])
    }
}

/// The query for a document's `head`.
pub open spec fn head_query() -> Seq<StepV> {
    seq![StepV::Child, StepV::Tag("html"@), StepV::Child, StepV::Tag("head"@)]
}

/// `cs`, the new children of a head that had `old`: the two scripts first,
/// then the old children but the stale charset declarations, in order.
pub open spec fn head_children_ok(cs: Seq<Node>, old: Seq<Node>, shim: Seq<char>, js: Seq<char>) -> bool {
    &&& cs.len() >= 2
    &&& is_script(cs[0], shim)
    &&& is_script(cs[1], js)
    &&& cs.subrange(2, cs.len() as int) == kept(old, old.len() as int)
}

/// `b` is `a` with the head at path `p` rewritten and nothing else changed.
pub open spec fn head_rewritten(a: Node, b: Node, p: Seq<usize>, shim: Seq<char>, js: Seq<char>) -> bool {
    node_at(a, p) matches Some(h) && exists|cs: Seq<Node>|
        children_replaced(a, b, p, cs) && head_children_ok(cs, h.children@, shim, js)
}

fn drop_stale_meta(cs: Vec<Node>, shim: &str, js: &str) -> (r: Vec<Node>)
    ensures
        head_children_ok(r@, cs@, shim@, js@),
{
    let mut q: Vec<Step> = Vec::new();
    q.push(Step::Tag("meta".to_owned()));
    q.push(Step::AttrIsNoCase("http-equiv".to_owned(), "content-type".to_owned()));
    assert(steps_view(q@) =~= stale_meta_query());
    let mut r: Vec<Node> = Vec::new();
    r.push(script_node(shim));
    r.push(script_node(js));
    let mut rest = cs;
    let ghost all = rest@;
    let mut i: usize = 0;
    assert(rest@.len() == rest.len());
    while rest.len() > 0
        invariant
            all.len() <= usize::MAX,
            i + rest@.len() == all.len(),
            rest@ == all.subrange(i as int, all.len() as int),
            r@.len() >= 2,
            is_script(r@[0], shim@),
            is_script(r@[1], js@),
            r@.subrange(2, r@.len() as int) == kept(all, i as int),
            steps_view(q@) == stale_meta_query(),
        decreases rest@.len(),
    {
        let c = rest.remove(0);
        assert(c == all[i as int]);
        let stale = query_path(&c, &q).is_some();
        let ghost before = r@;
        if !stale {
            r.push(c);
            assert(r@.subrange(2, r@.len() as int) =~= before.subrange(2, before.len() as int).push(all[i as int]));
        }
        i += 1;
        assert(rest@ =~= all.subrange(i as int, all.len() as int));
    }
    assert(all.subrange(i as int, all.len() as int).len() == 0);
    r
}

/// Rewrites the head of `doc`: drops its stale charset declarations and
/// puts a script with `shim` and then one with `js` before its children.
pub fn rewrite_head(doc: &mut Node, shim: &str, js: &str) -> (r: Result<(), RewriteError>)
    ensures
        match query_spec(*old(doc), head_query()) {
            None => r == Err::<(), RewriteError>(RewriteError::MissingHead) && *final(doc) == *old(doc),
            Some(p) => r is Ok && head_rewritten(*old(doc), *final(doc), p, shim@, js@),
        },
{
    let mut q: Vec<Step> = Vec::new();
    q.push(Step::Child);
    q.push(Step::Tag("html".to_owned()));
    q.push(Step::Child);
    q.push(Step::Tag("head".to_owned()));
    assert(steps_view(q@) =~= head_query());
    let p = match query_path(doc, &q) {
        Some(p) => p,
        None => return Err(RewriteError::MissingHead),
    };
    let ghost before = *doc;
    let old_children = swap_children_at(doc, &p, Vec::new());
    let new_children = drop_stale_meta(old_children, shim, js);
    let ghost mid = *doc;
    proof {
        lemma_replaced_at(before, mid, p@, Seq::empty());
    }
    swap_children_at(doc, &p, new_children);
    proof {
        lemma_replace_twice(before, mid, *doc, p@, Seq::empty(), new_children@);
    }
    Ok(())
}

proof fn lemma_replace_twice(a: Node, b: Node, c: Node, p: Seq<usize>, cs1: Seq<Node>, cs2: Seq<Node>)
    requires
        children_replaced(a, b, p, cs1),
        children_replaced(b, c, p, cs2),
    ensures
        children_replaced(a, c, p, cs2),
    decreases p.len(),
{
    if p.len() > 0 {
        let i = p[0] as int;
        lemma_replace_twice(a.children@[i], b.children@[i], c.children@[i], p.drop_first(), cs1, cs2);
    }
}

proof fn lemma_kept_all(cs: Seq<Node>, i: int)
    requires
        0 <= i <= cs.len(),
        forall|j: int| 0 <= j < cs.len() ==> !is_stale_meta(#[trigger] cs[j]),
    ensures
        kept(cs, i) == cs.subrange(0, i),
    decreases i,
{
    if i > 0 {
        lemma_kept_all(cs, i - 1);
        assert(cs.subrange(0, i) =~= cs.subrange(0, i - 1).push(cs[i - 1]));
    } else {
        assert(cs.subrange(0, 0) =~= Seq::<Node>::empty());
    }
}

proof fn lemma_kept_clean(cs: Seq<Node>, i: int)
    ensures
        forall|j: int| 0 <= j < kept(cs, i).len() ==> !is_stale_meta(#[trigger] kept(cs, i)[j]),
    decreases i,
{
    if i > 0 && i <= cs.len() {
        lemma_kept_clean(cs, i - 1);
        let prev = kept(cs, i - 1);
        if !is_stale_meta(cs[i - 1]) {
            assert forall|j: int| 0 <= j < kept(cs, i).len() implies !is_stale_meta(#[trigger] kept(cs, i)[j]) by {
                if j < prev.len() {
                    assert(kept(cs, i)[j] == prev[j]);
                }
            }
        }
    }
}

proof fn lemma_script_not_stale(n: Node, body: Seq<char>)
    requires
        is_script(n, body),
    ensures
        !is_stale_meta(n),
{
    reveal_strlit("script");
    reveal_strlit("meta");
    assert("script"@ != "meta"@) by {
        assert("script"@.len() != "meta"@.len());
    }
}

/// A head without stale charset declarations keeps all its children when
/// rewritten: it ends up with exactly two more, the shim script first, the
/// statistics script second, and the old children after them in their
/// order.
pub proof fn law_head_gains_two_scripts(a: Node, b: Node, p: Seq<usize>, shim: Seq<char>, js: Seq<char>)
    requires
        head_rewritten(a, b, p, shim, js),
        node_at(a, p) matches Some(h) && forall|j: int|
            0 <= j < h.children@.len() ==> !is_stale_meta(#[trigger] h.children@[j]),
    ensures
        node_at(a, p) matches Some(h) && node_at(b, p) matches Some(h2) && {
            &&& h2.children@.len() == h.children@.len() + 2
            &&& is_script(h2.children@[0], shim)
            &&& is_script(h2.children@[1], js)
            &&& h2.children@.subrange(2, h2.children@.len() as int) == h.children@
        },
{
    let h = node_at(a, p)->Some_0;
    let cs = choose|cs: Seq<Node>| children_replaced(a, b, p, cs) && head_children_ok(cs, h.children@, shim, js);
    lemma_replaced_at(a, b, p, cs);
    lemma_kept_all(h.children@, h.children@.len() as int);
    assert(h.children@.subrange(0, h.children@.len() as int) =~= h.children@);
}

/// A rewritten head holds no `meta` element that declares a content type,
/// whatever the case of its `http-equiv` value.
pub proof fn law_no_stale_meta_left(a: Node, b: Node, p: Seq<usize>, shim: Seq<char>, js: Seq<char>)
    requires
        head_rewritten(a, b, p, shim, js),
    ensures
        node_at(b, p) matches Some(h2) && forall|j: int|
            0 <= j < h2.children@.len() ==> !is_stale_meta(#[trigger] h2.children@[j]),
{
    let h = node_at(a, p)->Some_0;
    let cs = choose|cs: Seq<Node>| children_replaced(a, b, p, cs) && head_children_ok(cs, h.children@, shim, js);
    lemma_replaced_at(a, b, p, cs);
    lemma_kept_clean(h.children@, h.children@.len() as int);
    lemma_script_not_stale(cs[0], shim);
    lemma_script_not_stale(cs[1], js);
    assert forall|j: int| 0 <= j < cs.len() implies !is_stale_meta(#[trigger] cs[j]) by {
        if j >= 2 {
            assert(cs[j] == cs.subrange(2, cs.len() as int)[j - 2]);
        }
    }
}

/// What rewriting the entry document `raw` gives: the decoding error, the
/// missing head, or the text of the parsed document with its head rewritten.
pub open spec fn rewrite_outcome(
    raw: Seq<u8>,
    shim: Seq<char>,
    stats: MachineStats,
    r: Result<Seq<char>, RewriteError>,
) -> bool {
    match decoded(raw) {
        Err(e) => r == Err::<Seq<char>, RewriteError>(RewriteError::Decode(e)),
        Ok(t) => {
            let doc = html_tree(legacy_substituted(t));
            match query_spec(doc, head_query()) {
                None => r == Err::<Seq<char>, RewriteError>(RewriteError::MissingHead),
                Some(p) => r matches Ok(out) && exists|d: Node|
                    head_rewritten(doc, d, p, shim, stats_script(stats)) && out == document_html(d),
            }
        },
    }
}

/// Rewriting a document without legacy tags and without stale charset
/// declarations keeps every head child, in order, after the two scripts:
/// the written document is that of a tree whose head has exactly two
/// children more, the shim script then the statistics script first.
pub proof fn law_rewrite_round_trip(raw: Seq<u8>, shim: Seq<char>, stats: MachineStats, out: Seq<char>)
    requires
        rewrite_outcome(raw, shim, stats, Ok(out)),
        decoded(raw) matches Ok(t) && {
            &&& !occurs(t, "<g:background"@)
            &&& !occurs(t, "</g:background"@)
            &&& !occurs(t, "<g:image"@)
            &&& !occurs(t, "</g:image"@)
            &&& query_spec(html_tree(t), head_query()) matches Some(p) && node_at(html_tree(t), p) matches Some(h)
                && forall|j: int| 0 <= j < h.children@.len() ==> !is_stale_meta(#[trigger] h.children@[j])
        },
    ensures
        exists|d: Node|
            out == document_html(d) && {
                let doc = html_tree(decoded(raw)->Ok_0);
                let p = query_spec(doc, head_query())->Some_0;
                node_at(doc, p) matches Some(h) && node_at(d, p) matches Some(h2) && {
                    &&& h2.children@.len() == h.children@.len() + 2
                    &&& is_script(h2.children@[0], shim)
                    &&& is_script(h2.children@[1], stats_script(stats))
                    &&& h2.children@.subrange(2, h2.children@.len() as int) == h.children@
                }
            },
{
    let t = decoded(raw)->Ok_0;
    law_no_legacy_unchanged(t);
    let doc = html_tree(t);
    let p = query_spec(doc, head_query())->Some_0;
    let d = choose|d: Node| head_rewritten(doc, d, p, shim, stats_script(stats)) && out == document_html(d);
    law_head_gains_two_scripts(doc, d, p, shim, stats_script(stats));
}

/// What `inject_polyfill` hands back: the UTF-8 bytes of the rewritten
/// document, or the error.
pub open spec fn injected(raw: Seq<u8>, shim: Seq<char>, stats: MachineStats, r: Result<Vec<u8>, RewriteError>) -> bool {
    match r {
        Ok(b) => exists|t: Seq<char>| rewrite_outcome(raw, shim, stats, Ok(t)) && b@ == encode_utf8(t),
        Err(e) => rewrite_outcome(raw, shim, stats, Err(e)),
    }
}

/// Rewrites a gadget's entry document: decodes it, makes its legacy image
/// elements into `img`, parses it, drops the stale charset declarations of
/// its head, puts the shim script and the statistics script first in the
/// head, and writes it out as UTF-8 with every element closed.
pub fn inject_polyfill(html: &[u8], shim: &str, stats: &MachineStats) -> (r: Result<Vec<u8>, RewriteError>)
    ensures
        injected(html@, shim@, *stats, r),
{
    let text = match decode_text(html) {
        Ok(t) => t,
        Err(e) => return Err(RewriteError::Decode(e)),
    };
    let mut doc = parse_legacy_html(text.as_str());
    let mut js = update_machine_stats(stats);
    push_str(&mut js, ";");
    match rewrite_head(&mut doc, shim, js.as_str()) {
        Ok(()) => {
            let out = serialize(&doc);
            let bytes = vstd::slice::slice_to_vec(out.as_str().as_bytes());
            assert(rewrite_outcome(html@, shim@, *stats, Ok(out@)));
            Ok(bytes)
        },
        Err(e) => Err(e),
    }
}

} // verus!
