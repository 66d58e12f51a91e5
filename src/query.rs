//! Document trees and path queries over them.
use vstd::prelude::*;

use crate::text::push_str;

verus! {

/// One node of a document tree: an element (with a tag), a text node (with
/// text) or the root of a document (neither).
pub struct Node {
    pub tag: Option<String>,
    pub attrs: Vec<(String, String)>,
    pub children: Vec<Node>,
    pub text: Option<String>,
}

/// One step of a query.
pub enum Step {
    /// The current node is an element with exactly this tag name.
    Tag(String),
    /// Descend: the rest of the query must match one of the direct children.
    Child,
    /// The current node has this attribute with exactly this value.
    AttrIs(String, String),
    /// The current node has this attribute, equal to the value up to case.
    AttrIsNoCase(String, String),
}

/// A query step as a mathematical value.
pub enum StepV {
    Tag(Seq<char>),
    Child,
    AttrIs(Seq<char>, Seq<char>),
    AttrIsNoCase(Seq<char>, Seq<char>),
}

impl View for Step {
    type V = StepV;

    open spec fn view(&self) -> StepV {
        match self {
            Step::Tag(t) => StepV::Tag(t@),
            Step::Child => StepV::Child,
            Step::AttrIs(k, v) => StepV::AttrIs(k@, v@),
            Step::AttrIsNoCase(k, v) => StepV::AttrIsNoCase(k@, v@),
        }
    }
}

/// The steps of a query, as mathematical values.
pub open spec fn steps_view(q: Seq<Step>) -> Seq<StepV> {
    q.map_values(|s: Step| s@)
}

/// What `str::to_lowercase` makes of a string.
pub uninterp spec fn lower_of(s: Seq<char>) -> Seq<char>;

/// Relies on `str::to_lowercase`: its result depends on the characters alone.
#[verifier::external_body]
fn lowercase(s: &String) -> (r: String)
    ensures
        r@ == lower_of(s@),
{
    s.to_lowercase()
}

/// The value of the first attribute named `key` among `attrs[i..]`.
pub open spec fn attr_from(attrs: Seq<(String, String)>, key: Seq<char>, i: int) -> Option<String>
    decreases attrs.len() - i,
{
    if i < 0 || i >= attrs.len() {
        None
    } else if attrs[i].0@ == key {
        Some(attrs[i].1)
    } else {
        attr_from(attrs, key, i + 1)
    }
}

/// The value of the first attribute of `n` named `key`.
pub open spec fn attr_of(n: Node, key: Seq<char>) -> Option<String> {
    attr_from(n.attrs@, key, 0)
}

/// Whether `n` satisfies a step that stays on the current node.
pub open spec fn step_holds(n: Node, s: StepV) -> bool {
    match s {
        StepV::Tag(t) => n.tag matches Some(x) && x@ == t,
        StepV::Child => true,
        StepV::AttrIs(k, v) => attr_of(n, k) matches Some(x) && x@ == v,
        StepV::AttrIsNoCase(k, v) => attr_of(n, k) matches Some(x) && lower_of(x@) == lower_of(v),
    }
}

/// The path (child indices from `n`) of the first node, in document order,
/// that the steps `q[k..]` lead to from `n`.
pub open spec fn locate(n: Node, q: Seq<StepV>, k: int) -> Option<Seq<usize>>
    decreases n, q.len() - k, 0int,
{
    if k < 0 || k >= q.len() {
        Some(Seq::empty())
    } else if q[k] is Child {
        locate_among(n, q, k + 1, 0)
    } else if step_holds(n, q[k]) {
        locate(n, q, k + 1)
    } else {
        None
    }
}

/// The first match of `q[k..]` from one of the children `i..` of `n`,
/// prefixed by that child's index.
pub open spec fn locate_among(n: Node, q: Seq<StepV>, k: int, i: int) -> Option<Seq<usize>>
    decreases n, q.len() - k, n.children@.len() - i,
{
    if i < 0 || i >= n.children@.len() {
        None
    } else {
        match locate(n.children@[i], q, k) {
            Some(p) => Some(seq![i as usize] + p),
            None => locate_among(n, q, k, i + 1),
        }
    }
}

/// The path of the first node, in document order, that the query `q` matches
/// from `root`.
pub open spec fn query_spec(root: Node, q: Seq<StepV>) -> Option<Seq<usize>> {
    locate(root, q, 0)
}

fn step_holds_exec(n: &Node, s: &Step) -> (r: bool)
    ensures
        r == step_holds(*n, s@),
{
    match s {
        Step::Tag(t) => match &n.tag {
            Some(x) => x.eq(t),
            None => false,
        },
        Step::Child => true,
        Step::AttrIs(k, v) => match get_attr(n, k) {
            Some(x) => x.eq(v),
            None => false,
        },
        Step::AttrIsNoCase(k, v) => match get_attr(n, k) {
            Some(x) => lowercase(x).eq(&lowercase(v)),
            None => false,
        },
    }
}

/// The value of the first attribute of `n` named `key`, if any.
pub fn get_attr<'a>(n: &'a Node, key: &String) -> (r: Option<&'a String>)
    ensures
        match r {
            Some(x) => attr_of(*n, key@) == Some(*x),
            None => attr_of(*n, key@) is None,
        },
{
    let mut i: usize = 0;
    while i < n.attrs.len()
        invariant
            i <= n.attrs@.len(),
            attr_of(*n, key@) == attr_from(n.attrs@, key@, i as int),
        decreases n.attrs@.len() - i,
    {
        if n.attrs[i].0.eq(key) {
            return Some(&n.attrs[i].1);
        }
        i += 1;
    }
    None
}

fn locate_exec(n: &Node, q: &Vec<Step>, k: usize) -> (r: Option<Vec<usize>>)
    requires
        k <= q@.len(),
    ensures
        match r {
            Some(p) => locate(*n, steps_view(q@), k as int) == Some(p@),
            None => locate(*n, steps_view(q@), k as int) is None,
        },
    decreases n, q@.len() - k, 0int,
{
    if k >= q.len() {
        return Some(Vec::new());
    }
    match &q[k] {
        Step::Child => locate_among_exec(n, q, k + 1),
        s => {
            if step_holds_exec(n, s) {
                locate_exec(n, q, k + 1)
            } else {
                None
            }
        },
    }
}

fn locate_among_exec(n: &Node, q: &Vec<Step>, k: usize) -> (r: Option<Vec<usize>>)
    requires
        k <= q@.len(),
    ensures
        match r {
            Some(p) => locate_among(*n, steps_view(q@), k as int, 0) == Some(p@),
            None => locate_among(*n, steps_view(q@), k as int, 0) is None,
        },
    decreases n, q@.len() - k, n.children@.len() + 1,
{
    let mut i: usize = 0;
    while i < n.children.len()
        invariant
            i <= n.children@.len(),
            k <= q@.len(),
            locate_among(*n, steps_view(q@), k as int, 0) == locate_among(*n, steps_view(q@), k as int, i as int),
        decreases n.children@.len() - i,
    {
        match locate_exec(&n.children[i], q, k) {
            Some(p) => {
                let mut path: Vec<usize> = Vec::new();
                path.push(i);
                let mut tail = p;
                path.append(&mut tail);
                assert(path@ =~= seq![i] + p@);
                return Some(path);
            },
            None => {},
        }
        i += 1;
    }
    None
}

/// The node that the path `p` of child indices leads to from `n`.
pub open spec fn node_at(n: Node, p: Seq<usize>) -> Option<Node>
    decreases p.len(),
{
    if p.len() == 0 {
        Some(n)
    } else if p[0] < n.children@.len() {
        node_at(n.children@[p[0] as int], p.drop_first())
    } else {
        None
    }
}

/// `b` is `a` with the children of the node at path `p` replaced by `cs`,
/// and nothing else changed.
pub open spec fn children_replaced(a: Node, b: Node, p: Seq<usize>, cs: Seq<Node>) -> bool
    decreases p.len(),
{
    &&& a.tag == b.tag
    &&& a.attrs == b.attrs
    &&& a.text == b.text
    &&& if p.len() == 0 {
        b.children@ == cs
    } else {
        &&& p[0] < a.children@.len()
        &&& b.children@.len() == a.children@.len()
        &&& forall|j: int|
            0 <= j < a.children@.len() && j != p[0] ==> b.children@[j] == a.children@[j]
        &&& children_replaced(
            a.children@[p[0] as int],
            b.children@[p[0] as int],
            p.drop_first(),
            cs,
        )
    }
}

/// Where `b` is `a` with the children at `p` replaced by `cs`, the path
/// still leads to a node in `b`, and its children are `cs`.
pub proof fn lemma_replaced_at(a: Node, b: Node, p: Seq<usize>, cs: Seq<Node>)
    requires
        children_replaced(a, b, p, cs),
    ensures
        node_at(b, p) matches Some(h) && h.children@ == cs,
    decreases p.len(),
{
    if p.len() > 0 {
        lemma_replaced_at(a.children@[p[0] as int], b.children@[p[0] as int], p.drop_first(), cs);
    }
}

proof fn lemma_locate_valid(n: Node, q: Seq<StepV>, k: int)
    ensures
        locate(n, q, k) matches Some(p) ==> node_at(n, p) is Some,
    decreases n, q.len() - k, 0int,
{
    if 0 <= k < q.len() {
        if q[k] is Child {
            lemma_among_valid(n, q, k + 1, 0);
        } else {
            lemma_locate_valid(n, q, k + 1);
        }
    } else {
        assert(node_at(n, Seq::empty()) == Some(n));
    }
}

proof fn lemma_among_valid(n: Node, q: Seq<StepV>, k: int, i: int)
    ensures
        locate_among(n, q, k, i) matches Some(p) ==> node_at(n, p) is Some,
    decreases n, q.len() - k, n.children@.len() - i,
{
    if 0 <= i < n.children@.len() {
        lemma_locate_valid(n.children@[i], q, k);
        lemma_among_valid(n, q, k, i + 1);
        assert(n.children@.len() == n.children.len());
        if let Some(p) = locate(n.children@[i], q, k) {
            let full = seq![i as usize] + p;
            assert(full.drop_first() =~= p);
            assert(full[0] == i as usize);
        }
    }
}

/// The path of the first node, in document order, that `q` matches from
/// `root`. This is the matching core of both traversals: `query` reads the
/// node, `swap_children_at` changes it.
pub fn query_path(root: &Node, q: &Vec<Step>) -> (r: Option<Vec<usize>>)
    ensures
        match r {
            Some(p) => query_spec(*root, steps_view(q@)) == Some(p@) && node_at(*root, p@) is Some,
            None => query_spec(*root, steps_view(q@)) is None,
        },
{
    proof {
        lemma_locate_valid(*root, steps_view(q@), 0);
    }
    locate_exec(root, q, 0)
}

/// The node at path `p` from `n`.
pub fn node_at_path<'a>(n: &'a Node, p: &Vec<usize>) -> (r: Option<&'a Node>)
    ensures
        match r {
            Some(x) => node_at(*n, p@) == Some(*x),
            None => node_at(*n, p@) is None,
        },
{
    let mut cur = n;
    let mut d: usize = 0;
    assert(p@.subrange(0, p@.len() as int) =~= p@);
    while d < p.len()
        invariant
            d <= p@.len(),
            node_at(*n, p@) == node_at(*cur, p@.subrange(d as int, p@.len() as int)),
        decreases p@.len() - d,
    {
        let ghost rest = p@.subrange(d as int, p@.len() as int);
        assert(rest.drop_first() =~= p@.subrange(d + 1, p@.len() as int));
        if p[d] >= cur.children.len() {
            return None;
        }
        cur = &cur.children[p[d]];
        d += 1;
    }
    assert(p@.subrange(d as int, p@.len() as int).len() == 0);
    Some(cur)
}

/// The first node, in document order, that `q` matches from `root`.
pub fn query<'a>(root: &'a Node, q: &Vec<Step>) -> (r: Option<&'a Node>)
    ensures
        match r {
            Some(x) => query_spec(*root, steps_view(q@)) matches Some(p) && node_at(*root, p) == Some(*x),
            None => query_spec(*root, steps_view(q@)) is None,
        },
{
    proof {
        lemma_locate_valid(*root, steps_view(q@), 0);
    }
    match query_path(root, q) {
        Some(p) => node_at_path(root, &p),
        None => None,
    }
}

fn swap_children_from(n: &mut Node, p: &Vec<usize>, d: usize, cs: Vec<Node>) -> (r: Vec<Node>)
    requires
        d <= p@.len(),
        node_at(*old(n), p@.subrange(d as int, p@.len() as int)) is Some,
    ensures
        children_replaced(*old(n), *final(n), p@.subrange(d as int, p@.len() as int), cs@),
        node_at(*old(n), p@.subrange(d as int, p@.len() as int)) matches Some(x) && r@
            == x.children@,
    decreases p@.len() - d,
{
    let ghost rest = p@.subrange(d as int, p@.len() as int);
    if d == p.len() {
        let mut out = cs;
        std::mem::swap(&mut n.children, &mut out);
        return out;
    }
    assert(rest.drop_first() =~= p@.subrange(d + 1, p@.len() as int));
    let i = p[d];
    let ghost before = n.children@;
    let mut c = n.children.remove(i);
    let r = swap_children_from(&mut c, p, d + 1, cs);
    n.children.insert(i, c);
    assert(n.children@ =~= before.update(i as int, c));
    r
}

/// Mutable traversal: replaces the children of the node at path `p` by `cs`
/// and hands back the children it had.
pub fn swap_children_at(n: &mut Node, p: &Vec<usize>, cs: Vec<Node>) -> (r: Vec<Node>)
    requires
        node_at(*old(n), p@) is Some,
    ensures
        children_replaced(*old(n), *final(n), p@, cs@),
        node_at(*old(n), p@) matches Some(x) && r@ == x.children@,
{
    assert(p@.subrange(0, p@.len() as int) =~= p@);
    swap_children_from(n, p, 0, cs)
}

/// The text that child `c` contributes to its parent's text content: its
/// text, where it is a text node.
pub open spec fn text_piece(c: Node) -> Option<String> {
    if c.tag is None {
        c.text
    } else {
        None
    }
}

/// The text of the text nodes among `cs[..i]`, joined in order.
pub open spec fn texts_upto(cs: Seq<Node>, i: int) -> Seq<char>
    decreases i,
{
    if i <= 0 {
        Seq::empty()
    } else {
        texts_upto(cs, i - 1) + match text_piece(cs[i - 1]) {
            Some(t) => t@,
            None => Seq::empty(),
        }
    }
}

/// The text content of `n`: its text children joined, or nothing where it
/// has none.
pub open spec fn text_content(n: Node) -> Option<Seq<char>> {
    if exists|j: int| 0 <= j < n.children@.len() && text_piece(#[trigger] n.children@[j]) is Some {
        Some(texts_upto(n.children@, n.children@.len() as int))
    } else {
        None
    }
}

/// The tag name of `n`, where it is an element.
pub fn get_name(n: &Node) -> (r: Option<&String>)
    ensures
        match r {
            Some(t) => n.tag == Some(*t),
            None => n.tag is None,
        },
{
    match &n.tag {
        Some(t) => Some(t),
        None => None,
    }
}

/// The text content of `n`: its text children joined in order, or `None`
/// where it has no text child.
pub fn get_text_contents(n: &Node) -> (r: Option<String>)
    ensures
        match r {
            Some(t) => text_content(*n) == Some(t@),
            None => text_content(*n) is None,
        },
{
    let mut acc = String::new();
    let mut found = false;
    let mut i: usize = 0;
    while i < n.children.len()
        invariant
            i <= n.children@.len(),
            acc@ == texts_upto(n.children@, i as int),
            found <==> exists|j: int| 0 <= j < i && text_piece(#[trigger] n.children@[j]) is Some,
        decreases n.children@.len() - i,
    {
        let c = &n.children[i];
        if c.tag.is_none() {
            match &c.text {
                Some(t) => {
                    push_str(&mut acc, t.as_str());
                    found = true;
                },
                None => {},
            }
        }
        proof {
            assert(texts_upto(n.children@, i + 1) == texts_upto(n.children@, i as int) + match text_piece(n.children@[i as int]) {
                Some(t) => t@,
                None => Seq::<char>::empty(),
            });
        }
        i += 1;
    }
    if found {
        Some(acc)
    } else {
        None
    }
}

} // verus!
