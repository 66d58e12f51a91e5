//! Writing a document tree back out as HTML, with an explicit closing tag
//! for every element.
use vstd::prelude::*;

use crate::query::Node;
use crate::text::{chars_of, push_char, push_str};

verus! {

/// What one character of text or of an attribute value is written as.
pub open spec fn escape_char(c: char, in_attr: bool) -> Seq<char> {
    if c == '&' {
        "&amp;"@
    } else if c == '\u{a0}' {
        "&nbsp;"@
    } else if in_attr && c == '"' {
        "&quot;"@
    } else if !in_attr && c == '<' {
        "&lt;"@
    } else if !in_attr && c == '>' {
        "&gt;"@
    } else {
        seq![c]
    }
}

/// `s` with every character escaped.
pub open spec fn escaped(s: Seq<char>, in_attr: bool) -> Seq<char>
    decreases s.len(),
{
    if s.len() == 0 {
        Seq::empty()
    } else {
        escaped(s.drop_last(), in_attr) + escape_char(s.last(), in_attr)
    }
}

/// Elements whose text is written as it stands.
pub open spec fn raw_text_tag(t: Seq<char>) -> bool {
    t == "script"@ || t == "style"@ || t == "xmp"@ || t == "iframe"@ || t == "noembed"@
        || t == "noframes"@ || t == "plaintext"@ || t == "noscript"@
}

/// The first `k` attributes, each as ` name="value"`.
pub open spec fn attrs_html(a: Seq<(String, String)>, k: int) -> Seq<char>
    decreases k,
{
    if k <= 0 || k > a.len() {
        Seq::empty()
    } else {
        attrs_html(a, k - 1) + " "@ + a[k - 1].0@ + "=\""@ + escaped(a[k - 1].1@, true) + "\""@
    }
}

/// The HTML of node `n`; `raw` says whether its parent is an element whose
/// text stands unescaped.
pub open spec fn html_of(n: Node, raw: bool) -> Seq<char>
    decreases n, n.children@.len() + 1,
{
    match n.tag {
        Some(t) => "<"@ + t@ + attrs_html(n.attrs@, n.attrs@.len() as int) + ">"@ + kids_html(
            n,
            n.children@.len() as int,
            raw_text_tag(t@),
        ) + "</"@ + t@ + ">"@,
        None => match n.text {
            Some(x) => if raw {
                x@
            } else {
                escaped(x@, false)
            },
            None => kids_html(n, n.children@.len() as int, false),
        },
    }
}

/// The HTML of the first `k` children of `n`.
pub open spec fn kids_html(n: Node, k: int, raw: bool) -> Seq<char>
    decreases n, k,
{
    if k <= 0 || k > n.children@.len() {
        Seq::empty()
    } else {
        kids_html(n, k - 1, raw) + html_of(n.children@[k - 1], raw)
    }
}

/// The HTML of a document tree.
pub open spec fn document_html(doc: Node) -> Seq<char> {
    html_of(doc, false)
}

fn push_escaped(out: &mut String, s: &String, in_attr: bool)
    ensures
        final(out)@ == old(out)@ + escaped(s@, in_attr),
{
    let cs = chars_of(s.as_str());
    let mut i: usize = 0;
    while i < cs.len()
        invariant
            i <= cs@.len(),
            cs@ == s@,
            out@ == old(out)@ + escaped(cs@.subrange(0, i as int), in_attr),
        decreases cs@.len() - i,
    {
        let c = cs[i];
        proof {
            let next = cs@.subrange(0, i + 1);
            assert(next.drop_last() =~= cs@.subrange(0, i as int));
            assert(next.last() == c);
        }
        if c == '&' {
            push_str(out, "&amp;");
        } else if c == '\u{a0}' {
            push_str(out, "&nbsp;");
        } else if in_attr && c == '"' {
            push_str(out, "&quot;");
        } else if !in_attr && c == '<' {
            push_str(out, "&lt;");
        } else if !in_attr && c == '>' {
            push_str(out, "&gt;");
        } else {
            push_char(out, c);
        }
        i += 1;
        assert(out@ =~= old(out)@ + escaped(cs@.subrange(0, i as int), in_attr));
    }
    assert(cs@.subrange(0, i as int) =~= s@);
}

fn is_raw_text_tag(t: &String) -> (r: bool)
    ensures
        r == raw_text_tag(t@),
{
    let names = ["script", "style", "xmp", "iframe", "noembed", "noframes", "plaintext", "noscript"];
    let mut i: usize = 0;
    while i < 8
        invariant
            i <= 8,
            names@ == seq!["script", "style", "xmp", "iframe", "noembed", "noframes", "plaintext", "noscript"],
            forall|j: int| 0 <= j < i ==> t@ != (#[trigger] names@[j])@,
        decreases 8 - i,
    {
        if t.eq(&names[i].to_owned()) {
            return true;
        }
        i += 1;
    }
    assert(!raw_text_tag(t@)) by {
        assert(t@ != names@[0]@);
        assert(t@ != names@[1]@);
        assert(t@ != names@[2]@);
        assert(t@ != names@[3]@);
        assert(t@ != names@[4]@);
        assert(t@ != names@[5]@);
        assert(t@ != names@[6]@);
        assert(t@ != names@[7]@);
    }
    false
}

fn write_node(out: &mut String, n: &Node, raw: bool)
    ensures
        final(out)@ == old(out)@ + html_of(*n, raw),
    decreases n, n.children@.len() + 1,
{
    match &n.tag {
        Some(t) => {
            push_str(out, "<");
            push_str(out, t.as_str());
            let mut i: usize = 0;
            while i < n.attrs.len()
                invariant
                    i <= n.attrs@.len(),
                    out@ == old(out)@ + "<"@ + t@ + attrs_html(n.attrs@, i as int),
                decreases n.attrs@.len() - i,
            {
                push_str(out, " ");
                push_str(out, n.attrs[i].0.as_str());
                push_str(out, "=\"");
                push_escaped(out, &n.attrs[i].1, true);
                push_str(out, "\"");
                i += 1;
                assert(out@ =~= old(out)@ + "<"@ + t@ + attrs_html(n.attrs@, i as int));
            }
            push_str(out, ">");
            let r = is_raw_text_tag(t);
            let ghost mid = out@;
            write_kids(out, n, r);
            assert(out@ =~= mid + kids_html(*n, n.children@.len() as int, r));
            push_str(out, "</");
            push_str(out, t.as_str());
            push_str(out, ">");
            assert(out@ =~= old(out)@ + html_of(*n, raw));
        },
        None => match &n.text {
            Some(x) => {
                if raw {
                    push_str(out, x.as_str());
                } else {
                    push_escaped(out, x, false);
                }
            },
            None => {
                write_kids(out, n, false);
            },
        },
    }
}

fn write_kids(out: &mut String, n: &Node, raw: bool)
    ensures
        final(out)@ == old(out)@ + kids_html(*n, n.children@.len() as int, raw),
    decreases n, n.children@.len(),
{
    let mut i: usize = 0;
    while i < n.children.len()
        invariant
            i <= n.children@.len(),
            out@ == old(out)@ + kids_html(*n, i as int, raw),
        decreases n.children@.len() - i,
    {
        write_node(out, &n.children[i], raw);
        i += 1;
        assert(out@ =~= old(out)@ + kids_html(*n, i as int, raw));
    }
}

/// Writes a document tree as HTML. Every element gets its closing tag,
/// those that HTML leaves unclosed included, and nothing precedes the first
/// node: no declaration.
pub fn serialize(doc: &Node) -> (r: String)
    ensures
        r@ == document_html(*doc),
{
    let mut out = String::new();
    write_node(&mut out, doc, false);
    assert(out@ =~= document_html(*doc));
    out
}

} // verus!
