//! Gadget packages: the metadata that the manifest gives, which archive
//! entry is the manifest, and what unpacking writes where.
use vstd::prelude::*;

use crate::query::{
    attr_of, get_attr, get_text_contents, node_at, query, query_spec, steps_view, text_content,
    Node, Step, StepV,
};
use crate::rewrite::{inject_polyfill, injected, rewrite_outcome, MachineStats, RewriteError};
use crate::text::{chars_of, push_char, push_str};

verus! {

/// Why a package could not be loaded.
#[derive(Debug, PartialEq, Eq, Structural)]
pub enum LoadError {
    /// The archive cannot be read.
    Archive,
    /// The archive holds no manifest.
    ManifestNotFound,
    /// The manifest is not well-formed XML.
    ManifestParse,
    /// The manifest has no `gadget > name` with text.
    NoName,
    /// The manifest has no HTML entry point with a `src`.
    NoEntrypoint,
}

/// The metadata of a package.
pub struct Gadget {
    pub name: String,
    pub author: Option<String>,
    pub copyright: Option<String>,
    /// The entry document's path inside the locale folder.
    pub entrypoint: String,
}

/// One member of a package archive.
pub struct ArchiveEntry {
    /// Slash-separated path inside the archive.
    pub name: String,
    pub is_dir: bool,
    pub contents: Vec<u8>,
}

/// A file that unpacking writes: its path below the target directory and
/// its bytes.
pub struct OutputFile {
    pub path: String,
    pub contents: Vec<u8>,
}

/// xmltree's element, carried only between its parser and `node_of_xml`.
#[verifier::external_type_specification]
#[verifier::external_body]
pub struct ExElement(xmltree::Element);

/// The tree that xmltree's parser builds from bytes, or nothing where they
/// are not well-formed XML.
pub uninterp spec fn xml_tree(bytes: Seq<u8>) -> Option<Node>;

/// The conversion half of `parse_xml`, recursive and so a function of its
/// own. Converts xmltree's element into a `Node` tree: elements keep their
/// name, attributes (in document order) and children, text and CDATA
/// become text nodes, comments and processing instructions empty nodes.
#[verifier::external_body]
fn node_of_xml(e: &xmltree::Element) -> Node {
    let children = e.children.iter().map(|c| match c {
        xmltree::XMLNode::Element(x) => node_of_xml(x),
        xmltree::XMLNode::Text(t) | xmltree::XMLNode::CData(t) => Node { tag: None, attrs: Vec::new(), children: Vec::new(), text: Some(t.clone()) },
        _ => Node { tag: None, attrs: Vec::new(), children: Vec::new(), text: None },
    }).collect();
    let attrs = e.attributes.iter().map(|(k, v)| (k.clone(), v.clone())).collect();
    Node { tag: Some(e.name.clone()), attrs, children, text: None }
}

/// Relies on `xmltree::Element::parse`: the root element of well-formed
/// XML, an error otherwise; the result depends on the bytes alone.
#[verifier::external_body]
fn parse_xml(bytes: &[u8]) -> (r: Option<Node>)
    ensures
        r == xml_tree(bytes@),
{
    xmltree::Element::parse(bytes).ok().map(|e| node_of_xml(&e))
}

/// `gadget > name`
pub open spec fn name_query() -> Seq<StepV> {
    seq![StepV::Tag("gadget"@), StepV::Child, StepV::Tag("name"@)]
}

/// `gadget > author`
pub open spec fn author_query() -> Seq<StepV> {
    seq![StepV::Tag("gadget"@), StepV::Child, StepV::Tag("author"@)]
}

/// `gadget > copyright`
pub open spec fn copyright_query() -> Seq<StepV> {
    seq![StepV::Tag("gadget"@), StepV::Child, StepV::Tag("copyright"@)]
}

/// `gadget > hosts > host > base[type~="HTML"]`
pub open spec fn entry_query() -> Seq<StepV> {
    seq![
        StepV::Tag("gadget"@),
        StepV::Child,
        StepV::Tag("hosts"@),
        StepV::Child,
        StepV::Tag("host"@),
        StepV::Child,
        StepV::Tag("base"@),
        StepV::AttrIsNoCase("type"@, "HTML"@),
    ]
}

/// The first node that `q` matches from `root`.
pub open spec fn found(root: Node, q: Seq<StepV>) -> Option<Node> {
    match query_spec(root, q) {
        Some(p) => node_at(root, p),
        None => None,
    }
}

/// An optional string as an optional character sequence.
pub open spec fn opt_view(o: Option<String>) -> Option<Seq<char>> {
    match o {
        Some(s) => Some(s@),
        None => None,
    }
}

/// The text of the node `q` finds from `root`.
pub open spec fn found_text(root: Node, q: Seq<StepV>) -> Option<Seq<char>> {
    match found(root, q) {
        Some(n) => text_content(n),
        None => None,
    }
}

/// The attribute `key` of the node `q` finds from `root`.
pub open spec fn found_attr(root: Node, q: Seq<StepV>, key: Seq<char>) -> Option<Seq<char>> {
    match found(root, q) {
        Some(n) => opt_view(attr_of(n, key)),
        None => None,
    }
}

/// What loading a manifest tree gives.
pub open spec fn manifest_outcome(root: Node, r: Result<Gadget, LoadError>) -> bool {
    match (found_text(root, name_query()), found_attr(root, entry_query(), "src"@)) {
        (None, _) => r == Err::<Gadget, LoadError>(LoadError::NoName),
        (Some(_), None) => r == Err::<Gadget, LoadError>(LoadError::NoEntrypoint),
        (Some(n), Some(e)) => r matches Ok(g) && g.name@ == n && g.entrypoint@ == e && opt_view(
            g.author,
        ) == found_attr(root, author_query(), "name"@) && opt_view(g.copyright) == found_text(
            root,
            copyright_query(),
        ),
    }
}

fn text_at(root: &Node, q: &Vec<Step>) -> (r: Option<String>)
    ensures
        opt_view(r) == found_text(*root, steps_view(q@)),
{
    match query(root, q) {
        Some(n) => get_text_contents(n),
        None => None,
    }
}

fn attr_at(root: &Node, q: &Vec<Step>, key: &str) -> (r: Option<String>)
    ensures
        opt_view(r) == found_attr(*root, steps_view(q@), key@),
{
    match query(root, q) {
        Some(n) => match get_attr(n, &key.to_owned()) {
            Some(v) => Some(v.clone()),
            None => None,
        },
        None => None,
    }
}

fn tag(name: &str) -> (r: Step)
    ensures
        r@ == StepV::Tag(name@),
{
    Step::Tag(name.to_owned())
}

/// The query `gadget > field`.
fn field_query(field: &str) -> (q: Vec<Step>)
    ensures
        q@.len() == 3,
        steps_view(q@) == seq![StepV::Tag("gadget"@), StepV::Child, StepV::Tag(field@)],
{
    let mut q: Vec<Step> = Vec::new();
    q.push(tag("gadget"));
    q.push(Step::Child);
    q.push(tag(field));
    assert(steps_view(q@) =~= seq![StepV::Tag("gadget"@), StepV::Child, StepV::Tag(field@)]);
    q
}

/// The index of the first name among `names[i..]` that equals `t`.
pub open spec fn first_index(names: Seq<ArchiveEntry>, t: Seq<char>, i: int) -> Option<int>
    decreases names.len() - i,
{
    if i < 0 || i >= names.len() {
        None
    } else if names[i].name@ == t {
        Some(i)
    } else {
        first_index(names, t, i + 1)
    }
}

/// The manifest among the entries: the one in the locale folder, else the
/// one at the top.
pub open spec fn manifest_index_spec(es: Seq<ArchiveEntry>) -> Option<int> {
    match first_index(es, "en-US/gadget.xml"@, 0) {
        Some(i) => Some(i),
        None => first_index(es, "gadget.xml"@, 0),
    }
}

fn find_entry(es: &Vec<ArchiveEntry>, t: &str) -> (r: Option<usize>)
    ensures
        match r {
            Some(i) => first_index(es@, t@, 0) == Some(i as int) && i < es@.len(),
            None => first_index(es@, t@, 0) is None,
        },
{
    let target = t.to_owned();
    let mut i: usize = 0;
    while i < es.len()
        invariant
            i <= es@.len(),
            target@ == t@,
            first_index(es@, t@, 0) == first_index(es@, t@, i as int),
        decreases es@.len() - i,
    {
        if es[i].name.eq(&target) {
            return Some(i);
        }
        i += 1;
    }
    None
}

/// The index of the manifest among the entries: `en-US/gadget.xml` where
/// there is one, else `gadget.xml`.
pub fn manifest_index(es: &Vec<ArchiveEntry>) -> (r: Option<usize>)
    ensures
        match r {
            Some(i) => manifest_index_spec(es@) == Some(i as int) && i < es@.len(),
            None => manifest_index_spec(es@) is None,
        },
{
    match find_entry(es, "en-US/gadget.xml") {
        Some(i) => Some(i),
        None => find_entry(es, "gadget.xml"),
    }
}

/// A name with the locale folder `en-US/` taken off its front, where it
/// starts with it; other names as they are. Only this one locale is known:
/// a package with several locale folders unpacks the others under their
/// own folder names.
pub open spec fn locale_stripped(n: Seq<char>) -> Seq<char> {
    if n.len() >= 6 && n.subrange(0, 6) == "en-US/"@ {
        n.subrange(6, n.len() as int)
    } else {
        n
    }
}

/// Strips the locale folder off an entry's name.
pub fn strip_locale(name: &str) -> (r: String)
    ensures
        r@ == locale_stripped(name@),
{
    let cs = chars_of(name);
    let prefix = chars_of("en-US/");
    proof {
        reveal_strlit("en-US/");
    }
    let mut is_prefixed = cs.len() >= 6;
    let mut i: usize = 0;
    while is_prefixed && i < 6
        invariant
            prefix@ == "en-US/"@,
            prefix@.len() == 6,
            cs@ == name@,
            i <= 6,
            is_prefixed ==> cs@.len() >= 6 && cs@.subrange(0, i as int) == prefix@.subrange(0, i as int),
            !is_prefixed ==> !(cs@.len() >= 6 && cs@.subrange(0, 6) == prefix@),
        decreases 6 - i,
    {
        if cs[i] != prefix[i] {
            is_prefixed = false;
            assert(cs@.subrange(0, 6)[i as int] != prefix@[i as int]);
        } else {
            assert(cs@.subrange(0, i + 1) =~= cs@.subrange(0, i as int).push(cs@[i as int]));
            assert(prefix@.subrange(0, i + 1) =~= prefix@.subrange(0, i as int).push(prefix@[i as int]));
        }
        i += 1;
    }
    assert(is_prefixed ==> prefix@.subrange(0, 6) =~= prefix@);
    let start: usize = if is_prefixed { 6 } else { 0 };
    let mut out = String::new();
    let mut j: usize = start;
    while j < cs.len()
        invariant
            start <= j <= cs@.len(),
            out@ == cs@.subrange(start as int, j as int),
        decreases cs@.len() - j,
    {
        push_char(&mut out, cs[j]);
        j += 1;
        assert(out@ =~= cs@.subrange(start as int, j as int));
    }
    assert(cs@.subrange(0, cs@.len() as int) =~= cs@);
    out
}

/// The file name that the entry document is always unpacked to.
pub open spec fn entry_file_name() -> Seq<char> {
    "index.html"@
}

/// Whether the entry named `n` is the package's entry document.
pub open spec fn is_entry_document(g: Gadget, n: Seq<char>) -> bool {
    locale_stripped(n) == g.entrypoint@
}

/// Where the entry named `n` is unpacked to: the entry document to
/// `index.html`, every other entry to its name without the locale folder.
pub open spec fn output_name(g: Gadget, n: Seq<char>) -> Seq<char> {
    if is_entry_document(g, n) {
        entry_file_name()
    } else {
        locale_stripped(n)
    }
}

/// The file entries among `es[..i]`, in order.
pub open spec fn file_entries(es: Seq<ArchiveEntry>, i: int) -> Seq<ArchiveEntry>
    decreases i,
{
    if i <= 0 || i > es.len() {
        Seq::empty()
    } else if es[i - 1].is_dir {
        file_entries(es, i - 1)
    } else {
        file_entries(es, i - 1).push(es[i - 1])
    }
}

/// `f` is what unpacking writes for entry `e`: at its output name, the
/// entry document rewritten and encoded as UTF-8, every other entry's bytes
/// as they are.
pub open spec fn unpacked_as(
    g: Gadget,
    e: ArchiveEntry,
    f: OutputFile,
    shim: Seq<char>,
    stats: MachineStats,
) -> bool {
    &&& f.path@ == output_name(g, e.name@)
    &&& if is_entry_document(g, e.name@) {
        injected(e.contents@, shim, stats, Ok(f.contents))
    } else {
        f.contents@ == e.contents@
    }
}

/// What unpacking the entries `es` gives: one file for each file entry, in
/// order; or the error of rewriting an entry document.
pub open spec fn unpack_outcome(
    g: Gadget,
    es: Seq<ArchiveEntry>,
    shim: Seq<char>,
    stats: MachineStats,
    r: Result<Vec<OutputFile>, RewriteError>,
) -> bool {
    let fe = file_entries(es, es.len() as int);
    match r {
        Ok(fs) => fs@.len() == fe.len() && forall|k: int|
            0 <= k < fe.len() ==> unpacked_as(g, #[trigger] fe[k], fs@[k], shim, stats),
        Err(e) => exists|k: int|
            0 <= k < fe.len() && is_entry_document(g, (#[trigger] fe[k]).name@) && rewrite_outcome(
                fe[k].contents@,
                shim,
                stats,
                Err(e),
            ),
    }
}

/// The text of `Gadget::summary`.
pub open spec fn summary_spec(g: Gadget) -> Seq<char> {
    g.name@ + match g.author {
        Some(a) => ", "@ + a@ + match g.copyright {
            Some(c) => " "@ + c@,
            None => Seq::empty(),
        },
        None => Seq::empty(),
    }
}

impl Gadget {
    /// Reads the metadata from a manifest tree: the text of `gadget > name`
    /// (required), the `name` attribute of `gadget > author`, the text of
    /// `gadget > copyright`, and the `src` of the first
    /// `gadget > hosts > host > base` whose `type` is `HTML` up to case
    /// (required).
    pub fn from_manifest_tree(root: &Node) -> (r: Result<Gadget, LoadError>)
        ensures
            manifest_outcome(*root, r),
    {
        let qn = field_query("name");
        let qa = field_query("author");
        let qc = field_query("copyright");
        let mut qe = field_query("hosts");
        qe.push(Step::Child);
        qe.push(tag("host"));
        qe.push(Step::Child);
        qe.push(tag("base"));
        qe.push(Step::AttrIsNoCase("type".to_owned(), "HTML".to_owned()));
        assert(steps_view(qe@) =~= entry_query());
        let name = match text_at(root, &qn) {
            Some(n) => n,
            None => return Err(LoadError::NoName),
        };
        let entrypoint = match attr_at(root, &qe, "src") {
            Some(e) => e,
            None => return Err(LoadError::NoEntrypoint),
        };
        let author = attr_at(root, &qa, "name");
        let copyright = text_at(root, &qc);
        Ok(Gadget { name, author, copyright, entrypoint })
    }

    /// Reads the metadata from the bytes of a manifest.
    pub fn from_manifest(bytes: &[u8]) -> (r: Result<Gadget, LoadError>)
        ensures
            match xml_tree(bytes@) {
                None => r == Err::<Gadget, LoadError>(LoadError::ManifestParse),
                Some(root) => manifest_outcome(root, r),
            },
    {
        match parse_xml(bytes) {
            Some(root) => Gadget::from_manifest_tree(&root),
            None => Err(LoadError::ManifestParse),
        }
    }

    /// Loads the metadata of a package from its entries: finds the manifest
    /// and reads it.
    pub fn from_entries(es: &Vec<ArchiveEntry>) -> (r: Result<Gadget, LoadError>)
        ensures
            match manifest_index_spec(es@) {
                None => r == Err::<Gadget, LoadError>(LoadError::ManifestNotFound),
                Some(i) => match xml_tree(es@[i].contents@) {
                    None => r == Err::<Gadget, LoadError>(LoadError::ManifestParse),
                    Some(root) => manifest_outcome(root, r),
                },
            },
    {
        match manifest_index(es) {
            Some(i) => Gadget::from_manifest(es[i].contents.as_slice()),
            None => Err(LoadError::ManifestNotFound),
        }
    }

    /// The name, then the author after a comma, then the copyright after a
    /// space where there is an author.
    pub fn summary(&self) -> (r: String)
        ensures
            r@ == summary_spec(*self),
    {
        let mut out = String::new();
        push_str(&mut out, self.name.as_str());
        match &self.author {
            Some(a) => {
                push_str(&mut out, ", ");
                push_str(&mut out, a.as_str());
                match &self.copyright {
                    Some(c) => {
                        push_str(&mut out, " ");
                        push_str(&mut out, c.as_str());
                    },
                    None => {},
                }
            },
            None => {},
        }
        assert(out@ =~= summary_spec(*self));
        out
    }

    /// Where the entry named `name` is unpacked to, and whether it is the
    /// entry document.
    pub fn output_path(&self, name: &str) -> (r: (String, bool))
        ensures
            r.0@ == output_name(*self, name@),
            r.1 == is_entry_document(*self, name@),
    {
        let stripped = strip_locale(name);
        if stripped.eq(&self.entrypoint) {
            ("index.html".to_owned(), true)
        } else {
            (stripped, false)
        }
    }

    /// The files that unpacking the entries writes: every file entry at its
    /// output path, directories skipped, the entry document rewritten and
    /// every other entry's bytes unchanged. The first failure to rewrite
    /// stops it.
    pub fn unpack_plan(&self, entries: Vec<ArchiveEntry>, shim: &str, stats: &MachineStats) -> (r:
        Result<Vec<OutputFile>, RewriteError>)
        ensures
            unpack_outcome(*self, entries@, shim@, *stats, r),
    {
        let ghost all = entries@;
        let mut rest = entries;
        let mut out: Vec<OutputFile> = Vec::new();
        let mut i: usize = 0;
        assert(rest@.len() == rest.len());
        while rest.len() > 0
            invariant
                all == entries@,
                all.len() <= usize::MAX,
                i + rest@.len() == all.len(),
                rest@ == all.subrange(i as int, all.len() as int),
                out@.len() == file_entries(all, i as int).len(),
                forall|k: int|
                    0 <= k < out@.len() ==> unpacked_as(
                        *self,
                        #[trigger] file_entries(all, i as int)[k],
                        out@[k],
                        shim@,
                        *stats,
                    ),
            decreases rest@.len(),
        {
            let e = rest.remove(0);
            assert(e == all[i as int]);
            let ghost fe = file_entries(all, i as int);
            if !e.is_dir {
                let (path, is_entry) = self.output_path(e.name.as_str());
                let contents = if is_entry {
                    match inject_polyfill(e.contents.as_slice(), shim, stats) {
                        Ok(bytes) => bytes,
                        Err(err) => {
                            proof {
                                let fe2 = file_entries(all, all.len() as int);
                                assert(file_entries(all, i + 1) == fe.push(e));
                                lemma_file_entries_prefix(all, i as int + 1, all.len() as int);
                                assert(file_entries(all, i + 1)[fe.len() as int] == e);
                                assert(fe2[fe.len() as int] == e);
                                assert(rewrite_outcome(e.contents@, shim@, *stats, Err(err)));
                                assert(0 <= fe.len() < fe2.len() && is_entry_document(*self, fe2[fe.len() as int].name@)
                                    && rewrite_outcome(fe2[fe.len() as int].contents@, shim@, *stats, Err(err)));
                                assert(exists|k: int| 0 <= k < fe2.len() && is_entry_document(*self, (#[trigger] fe2[k]).name@)
                                    && rewrite_outcome(fe2[k].contents@, shim@, *stats, Err(err)));
                            }
                            return Err(err);
                        },
                    }
                } else {
                    e.contents
                };
                let f = OutputFile { path, contents };
                out.push(f);
                assert(file_entries(all, i + 1) == fe.push(e));
            } else {
                assert(file_entries(all, i + 1) == fe);
            }
            i += 1;
            assert(rest@ =~= all.subrange(i as int, all.len() as int));
        }
        assert(i == all.len());
        Ok(out)
    }
}

/// The file rest of a shorter prefix come first among those of a longer
/// one.
proof fn lemma_file_entries_prefix(es: Seq<ArchiveEntry>, i: int, j: int)
    requires
        0 <= i <= j <= es.len(),
    ensures
        file_entries(es, j).len() >= file_entries(es, i).len(),
        forall|k: int|
            0 <= k < file_entries(es, i).len() ==> #[trigger] file_entries(es, j)[k]
                == file_entries(es, i)[k],
    decreases j - i,
{
    if i < j {
        lemma_file_entries_prefix(es, i, j - 1);
    }
}

} // verus!
