//! The uniform node value, node-set collections, and the query-language
//! computations over them: document order, string-value and prefixed names.

use vstd::prelude::*;
use vstd::string::StringExecFns;
use vstd::std_specs::convert::IntoSpec;
use crate::DocId;
use crate::dom::{
    Attribute, ChildOfElement, ChildOfRoot, Comment, Document, Element, ParentOfChild,
    ProcessingInstruction, QName, Root, Text,
};
use crate::dom::{
    attr_in, coe_in, comment_in, cor_in, elem_in, mapping_present, pi_in, root_in, text_in,
    resolved_prefix, wf,
};

verus! {

/// One prefix-to-URI binding visible at an element, synthesized on demand
/// rather than stored in the tree.  By convention neither `prefix` nor `uri`
/// is empty: the default-namespace case is handled by the owning element's
/// resolution logic, never by an empty-prefix namespace node.
#[derive(Debug, Hash)]
pub struct Namespace {
    pub parent: Element,
    pub prefix: String,
    pub uri: String,
}

/// The mathematical value of a [`Namespace`]: the parent handle and the two
/// character sequences.
pub struct NamespaceView {
    pub parent: Element,
    pub prefix: Seq<char>,
    pub uri: Seq<char>,
}

impl View for Namespace {
    type V = NamespaceView;

    open spec fn view(&self) -> NamespaceView {
        NamespaceView { parent: self.parent, prefix: self.prefix@, uri: self.uri@ }
    }
}

impl Namespace {
    /// The id of the owning document, through the parent element.
    pub fn document(&self) -> (r: DocId)
        ensures
            r == self.parent.doc,
    {
        self.parent.doc
    }

    /// The element this binding is visible on.
    pub fn parent(&self) -> (r: Element)
        ensures
            r == self.parent,
    {
        self.parent
    }

    /// The declared prefix.
    pub fn prefix(&self) -> (r: &str)
        ensures
            r@ == self.prefix@,
    {
        self.prefix.as_str()
    }

    /// The bound namespace URI.
    pub fn uri(&self) -> (r: &str)
        ensures
            r@ == self.uri@,
    {
        self.uri.as_str()
    }

    /// The expanded name of a namespace node: its prefix, with no namespace.
    pub fn expanded_name(&self) -> (r: QName)
        ensures
            r.namespace_uri is None,
            r.local_part == self.prefix,
    {
        QName::new(self.prefix.clone())
    }
}

impl Clone for Namespace {
    fn clone(&self) -> (res: Self)
        ensures
            res == *self,
    {
        Namespace { parent: self.parent, prefix: self.prefix.clone(), uri: self.uri.clone() }
    }
}

impl PartialEq for Namespace {
    fn eq(&self, other: &Self) -> (r: bool)
        ensures
            r == (self@ == other@),
    {
        let r = self.parent == other.parent && self.prefix == other.prefix && self.uri
            == other.uri;
        proof {
            if r {
                assert(self@ =~= other@);
            }
        }
        r
    }
}

impl vstd::std_specs::cmp::PartialEqSpecImpl for Namespace {
    open spec fn obeys_eq_spec() -> bool {
        true
    }

    open spec fn eq_spec(&self, other: &Self) -> bool {
        self@ == other@
    }
}

/// A uniform, comparable value standing for any construct of a document:
/// a tag plus the handle of the wrapped entity.
#[derive(Debug, Hash)]
pub enum Node {
    Root(Root),
    Element(Element),
    Attribute(Attribute),
    Text(Text),
    Comment(Comment),
    Namespace(Namespace),
    ProcessingInstruction(ProcessingInstruction),
}

/// The mathematical value of a [`Node`].  Two nodes are the same node
/// exactly when their views are equal: same kind, same entity identity.
pub enum NodeView {
    Root(Root),
    Element(Element),
    Attribute(Attribute),
    Text(Text),
    Comment(Comment),
    Namespace(NamespaceView),
    ProcessingInstruction(ProcessingInstruction),
}

impl View for Node {
    type V = NodeView;

    open spec fn view(&self) -> NodeView {
        match self {
            Node::Root(r) => NodeView::Root(*r),
            Node::Element(e) => NodeView::Element(*e),
            Node::Attribute(a) => NodeView::Attribute(*a),
            Node::Text(t) => NodeView::Text(*t),
            Node::Comment(c) => NodeView::Comment(*c),
            Node::Namespace(n) => NodeView::Namespace(n@),
            Node::ProcessingInstruction(p) => NodeView::ProcessingInstruction(*p),
        }
    }
}

/// The two values stand for the same node.
pub open spec fn node_eq(a: Node, b: Node) -> bool {
    a@ == b@
}

/// The id of the node's owning document.
pub open spec fn spec_document(n: Node) -> DocId {
    match n {
        Node::Root(r) => r.doc,
        Node::Element(e) => e.doc,
        Node::Attribute(a) => a.doc,
        Node::Text(t) => t.doc,
        Node::Comment(c) => c.doc,
        Node::Namespace(ns) => ns.parent.doc,
        Node::ProcessingInstruction(p) => p.doc,
    }
}

/// The node's handle belongs to `doc` and points into its tables.
pub open spec fn node_in(doc: Document, n: Node) -> bool {
    match n {
        Node::Root(r) => root_in(doc, r),
        Node::Element(e) => elem_in(doc, e),
        Node::Attribute(a) => attr_in(doc, a),
        Node::Text(t) => text_in(doc, t),
        Node::Comment(c) => comment_in(doc, c),
        Node::Namespace(ns) => elem_in(doc, ns.parent),
        Node::ProcessingInstruction(p) => pi_in(doc, p),
    }
}

impl Clone for Node {
    fn clone(&self) -> (res: Self)
        ensures
            res == *self,
    {
        match self {
            Node::Root(r) => Node::Root(*r),
            Node::Element(e) => Node::Element(*e),
            Node::Attribute(a) => Node::Attribute(*a),
            Node::Text(t) => Node::Text(*t),
            Node::Comment(c) => Node::Comment(*c),
            Node::Namespace(n) => Node::Namespace(n.clone()),
            Node::ProcessingInstruction(p) => Node::ProcessingInstruction(*p),
        }
    }
}

impl PartialEq for Node {
    fn eq(&self, other: &Self) -> (r: bool)
        ensures
            r == node_eq(*self, *other),
    {
        match (self, other) {
            (Node::Root(a), Node::Root(b)) => a == b,
            (Node::Element(a), Node::Element(b)) => a == b,
            (Node::Attribute(a), Node::Attribute(b)) => a == b,
            (Node::Text(a), Node::Text(b)) => a == b,
            (Node::Comment(a), Node::Comment(b)) => a == b,
            (Node::Namespace(a), Node::Namespace(b)) => a == b,
            (Node::ProcessingInstruction(a), Node::ProcessingInstruction(b)) => a == b,
            _ => false,
        }
    }
}

impl vstd::std_specs::cmp::PartialEqSpecImpl for Node {
    open spec fn obeys_eq_spec() -> bool {
        true
    }

    open spec fn eq_spec(&self, other: &Self) -> bool {
        node_eq(*self, *other)
    }
}

impl Node {
    /// The wrapped element handle, if this is an element node.
    pub fn element(self) -> (r: Option<Element>)
        ensures
            r == match self {
                Node::Element(e) => Some(e),
                _ => None::<Element>,
            },
    {
        match self {
            Node::Element(e) => Some(e),
            _ => None,
        }
    }

    /// The wrapped root handle, if this is the root node.
    pub fn root(self) -> (r: Option<Root>)
        ensures
            r == match self {
                Node::Root(n) => Some(n),
                _ => None::<Root>,
            },
    {
        match self {
            Node::Root(n) => Some(n),
            _ => None,
        }
    }

    /// The wrapped attribute handle, if this is an attribute node.
    pub fn attribute(self) -> (r: Option<Attribute>)
        ensures
            r == match self {
                Node::Attribute(a) => Some(a),
                _ => None::<Attribute>,
            },
    {
        match self {
            Node::Attribute(a) => Some(a),
            _ => None,
        }
    }

    /// The wrapped text handle, if this is a text node.
    pub fn text(self) -> (r: Option<Text>)
        ensures
            r == match self {
                Node::Text(t) => Some(t),
                _ => None::<Text>,
            },
    {
        match self {
            Node::Text(t) => Some(t),
            _ => None,
        }
    }

    /// The wrapped comment handle, if this is a comment node.
    pub fn comment(self) -> (r: Option<Comment>)
        ensures
            r == match self {
                Node::Comment(c) => Some(c),
                _ => None::<Comment>,
            },
    {
        match self {
            Node::Comment(c) => Some(c),
            _ => None,
        }
    }

    /// The wrapped handle, if this is a processing-instruction node.
    pub fn processing_instruction(self) -> (r: Option<ProcessingInstruction>)
        ensures
            r == match self {
                Node::ProcessingInstruction(p) => Some(p),
                _ => None::<ProcessingInstruction>,
            },
    {
        match self {
            Node::ProcessingInstruction(p) => Some(p),
            _ => None,
        }
    }

    /// The id of the owning document, uniformly over every node kind.
    pub fn document(&self) -> (r: DocId)
        ensures
            r == spec_document(*self),
    {
        match self {
            Node::Root(n) => n.doc,
            Node::Element(n) => n.doc,
            Node::Attribute(n) => n.doc,
            Node::Text(n) => n.doc,
            Node::Comment(n) => n.doc,
            Node::ProcessingInstruction(n) => n.doc,
            Node::Namespace(n) => n.document(),
        }
    }
}

impl From<Root> for Node {
    fn from(v: Root) -> (r: Node) {
        Node::Root(v)
    }
}

impl vstd::std_specs::convert::FromSpecImpl<Root> for Node {
    open spec fn obeys_from_spec() -> bool {
        true
    }

    open spec fn from_spec(v: Root) -> Node {
        Node::Root(v)
    }
}

impl From<Element> for Node {
    fn from(v: Element) -> (r: Node) {
        Node::Element(v)
    }
}

impl vstd::std_specs::convert::FromSpecImpl<Element> for Node {
    open spec fn obeys_from_spec() -> bool {
        true
    }

    open spec fn from_spec(v: Element) -> Node {
        Node::Element(v)
    }
}

impl From<Attribute> for Node {
    fn from(v: Attribute) -> (r: Node) {
        Node::Attribute(v)
    }
}

impl vstd::std_specs::convert::FromSpecImpl<Attribute> for Node {
    open spec fn obeys_from_spec() -> bool {
        true
    }

    open spec fn from_spec(v: Attribute) -> Node {
        Node::Attribute(v)
    }
}

impl From<Text> for Node {
    fn from(v: Text) -> (r: Node) {
        Node::Text(v)
    }
}

impl vstd::std_specs::convert::FromSpecImpl<Text> for Node {
    open spec fn obeys_from_spec() -> bool {
        true
    }

    open spec fn from_spec(v: Text) -> Node {
        Node::Text(v)
    }
}

impl From<Comment> for Node {
    fn from(v: Comment) -> (r: Node) {
        Node::Comment(v)
    }
}

impl vstd::std_specs::convert::FromSpecImpl<Comment> for Node {
    open spec fn obeys_from_spec() -> bool {
        true
    }

    open spec fn from_spec(v: Comment) -> Node {
        Node::Comment(v)
    }
}

impl From<ProcessingInstruction> for Node {
    fn from(v: ProcessingInstruction) -> (r: Node) {
        Node::ProcessingInstruction(v)
    }
}

impl vstd::std_specs::convert::FromSpecImpl<ProcessingInstruction> for Node {
    open spec fn obeys_from_spec() -> bool {
        true
    }

    open spec fn from_spec(v: ProcessingInstruction) -> Node {
        Node::ProcessingInstruction(v)
    }
}

/// What a root child converts to, as a spec value.
pub open spec fn cor_to_node(c: ChildOfRoot) -> Node {
    match c {
        ChildOfRoot::Element(n) => Node::Element(n),
        ChildOfRoot::Comment(n) => Node::Comment(n),
        ChildOfRoot::ProcessingInstruction(n) => Node::ProcessingInstruction(n),
    }
}

impl From<ChildOfRoot> for Node {
    fn from(v: ChildOfRoot) -> (r: Node) {
        match v {
            ChildOfRoot::Element(n) => Node::Element(n),
            ChildOfRoot::Comment(n) => Node::Comment(n),
            ChildOfRoot::ProcessingInstruction(n) => Node::ProcessingInstruction(n),
        }
    }
}

impl vstd::std_specs::convert::FromSpecImpl<ChildOfRoot> for Node {
    open spec fn obeys_from_spec() -> bool {
        true
    }

    open spec fn from_spec(v: ChildOfRoot) -> Node {
        cor_to_node(v)
    }
}

/// What an element child converts to, as a spec value.
pub open spec fn coe_to_node(c: ChildOfElement) -> Node {
    match c {
        ChildOfElement::Element(n) => Node::Element(n),
        ChildOfElement::Text(n) => Node::Text(n),
        ChildOfElement::Comment(n) => Node::Comment(n),
        ChildOfElement::ProcessingInstruction(n) => Node::ProcessingInstruction(n),
    }
}

impl From<ChildOfElement> for Node {
    fn from(v: ChildOfElement) -> (r: Node) {
        match v {
            ChildOfElement::Element(n) => Node::Element(n),
            ChildOfElement::Text(n) => Node::Text(n),
            ChildOfElement::Comment(n) => Node::Comment(n),
            ChildOfElement::ProcessingInstruction(n) => Node::ProcessingInstruction(n),
        }
    }
}

impl vstd::std_specs::convert::FromSpecImpl<ChildOfElement> for Node {
    open spec fn obeys_from_spec() -> bool {
        true
    }

    open spec fn from_spec(v: ChildOfElement) -> Node {
        coe_to_node(v)
    }
}

/// What a parent converts to, as a spec value.
pub open spec fn poc_to_node(p: ParentOfChild) -> Node {
    match p {
        ParentOfChild::Root(n) => Node::Root(n),
        ParentOfChild::Element(n) => Node::Element(n),
    }
}

impl From<ParentOfChild> for Node {
    fn from(v: ParentOfChild) -> (r: Node) {
        match v {
            ParentOfChild::Root(n) => Node::Root(n),
            ParentOfChild::Element(n) => Node::Element(n),
        }
    }
}

impl vstd::std_specs::convert::FromSpecImpl<ParentOfChild> for Node {
    open spec fn obeys_from_spec() -> bool {
        true
    }

    open spec fn from_spec(v: ParentOfChild) -> Node {
        poc_to_node(v)
    }
}

/// The view of an optional owned string.
pub open spec fn opt_view(o: Option<String>) -> Option<Seq<char>> {
    match o {
        Some(s) => Some(s@),
        None => None,
    }
}

/// The nodes a root child list converts to.
pub open spec fn cor_nodes(s: Seq<ChildOfRoot>) -> Seq<Node> {
    Seq::new(s.len(), |i: int| cor_to_node(s[i]))
}

/// The nodes an element child list converts to.
pub open spec fn coe_nodes(s: Seq<ChildOfElement>) -> Seq<Node> {
    Seq::new(s.len(), |i: int| coe_to_node(s[i]))
}

/// The parent of a node, as the tree stores it.
pub open spec fn spec_parent(doc: Document, n: Node) -> Option<Node> {
    match n {
        Node::Root(_) => None,
        Node::Element(e) => match doc.elements@[e.index as int].parent {
            Some(p) => Some(poc_to_node(p)),
            None => None,
        },
        Node::Attribute(a) => match doc.attributes@[a.index as int].parent {
            Some(e) => Some(Node::Element(e)),
            None => None,
        },
        Node::Text(t) => match doc.texts@[t.index as int].parent {
            Some(e) => Some(Node::Element(e)),
            None => None,
        },
        Node::Comment(c) => match doc.comments@[c.index as int].parent {
            Some(p) => Some(poc_to_node(p)),
            None => None,
        },
        Node::Namespace(ns) => Some(Node::Element(ns.parent)),
        Node::ProcessingInstruction(p) => match doc.processing_instructions@[p.index as int].parent {
            Some(q) => Some(poc_to_node(q)),
            None => None,
        },
    }
}

/// The children of a node: stored for the root and for elements, empty for
/// every leaf kind.
pub open spec fn spec_children(doc: Document, n: Node) -> Seq<Node> {
    match n {
        Node::Root(_) => cor_nodes(doc.root_children@),
        Node::Element(e) => coe_nodes(doc.elements@[e.index as int].children@),
        _ => Seq::empty(),
    }
}

/// The text of the first `k` children of element `e`, in document order:
/// text children contribute their text, element children their whole
/// descendant text, other kinds nothing.
pub open spec fn elem_text_upto(doc: Document, e: int, k: int) -> Seq<char>
    decreases doc.elements@.len() - e, k,
{
    if k <= 0 || !(0 <= e && e < doc.elements@.len()) {
        Seq::empty()
    } else {
        let s = doc.elements@[e].children@;
        elem_text_upto(doc, e, k - 1) + if k > s.len() {
            Seq::empty()
        } else {
            match s[k - 1] {
                ChildOfElement::Text(t) => if t.index < doc.texts@.len() {
                    doc.texts@[t.index as int].text@
                } else {
                    Seq::empty()
                },
                ChildOfElement::Element(c) => if e < c.index && (c.index as int)
                    < doc.elements@.len() {
                    elem_text_upto(
                        doc,
                        c.index as int,
                        doc.elements@[c.index as int].children@.len() as int,
                    )
                } else {
                    Seq::empty()
                },
                _ => Seq::empty(),
            }
        }
    }
}

/// The concatenated text of every text descendant of an element.
pub open spec fn elem_text(doc: Document, e: Element) -> Seq<char> {
    elem_text_upto(doc, e.index as int, doc.elements@[e.index as int].children@.len() as int)
}

/// The text of the first `k` root children.
pub open spec fn root_text_upto(doc: Document, k: int) -> Seq<char>
    decreases k,
{
    if k <= 0 {
        Seq::empty()
    } else {
        let s = doc.root_children@;
        root_text_upto(doc, k - 1) + if k > s.len() {
            Seq::empty()
        } else {
            match s[k - 1] {
                ChildOfRoot::Element(c) => if (c.index as int) < doc.elements@.len() {
                    elem_text(doc, c)
                } else {
                    Seq::empty()
                },
                _ => Seq::empty(),
            }
        }
    }
}

/// The concatenated text of every text descendant of the root.
pub open spec fn root_text(doc: Document) -> Seq<char> {
    root_text_upto(doc, doc.root_children@.len() as int)
}

/// The string-value of a node, by kind: descendant text for the root and
/// elements, the literal value or text for attributes, text runs and
/// comments, the value (or nothing) for processing instructions, and the
/// bound URI for namespace nodes.
pub open spec fn node_text(doc: Document, n: Node) -> Seq<char> {
    match n {
        Node::Root(_) => root_text(doc),
        Node::Element(e) => elem_text(doc, e),
        Node::Attribute(a) => doc.attributes@[a.index as int].value@,
        Node::Text(t) => doc.texts@[t.index as int].text@,
        Node::Comment(c) => doc.comments@[c.index as int].text@,
        Node::Namespace(ns) => ns.uri@,
        Node::ProcessingInstruction(p) => match doc.processing_instructions@[p.index as int].value {
            Some(v) => v@,
            None => Seq::empty(),
        },
    }
}

/// Appends the descendant text of element `e` to `out`, child by child,
/// recursing into element children only.
fn push_elem_text(doc: &Document, e: Element, out: &mut String)
    requires
        wf(*doc),
        elem_in(*doc, e),
    ensures
        final(out)@ == old(out)@ + elem_text(*doc, e),
    decreases doc.elements@.len() - e.index,
{
    let children = doc.element_children(e);
    let n = children.len();
    let mut k: usize = 0;
    while k < n
        invariant
            wf(*doc),
            elem_in(*doc, e),
            children@ == doc.elements@[e.index as int].children@,
            n == children@.len(),
            0 <= k <= n,
            out@ == old(out)@ + elem_text_upto(*doc, e.index as int, k as int),
        decreases n - k,
    {
        let c = children[k];
        match c {
            ChildOfElement::Text(t) => {
                proof {
                    assert(coe_in(*doc, children@[k as int]));
                }
                out.append(doc.text_content(t).as_str());
            },
            ChildOfElement::Element(c2) => {
                proof {
                    assert(coe_in(*doc, children@[k as int]));
                    assert(c2.index > e.index);
                }
                push_elem_text(doc, c2, out);
            },
            _ => {},
        }
        proof {
            assert(out@ =~= old(out)@ + elem_text_upto(*doc, e.index as int, k + 1 as int));
        }
        k += 1;
    }
}

impl Node {
    /// The parent node: none for the root, the synthesized parent element
    /// for a namespace node, and the stored parent otherwise.
    pub fn parent(&self, doc: &Document) -> (r: Option<Node>)
        requires
            wf(*doc),
            node_in(*doc, *self),
        ensures
            r == spec_parent(*doc, *self),
    {
        match self {
            Node::Root(_) => None,
            Node::Element(e) => match doc.element_parent(*e) {
                Some(p) => Some(p.into()),
                None => None,
            },
            Node::Attribute(a) => match doc.attribute_parent(*a) {
                Some(e) => Some(Node::Element(e)),
                None => None,
            },
            Node::Text(t) => match doc.text_parent(*t) {
                Some(e) => Some(Node::Element(e)),
                None => None,
            },
            Node::Comment(c) => match doc.comment_parent(*c) {
                Some(p) => Some(p.into()),
                None => None,
            },
            Node::Namespace(ns) => Some(Node::Element(ns.parent)),
            Node::ProcessingInstruction(p) => match doc.pi_parent(*p) {
                Some(q) => Some(q.into()),
                None => None,
            },
        }
    }

    /// The children: the stored child list for the root and for elements,
    /// empty for every other kind.
    pub fn children(&self, doc: &Document) -> (r: Vec<Node>)
        requires
            wf(*doc),
            node_in(*doc, *self),
        ensures
            r@ == spec_children(*doc, *self),
    {
        match self {
            Node::Root(_) => {
                let children = doc.root_children();
                let n = children.len();
                let mut out: Vec<Node> = Vec::new();
                let mut k: usize = 0;
                while k < n
                    invariant
                        children@ == doc.root_children@,
                        n == children@.len(),
                        0 <= k <= n,
                        out@ == cor_nodes(children@).subrange(0, k as int),
                    decreases n - k,
                {
                    out.push(children[k].into());
                    proof {
                        assert(out@ =~= cor_nodes(children@).subrange(0, k + 1 as int));
                    }
                    k += 1;
                }
                proof {
                    assert(out@ =~= cor_nodes(children@));
                }
                out
            },
            Node::Element(e) => {
                let children = doc.element_children(*e);
                let n = children.len();
                let mut out: Vec<Node> = Vec::new();
                let mut k: usize = 0;
                while k < n
                    invariant
                        children@ == doc.elements@[e.index as int].children@,
                        n == children@.len(),
                        0 <= k <= n,
                        out@ == coe_nodes(children@).subrange(0, k as int),
                    decreases n - k,
                {
                    out.push(children[k].into());
                    proof {
                        assert(out@ =~= coe_nodes(children@).subrange(0, k + 1 as int));
                    }
                    k += 1;
                }
                proof {
                    assert(out@ =~= coe_nodes(children@));
                }
                out
            },
            _ => Vec::new(),
        }
    }

    /// The expanded (namespace URI, local part) name: stored names for
    /// elements and attributes, the target for a processing instruction,
    /// the prefix for a namespace node, none for the rest.
    pub fn expanded_name(&self, doc: &Document) -> (r: Option<QName>)
        requires
            wf(*doc),
            node_in(*doc, *self),
        ensures
            match *self {
                Node::Root(_) => r is None,
                Node::Element(e) => r == Some(doc.elements@[e.index as int].name),
                Node::Attribute(a) => r == Some(doc.attributes@[a.index as int].name),
                Node::Text(_) => r is None,
                Node::Comment(_) => r is None,
                Node::Namespace(ns) => r is Some && r->0.namespace_uri is None
                    && r->0.local_part == ns.prefix,
                Node::ProcessingInstruction(p) => r is Some && r->0.namespace_uri is None
                    && r->0.local_part == doc.processing_instructions@[p.index as int].target,
            },
    {
        match self {
            Node::Root(_) => None,
            Node::Element(e) => Some(doc.element_name(*e).clone()),
            Node::Attribute(a) => Some(doc.attribute_name(*a).clone()),
            Node::Text(_) => None,
            Node::Comment(_) => None,
            Node::Namespace(ns) => Some(ns.expanded_name()),
            Node::ProcessingInstruction(p) => Some(QName::new(doc.pi_target(*p).clone())),
        }
    }

    /// The string-value of the node, by the per-kind rule of [`node_text`].
    pub fn string_value(&self, doc: &Document) -> (r: String)
        requires
            wf(*doc),
            node_in(*doc, *self),
        ensures
            r@ == node_text(*doc, *self),
    {
        match self {
            Node::Root(_) => {
                let children = doc.root_children();
                let n = children.len();
                let mut out = String::new();
                let mut k: usize = 0;
                while k < n
                    invariant
                        wf(*doc),
                        children@ == doc.root_children@,
                        n == children@.len(),
                        0 <= k <= n,
                        out@ == root_text_upto(*doc, k as int),
                    decreases n - k,
                {
                    match children[k] {
                        ChildOfRoot::Element(c) => {
                            proof {
                                assert(cor_in(*doc, children@[k as int]));
                            }
                            push_elem_text(doc, c, &mut out);
                        },
                        _ => {},
                    }
                    proof {
                        assert(out@ =~= root_text_upto(*doc, k + 1 as int));
                    }
                    k += 1;
                }
                out
            },
            Node::Element(e) => {
                let mut out = String::new();
                push_elem_text(doc, *e, &mut out);
                out
            },
            Node::Attribute(a) => doc.attribute_value(*a).clone(),
            Node::Text(t) => doc.text_content(*t).clone(),
            Node::Comment(c) => doc.comment_content(*c).clone(),
            Node::Namespace(ns) => ns.uri.clone(),
            Node::ProcessingInstruction(p) => match doc.pi_value(*p) {
                Some(v) => v.clone(),
                None => String::new(),
            },
        }
    }
}

/// The position of the first occurrence of `c` in an element child list, or
/// `-1`.
pub open spec fn find_coe(s: Seq<ChildOfElement>, c: ChildOfElement) -> int
    decreases s.len(),
{
    if s.len() == 0 {
        -1
    } else if s[0] == c {
        0
    } else {
        let r = find_coe(s.drop_first(), c);
        if r == -1 {
            -1
        } else {
            1 + r
        }
    }
}

/// The position of the first occurrence of `c` in a root child list, or
/// `-1`.
pub open spec fn find_cor(s: Seq<ChildOfRoot>, c: ChildOfRoot) -> int
    decreases s.len(),
{
    if s.len() == 0 {
        -1
    } else if s[0] == c {
        0
    } else {
        let r = find_cor(s.drop_first(), c);
        if r == -1 {
            -1
        } else {
            1 + r
        }
    }
}

proof fn lemma_find_coe_hit(s: Seq<ChildOfElement>, c: ChildOfElement, k: int)
    requires
        0 <= k < s.len(),
        s[k] == c,
        forall|j: int| 0 <= j < k ==> #[trigger] s[j] != c,
    ensures
        find_coe(s, c) == k,
    decreases k,
{
    if s[0] != c {
        assert forall|j: int| 0 <= j < k - 1 implies #[trigger] s.drop_first()[j] != c by {
            assert(s.drop_first()[j] == s[j + 1]);
        }
        lemma_find_coe_hit(s.drop_first(), c, k - 1);
    }
}

proof fn lemma_find_coe_miss(s: Seq<ChildOfElement>, c: ChildOfElement)
    requires
        forall|j: int| 0 <= j < s.len() ==> #[trigger] s[j] != c,
    ensures
        find_coe(s, c) == -1,
    decreases s.len(),
{
    if s.len() > 0 {
        lemma_find_coe_miss(s.drop_first(), c);
    }
}

proof fn lemma_find_cor_hit(s: Seq<ChildOfRoot>, c: ChildOfRoot, k: int)
    requires
        0 <= k < s.len(),
        s[k] == c,
        forall|j: int| 0 <= j < k ==> #[trigger] s[j] != c,
    ensures
        find_cor(s, c) == k,
    decreases k,
{
    if s[0] != c {
        assert forall|j: int| 0 <= j < k - 1 implies #[trigger] s.drop_first()[j] != c by {
            assert(s.drop_first()[j] == s[j + 1]);
        }
        lemma_find_cor_hit(s.drop_first(), c, k - 1);
    }
}

proof fn lemma_find_cor_miss(s: Seq<ChildOfRoot>, c: ChildOfRoot)
    requires
        forall|j: int| 0 <= j < s.len() ==> #[trigger] s[j] != c,
    ensures
        find_cor(s, c) == -1,
    decreases s.len(),
{
    if s.len() > 0 {
        lemma_find_cor_miss(s.drop_first(), c);
    }
}

/// The siblings before `c` under element `p`, nearest first.
pub open spec fn before_in_elem(doc: Document, p: Element, c: ChildOfElement) -> Seq<Node> {
    let s = doc.elements@[p.index as int].children@;
    let k = find_coe(s, c);
    if k >= 0 {
        coe_nodes(s.subrange(0, k)).reverse()
    } else {
        Seq::empty()
    }
}

/// The siblings after `c` under element `p`, nearest first.
pub open spec fn after_in_elem(doc: Document, p: Element, c: ChildOfElement) -> Seq<Node> {
    let s = doc.elements@[p.index as int].children@;
    let k = find_coe(s, c);
    if k >= 0 {
        coe_nodes(s).subrange(k + 1, s.len() as int)
    } else {
        Seq::empty()
    }
}

/// The siblings before `c` under the root, nearest first.
pub open spec fn before_in_root(doc: Document, c: ChildOfRoot) -> Seq<Node> {
    let s = doc.root_children@;
    let k = find_cor(s, c);
    if k >= 0 {
        cor_nodes(s.subrange(0, k)).reverse()
    } else {
        Seq::empty()
    }
}

/// The siblings after `c` under the root, nearest first.
pub open spec fn after_in_root(doc: Document, c: ChildOfRoot) -> Seq<Node> {
    let s = doc.root_children@;
    let k = find_cor(s, c);
    if k >= 0 {
        cor_nodes(s).subrange(k + 1, s.len() as int)
    } else {
        Seq::empty()
    }
}

/// The siblings before a node in its parent's child list, nearest first:
/// empty for the root, attributes and namespace nodes, which have no
/// siblings.
pub open spec fn spec_preceding_siblings(doc: Document, n: Node) -> Seq<Node> {
    match n {
        Node::Element(e) => match doc.elements@[e.index as int].parent {
            Some(ParentOfChild::Root(_)) => before_in_root(doc, ChildOfRoot::Element(e)),
            Some(ParentOfChild::Element(p)) => before_in_elem(doc, p, ChildOfElement::Element(e)),
            None => Seq::empty(),
        },
        Node::Text(t) => match doc.texts@[t.index as int].parent {
            Some(p) => before_in_elem(doc, p, ChildOfElement::Text(t)),
            None => Seq::empty(),
        },
        Node::Comment(c) => match doc.comments@[c.index as int].parent {
            Some(ParentOfChild::Root(_)) => before_in_root(doc, ChildOfRoot::Comment(c)),
            Some(ParentOfChild::Element(p)) => before_in_elem(doc, p, ChildOfElement::Comment(c)),
            None => Seq::empty(),
        },
        Node::ProcessingInstruction(q) => match doc.processing_instructions@[q.index as int].parent {
            Some(ParentOfChild::Root(_)) => before_in_root(
                doc,
                ChildOfRoot::ProcessingInstruction(q),
            ),
            Some(ParentOfChild::Element(p)) => before_in_elem(
                doc,
                p,
                ChildOfElement::ProcessingInstruction(q),
            ),
            None => Seq::empty(),
        },
        _ => Seq::empty(),
    }
}

/// The siblings after a node in its parent's child list, nearest first.
pub open spec fn spec_following_siblings(doc: Document, n: Node) -> Seq<Node> {
    match n {
        Node::Element(e) => match doc.elements@[e.index as int].parent {
            Some(ParentOfChild::Root(_)) => after_in_root(doc, ChildOfRoot::Element(e)),
            Some(ParentOfChild::Element(p)) => after_in_elem(doc, p, ChildOfElement::Element(e)),
            None => Seq::empty(),
        },
        Node::Text(t) => match doc.texts@[t.index as int].parent {
            Some(p) => after_in_elem(doc, p, ChildOfElement::Text(t)),
            None => Seq::empty(),
        },
        Node::Comment(c) => match doc.comments@[c.index as int].parent {
            Some(ParentOfChild::Root(_)) => after_in_root(doc, ChildOfRoot::Comment(c)),
            Some(ParentOfChild::Element(p)) => after_in_elem(doc, p, ChildOfElement::Comment(c)),
            None => Seq::empty(),
        },
        Node::ProcessingInstruction(q) => match doc.processing_instructions@[q.index as int].parent {
            Some(ParentOfChild::Root(_)) => after_in_root(
                doc,
                ChildOfRoot::ProcessingInstruction(q),
            ),
            Some(ParentOfChild::Element(p)) => after_in_elem(
                doc,
                p,
                ChildOfElement::ProcessingInstruction(q),
            ),
            None => Seq::empty(),
        },
        _ => Seq::empty(),
    }
}

/// Scans an element child list for the first occurrence of `c`; the result
/// is the list's length when `c` does not occur.
fn scan_coe(s: &Vec<ChildOfElement>, c: ChildOfElement) -> (pos: usize)
    ensures
        pos <= s@.len(),
        pos == s@.len() ==> find_coe(s@, c) == -1,
        pos < s@.len() ==> find_coe(s@, c) == pos as int,
{
    let n = s.len();
    let mut pos: usize = n;
    let mut k: usize = 0;
    while k < n
        invariant
            n == s@.len(),
            0 <= k <= n,
            pos == n || (pos < k && s@[pos as int] == c && forall|j: int|
                0 <= j < pos ==> #[trigger] s@[j] != c),
            pos == n ==> forall|j: int| 0 <= j < k ==> #[trigger] s@[j] != c,
        decreases n - k,
    {
        if pos == n && s[k] == c {
            pos = k;
        }
        k += 1;
    }
    proof {
        if pos == n {
            lemma_find_coe_miss(s@, c);
        } else {
            lemma_find_coe_hit(s@, c, pos as int);
        }
    }
    pos
}

/// Scans a root child list for the first occurrence of `c`.
fn scan_cor(s: &Vec<ChildOfRoot>, c: ChildOfRoot) -> (pos: usize)
    ensures
        pos <= s@.len(),
        pos == s@.len() ==> find_cor(s@, c) == -1,
        pos < s@.len() ==> find_cor(s@, c) == pos as int,
{
    let n = s.len();
    let mut pos: usize = n;
    let mut k: usize = 0;
    while k < n
        invariant
            n == s@.len(),
            0 <= k <= n,
            pos == n || (pos < k && s@[pos as int] == c && forall|j: int|
                0 <= j < pos ==> #[trigger] s@[j] != c),
            pos == n ==> forall|j: int| 0 <= j < k ==> #[trigger] s@[j] != c,
        decreases n - k,
    {
        if pos == n && s[k] == c {
            pos = k;
        }
        k += 1;
    }
    proof {
        if pos == n {
            lemma_find_cor_miss(s@, c);
        } else {
            lemma_find_cor_hit(s@, c, pos as int);
        }
    }
    pos
}

/// Collects the siblings before `c` under element `p`, nearest first.
fn collect_before_elem(doc: &Document, p: Element, c: ChildOfElement) -> (r: Vec<Node>)
    requires
        elem_in(*doc, p),
    ensures
        r@ == before_in_elem(*doc, p, c),
{
    let s = doc.element_children(p);
    let pos = scan_coe(s, c);
    let mut out: Vec<Node> = Vec::new();
    if pos == s.len() {
        return out;
    }
    let mut j: usize = pos;
    while j > 0
        invariant
            s@ == doc.elements@[p.index as int].children@,
            pos < s@.len(),
            find_coe(s@, c) == pos as int,
            0 <= j <= pos,
            out@ == coe_nodes(s@.subrange(0, pos as int)).reverse().subrange(
                0,
                (pos - j) as int,
            ),
        decreases j,
    {
        j -= 1;
        out.push(s[j].into());
        proof {
            assert(out@ =~= coe_nodes(s@.subrange(0, pos as int)).reverse().subrange(
                0,
                (pos - j) as int,
            ));
        }
    }
    proof {
        assert(out@ =~= coe_nodes(s@.subrange(0, pos as int)).reverse());
    }
    out
}

/// Collects the siblings after `c` under element `p`, nearest first.
fn collect_after_elem(doc: &Document, p: Element, c: ChildOfElement) -> (r: Vec<Node>)
    requires
        elem_in(*doc, p),
    ensures
        r@ == after_in_elem(*doc, p, c),
{
    let s = doc.element_children(p);
    let pos = scan_coe(s, c);
    let mut out: Vec<Node> = Vec::new();
    if pos == s.len() {
        return out;
    }
    let n = s.len();
    let mut j: usize = pos + 1;
    while j < n
        invariant
            s@ == doc.elements@[p.index as int].children@,
            pos < s@.len(),
            n == s@.len(),
            find_coe(s@, c) == pos as int,
            pos + 1 <= j <= n,
            out@ == coe_nodes(s@).subrange(pos + 1 as int, j as int),
        decreases n - j,
    {
        out.push(s[j].into());
        proof {
            assert(out@ =~= coe_nodes(s@).subrange(pos + 1 as int, j + 1 as int));
        }
        j += 1;
    }
    out
}

/// Collects the siblings before `c` under the root, nearest first.
fn collect_before_root(doc: &Document, c: ChildOfRoot) -> (r: Vec<Node>)
    ensures
        r@ == before_in_root(*doc, c),
{
    let s = doc.root_children();
    let pos = scan_cor(s, c);
    let mut out: Vec<Node> = Vec::new();
    if pos == s.len() {
        return out;
    }
    let mut j: usize = pos;
    while j > 0
        invariant
            s@ == doc.root_children@,
            pos < s@.len(),
            find_cor(s@, c) == pos as int,
            0 <= j <= pos,
            out@ == cor_nodes(s@.subrange(0, pos as int)).reverse().subrange(
                0,
                (pos - j) as int,
            ),
        decreases j,
    {
        j -= 1;
        out.push(s[j].into());
        proof {
            assert(out@ =~= cor_nodes(s@.subrange(0, pos as int)).reverse().subrange(
                0,
                (pos - j) as int,
            ));
        }
    }
    proof {
        assert(out@ =~= cor_nodes(s@.subrange(0, pos as int)).reverse());
    }
    out
}

/// Collects the siblings after `c` under the root, nearest first.
fn collect_after_root(doc: &Document, c: ChildOfRoot) -> (r: Vec<Node>)
    ensures
        r@ == after_in_root(*doc, c),
{
    let s = doc.root_children();
    let pos = scan_cor(s, c);
    let mut out: Vec<Node> = Vec::new();
    if pos == s.len() {
        return out;
    }
    let n = s.len();
    let mut j: usize = pos + 1;
    while j < n
        invariant
            s@ == doc.root_children@,
            pos < s@.len(),
            n == s@.len(),
            find_cor(s@, c) == pos as int,
            pos + 1 <= j <= n,
            out@ == cor_nodes(s@).subrange(pos + 1 as int, j as int),
        decreases n - j,
    {
        out.push(s[j].into());
        proof {
            assert(out@ =~= cor_nodes(s@).subrange(pos + 1 as int, j + 1 as int));
        }
        j += 1;
    }
    out
}

impl Node {
    /// The siblings before this node, in reverse document order: the
    /// nearest sibling comes first.  The root, attributes and namespace
    /// nodes have none.
    pub fn preceding_siblings(&self, doc: &Document) -> (r: Vec<Node>)
        requires
            wf(*doc),
            node_in(*doc, *self),
        ensures
            r@ == spec_preceding_siblings(*doc, *self),
    {
        match self {
            Node::Element(e) => match doc.element_parent(*e) {
                Some(ParentOfChild::Root(_)) => collect_before_root(
                    doc,
                    ChildOfRoot::Element(*e),
                ),
                Some(ParentOfChild::Element(p)) => collect_before_elem(
                    doc,
                    p,
                    ChildOfElement::Element(*e),
                ),
                None => Vec::new(),
            },
            Node::Text(t) => match doc.text_parent(*t) {
                Some(p) => collect_before_elem(doc, p, ChildOfElement::Text(*t)),
                None => Vec::new(),
            },
            Node::Comment(c) => match doc.comment_parent(*c) {
                Some(ParentOfChild::Root(_)) => collect_before_root(
                    doc,
                    ChildOfRoot::Comment(*c),
                ),
                Some(ParentOfChild::Element(p)) => collect_before_elem(
                    doc,
                    p,
                    ChildOfElement::Comment(*c),
                ),
                None => Vec::new(),
            },
            Node::ProcessingInstruction(q) => match doc.pi_parent(*q) {
                Some(ParentOfChild::Root(_)) => collect_before_root(
                    doc,
                    ChildOfRoot::ProcessingInstruction(*q),
                ),
                Some(ParentOfChild::Element(p)) => collect_before_elem(
                    doc,
                    p,
                    ChildOfElement::ProcessingInstruction(*q),
                ),
                None => Vec::new(),
            },
            _ => Vec::new(),
        }
    }

    /// The siblings after this node, in document order: the nearest sibling
    /// comes first.  The root, attributes and namespace nodes have none.
    pub fn following_siblings(&self, doc: &Document) -> (r: Vec<Node>)
        requires
            wf(*doc),
            node_in(*doc, *self),
        ensures
            r@ == spec_following_siblings(*doc, *self),
    {
        match self {
            Node::Element(e) => match doc.element_parent(*e) {
                Some(ParentOfChild::Root(_)) => collect_after_root(doc, ChildOfRoot::Element(*e)),
                Some(ParentOfChild::Element(p)) => collect_after_elem(
                    doc,
                    p,
                    ChildOfElement::Element(*e),
                ),
                None => Vec::new(),
            },
            Node::Text(t) => match doc.text_parent(*t) {
                Some(p) => collect_after_elem(doc, p, ChildOfElement::Text(*t)),
                None => Vec::new(),
            },
            Node::Comment(c) => match doc.comment_parent(*c) {
                Some(ParentOfChild::Root(_)) => collect_after_root(doc, ChildOfRoot::Comment(*c)),
                Some(ParentOfChild::Element(p)) => collect_after_elem(
                    doc,
                    p,
                    ChildOfElement::Comment(*c),
                ),
                None => Vec::new(),
            },
            Node::ProcessingInstruction(q) => match doc.pi_parent(*q) {
                Some(ParentOfChild::Root(_)) => collect_after_root(
                    doc,
                    ChildOfRoot::ProcessingInstruction(*q),
                ),
                Some(ParentOfChild::Element(p)) => collect_after_elem(
                    doc,
                    p,
                    ChildOfElement::ProcessingInstruction(*q),
                ),
                None => Vec::new(),
            },
            _ => Vec::new(),
        }
    }
}

/// How a qualified name renders with `ctx`'s registrations: with a resolved
/// prefix as `prefix:local`; with no namespace, or none of the context's
/// prefixes bound to the namespace, as the bare local part.
pub open spec fn spec_qname_prefixed(
    doc: Document,
    ctx: Element,
    name: QName,
    preferred: Option<Seq<char>>,
) -> Seq<char> {
    match name.namespace_uri {
        Some(u) => match resolved_prefix(
            doc.elements@[ctx.index as int].prefixes@,
            u@,
            preferred,
        ) {
            Some(p) => p + seq![':'] + name.local_part@,
            None => name.local_part@,
        },
        None => name.local_part@,
    }
}

/// The prefixed name of a node: none for the root, text runs and comments;
/// the resolved own name for an element; the name resolved against the
/// parent element for an attribute; the target for a processing
/// instruction; the declared prefix for a namespace node.
pub open spec fn spec_prefixed_name(doc: Document, n: Node) -> Option<Seq<char>> {
    match n {
        Node::Root(_) => None,
        Node::Element(e) => Some(
            spec_qname_prefixed(
                doc,
                e,
                doc.elements@[e.index as int].name,
                opt_view(doc.elements@[e.index as int].preferred_prefix),
            ),
        ),
        Node::Attribute(a) => match doc.attributes@[a.index as int].parent {
            Some(pe) => Some(
                spec_qname_prefixed(
                    doc,
                    pe,
                    doc.attributes@[a.index as int].name,
                    opt_view(doc.attributes@[a.index as int].preferred_prefix),
                ),
            ),
            None => None,
        },
        Node::Text(_) => None,
        Node::Comment(_) => None,
        Node::Namespace(ns) => Some(ns.prefix@),
        Node::ProcessingInstruction(p) => Some(doc.processing_instructions@[p.index as int].target@),
    }
}

/// Renders `name` with the prefix `ctx` resolves its namespace URI to, or
/// bare when no prefix is bound.
fn qname_prefixed_name(
    doc: &Document,
    ctx: Element,
    name: &QName,
    preferred_prefix: &Option<String>,
) -> (r: String)
    requires
        elem_in(*doc, ctx),
    ensures
        r@ == spec_qname_prefixed(*doc, ctx, *name, opt_view(*preferred_prefix)),
{
    match name.namespace_uri() {
        Some(u) => {
            let pref: Option<&str> = match preferred_prefix {
                Some(p) => Some(p.as_str()),
                None => None,
            };
            match doc.prefix_for_namespace_uri(ctx, u.as_str(), pref) {
                Some(prefix) => {
                    let mut r = prefix;
                    r.append(":");
                    r.append(name.local_part().as_str());
                    proof {
                        reveal_strlit(":");
                        assert(":"@ =~= seq![':']);
                    }
                    r
                },
                None => name.local_part().clone(),
            }
        },
        None => name.local_part().clone(),
    }
}

impl Node {
    /// The prefixed (human-readable) name of the node.  An attribute must
    /// be attached: resolving it needs its parent element's registrations,
    /// and a well-formed tree never holds an orphan attribute.
    pub fn prefixed_name(&self, doc: &Document) -> (r: Option<String>)
        requires
            wf(*doc),
            node_in(*doc, *self),
            match *self {
                Node::Attribute(a) => doc.attributes@[a.index as int].parent is Some,
                _ => true,
            },
        ensures
            match r {
                Some(s) => spec_prefixed_name(*doc, *self) == Some(s@),
                None => spec_prefixed_name(*doc, *self) is None,
            },
    {
        match self {
            Node::Root(_) => None,
            Node::Element(e) => {
                let name = doc.element_name(*e).clone();
                let preferred = doc.element_preferred_prefix(*e).clone();
                Some(qname_prefixed_name(doc, *e, &name, &preferred))
            },
            Node::Attribute(a) => {
                match doc.attribute_parent(*a) {
                    Some(pe) => {
                        let name = doc.attribute_name(*a).clone();
                        let preferred = doc.attribute_preferred_prefix(*a).clone();
                        Some(qname_prefixed_name(doc, pe, &name, &preferred))
                    },
                    None => {
                        // excluded by contract: an attribute always has a parent
                        proof {
                            assert(false);
                        }
                        None
                    },
                }
            },
            Node::Text(_) => None,
            Node::Comment(_) => None,
            Node::Namespace(ns) => Some(ns.prefix.clone()),
            Node::ProcessingInstruction(p) => Some(doc.pi_target(*p).clone()),
        }
    }
}

/// The attribute handles of an element, as attribute nodes.
pub open spec fn attrs_nodes(s: Seq<Attribute>) -> Seq<Node> {
    Seq::new(s.len(), |i: int| Node::Attribute(s[i]))
}

/// The preorder visit of an element's subtree: the element itself, then its
/// attributes in stored order, then each child's subtree in order.
pub open spec fn preorder_elem(doc: Document, e: Element) -> Seq<Node>
    decreases doc.elements@.len() - e.index, doc.elements@[e.index as int].children@.len() + 1,
{
    if !((e.index as int) < doc.elements@.len()) {
        seq![Node::Element(e)]
    } else {
        seq![Node::Element(e)] + attrs_nodes(doc.elements@[e.index as int].attributes@)
            + preorder_upto(
            doc,
            e.index as int,
            doc.elements@[e.index as int].children@.len() as int,
        )
    }
}

/// The preorder visit of the subtrees of the first `k` children of element
/// `e`, in order.
pub open spec fn preorder_upto(doc: Document, e: int, k: int) -> Seq<Node>
    decreases doc.elements@.len() - e, k,
{
    if k <= 0 || !(0 <= e && e < doc.elements@.len()) {
        Seq::empty()
    } else {
        let s = doc.elements@[e].children@;
        preorder_upto(doc, e, k - 1) + if k > s.len() {
            Seq::empty()
        } else {
            match s[k - 1] {
                ChildOfElement::Element(c) => if e < c.index && (c.index as int)
                    < doc.elements@.len() {
                    preorder_elem(doc, c)
                } else {
                    seq![Node::Element(c)]
                },
                ChildOfElement::Text(t) => seq![Node::Text(t)],
                ChildOfElement::Comment(c) => seq![Node::Comment(c)],
                ChildOfElement::ProcessingInstruction(p) => seq![
                    Node::ProcessingInstruction(p),
                ],
            }
        }
    }
}

/// The preorder visit of the subtrees of the first `k` root children.
pub open spec fn preorder_root_upto(doc: Document, k: int) -> Seq<Node>
    decreases k,
{
    if k <= 0 {
        Seq::empty()
    } else {
        let s = doc.root_children@;
        preorder_root_upto(doc, k - 1) + if k > s.len() {
            Seq::empty()
        } else {
            match s[k - 1] {
                ChildOfRoot::Element(c) => if (c.index as int) < doc.elements@.len() {
                    preorder_elem(doc, c)
                } else {
                    seq![Node::Element(c)]
                },
                ChildOfRoot::Comment(c) => seq![Node::Comment(c)],
                ChildOfRoot::ProcessingInstruction(p) => seq![
                    Node::ProcessingInstruction(p),
                ],
            }
        }
    }
}

/// Document order: the root first, then every reachable node, each element
/// followed by its attributes and then its children's subtrees.  Namespace
/// nodes are given no position.
pub open spec fn preorder(doc: Document) -> Seq<Node> {
    seq![Node::Root(Root { doc: doc.id })] + preorder_root_upto(
        doc,
        doc.root_children@.len() as int,
    )
}

/// The position of the first entry of `s` standing for node `x`, or `-1`.
pub open spec fn find_node(s: Seq<Node>, x: Node) -> int
    decreases s.len(),
{
    if s.len() == 0 {
        -1
    } else if node_eq(s[0], x) {
        0
    } else {
        let r = find_node(s.drop_first(), x);
        if r == -1 {
            -1
        } else {
            1 + r
        }
    }
}

/// A found position is in range and holds the node looked for.
proof fn lemma_find_node_props(s: Seq<Node>, x: Node)
    ensures
        find_node(s, x) == -1 || (0 <= find_node(s, x) < s.len() && node_eq(
            s[find_node(s, x)],
            x,
        )),
    decreases s.len(),
{
    if s.len() != 0 && !node_eq(s[0], x) {
        lemma_find_node_props(s.drop_first(), x);
    }
}

/// A hit at `k` after `k` misses puts the first occurrence at or before `k`.
proof fn lemma_find_node_hit(s: Seq<Node>, x: Node, k: int)
    requires
        0 <= k < s.len(),
        node_eq(s[k], x),
    ensures
        0 <= find_node(s, x) <= k,
    decreases k,
{
    if !node_eq(s[0], x) {
        lemma_find_node_hit(s.drop_first(), x, k - 1);
    }
}

/// With no occurrence among the first `k` entries, the first occurrence, if
/// any, lies at or past `k`.
proof fn lemma_find_node_ge(s: Seq<Node>, x: Node, k: int)
    requires
        0 <= k <= s.len(),
        forall|j: int| 0 <= j < k ==> !node_eq(#[trigger] s[j], x),
    ensures
        find_node(s, x) == -1 || find_node(s, x) >= k,
    decreases k,
{
    lemma_find_node_props(s, x);
    if k > 0 {
        assert(!node_eq(s[0], x));
        assert forall|j: int| 0 <= j < k - 1 implies !node_eq(
            #[trigger] s.drop_first()[j],
            x,
        ) by {
            assert(s.drop_first()[j] == s[j + 1]);
        }
        lemma_find_node_ge(s.drop_first(), x, k - 1);
    }
}

/// Appends the preorder visit of element `e`'s subtree to `out`.
fn push_preorder_elem(doc: &Document, e: Element, out: &mut Vec<Node>)
    requires
        wf(*doc),
        elem_in(*doc, e),
    ensures
        final(out)@ == old(out)@ + preorder_elem(*doc, e),
    decreases doc.elements@.len() - e.index,
{
    out.push(Node::Element(e));
    let attrs = doc.element_attributes(e);
    let na = attrs.len();
    let mut k: usize = 0;
    while k < na
        invariant
            wf(*doc),
            elem_in(*doc, e),
            attrs@ == doc.elements@[e.index as int].attributes@,
            na == attrs@.len(),
            0 <= k <= na,
            out@ == old(out)@ + seq![Node::Element(e)] + attrs_nodes(attrs@).subrange(0, k as int),
        decreases na - k,
    {
        out.push(Node::Attribute(attrs[k]));
        proof {
            assert(out@ =~= old(out)@ + seq![Node::Element(e)] + attrs_nodes(attrs@).subrange(
                0,
                k + 1 as int,
            ));
        }
        k += 1;
    }
    proof {
        assert(attrs_nodes(attrs@).subrange(0, na as int) =~= attrs_nodes(attrs@));
    }
    let children = doc.element_children(e);
    let n = children.len();
    let mut k: usize = 0;
    while k < n
        invariant
            wf(*doc),
            elem_in(*doc, e),
            children@ == doc.elements@[e.index as int].children@,
            n == children@.len(),
            0 <= k <= n,
            out@ == old(out)@ + seq![Node::Element(e)] + attrs_nodes(
                doc.elements@[e.index as int].attributes@,
            ) + preorder_upto(*doc, e.index as int, k as int),
        decreases n - k,
    {
        match children[k] {
            ChildOfElement::Element(c) => {
                proof {
                    assert(coe_in(*doc, children@[k as int]));
                    assert(c.index > e.index);
                }
                push_preorder_elem(doc, c, out);
            },
            ChildOfElement::Text(t) => {
                out.push(Node::Text(t));
            },
            ChildOfElement::Comment(c) => {
                out.push(Node::Comment(c));
            },
            ChildOfElement::ProcessingInstruction(p) => {
                out.push(Node::ProcessingInstruction(p));
            },
        }
        proof {
            assert(out@ =~= old(out)@ + seq![Node::Element(e)] + attrs_nodes(
                doc.elements@[e.index as int].attributes@,
            ) + preorder_upto(*doc, e.index as int, k + 1 as int));
        }
        k += 1;
    }
    proof {
        assert(out@ =~= old(out)@ + preorder_elem(*doc, e));
    }
}

/// Builds the whole document-order sequence, root first.
fn build_preorder(doc: &Document) -> (r: Vec<Node>)
    requires
        wf(*doc),
    ensures
        r@ == preorder(*doc),
{
    let mut out: Vec<Node> = Vec::new();
    out.push(Node::Root(doc.root()));
    let children = doc.root_children();
    let n = children.len();
    let mut k: usize = 0;
    while k < n
        invariant
            wf(*doc),
            children@ == doc.root_children@,
            n == children@.len(),
            0 <= k <= n,
            out@ == seq![Node::Root(Root { doc: doc.id })] + preorder_root_upto(*doc, k as int),
        decreases n - k,
    {
        match children[k] {
            ChildOfRoot::Element(c) => {
                proof {
                    assert(cor_in(*doc, children@[k as int]));
                }
                push_preorder_elem(doc, c, &mut out);
            },
            ChildOfRoot::Comment(c) => {
                out.push(Node::Comment(c));
            },
            ChildOfRoot::ProcessingInstruction(p) => {
                out.push(Node::ProcessingInstruction(p));
            },
        }
        proof {
            assert(out@ =~= seq![Node::Root(Root { doc: doc.id })] + preorder_root_upto(
                *doc,
                k + 1 as int,
            ));
        }
        k += 1;
    }
    proof {
        assert(out@ =~= preorder(*doc));
    }
    out
}

/// Whether some member of `nodes` stands for the same node as `x`.
fn contains_node(nodes: &Vec<Node>, x: &Node) -> (r: bool)
    ensures
        r == exists|i: int| 0 <= i < nodes@.len() && node_eq(#[trigger] nodes@[i], *x),
{
    let n = nodes.len();
    let mut i: usize = 0;
    while i < n
        invariant
            n == nodes@.len(),
            0 <= i <= n,
            forall|j: int| 0 <= j < i ==> !node_eq(#[trigger] nodes@[j], *x),
        decreases n - i,
    {
        if &nodes[i] == x {
            proof {
                assert(node_eq(nodes@[i as int], *x));
            }
            return true;
        }
        i += 1;
    }
    false
}

/// The members of `a` and `b` stand for the same nodes, in the same order
/// and with the same multiplicity.
pub open spec fn nodeset_eq(a: Seq<Node>, b: Seq<Node>) -> bool {
    a.len() == b.len() && forall|i: int| 0 <= i < a.len() ==> node_eq(#[trigger] a[i], b[i])
}

/// An insertion-ordered collection of nodes.  Duplicates are kept: a node
/// added twice appears twice.
#[derive(Debug)]
pub struct Nodeset {
    pub nodes: Vec<Node>,
}

impl View for Nodeset {
    type V = Seq<Node>;

    open spec fn view(&self) -> Seq<Node> {
        self.nodes@
    }
}

impl PartialEq for Nodeset {
    fn eq(&self, other: &Self) -> (r: bool)
        ensures
            r == nodeset_eq(self@, other@),
    {
        if self.nodes.len() != other.nodes.len() {
            return false;
        }
        let n = self.nodes.len();
        let mut i: usize = 0;
        while i < n
            invariant
                n == self@.len(),
                n == other@.len(),
                0 <= i <= n,
                forall|j: int| 0 <= j < i ==> node_eq(#[trigger] self@[j], other@[j]),
            decreases n - i,
        {
            if !(self.nodes[i] == other.nodes[i]) {
                return false;
            }
            i += 1;
        }
        true
    }
}

impl vstd::std_specs::cmp::PartialEqSpecImpl for Nodeset {
    open spec fn obeys_eq_spec() -> bool {
        true
    }

    open spec fn eq_spec(&self, other: &Self) -> bool {
        nodeset_eq(self@, other@)
    }
}

impl Clone for Nodeset {
    fn clone(&self) -> (res: Self)
        ensures
            res@ == self@,
    {
        let mut nodes: Vec<Node> = Vec::new();
        let n = self.nodes.len();
        let mut i: usize = 0;
        while i < n
            invariant
                n == self@.len(),
                0 <= i <= n,
                nodes@ == self@.subrange(0, i as int),
            decreases n - i,
        {
            nodes.push(self.nodes[i].clone());
            proof {
                assert(nodes@ =~= self@.subrange(0, i + 1));
            }
            i += 1;
        }
        proof {
            assert(nodes@ =~= self@);
        }
        Nodeset { nodes }
    }
}

impl Nodeset {
    /// The empty node-set.
    pub fn new() -> (r: Nodeset)
        ensures
            r@ == Seq::<Node>::empty(),
    {
        Nodeset { nodes: Vec::new() }
    }

    /// Appends one node, converted from any node kind.  Duplicates are
    /// permitted.
    pub fn add<N: Into<Node>>(&mut self, node: N)
        ensures
            final(self)@.len() == old(self)@.len() + 1,
            forall|i: int| 0 <= i < old(self)@.len() ==> final(self)@[i] == old(self)@[i],
            <N as vstd::std_specs::convert::IntoSpec<Node>>::obeys_into_spec() ==> final(self)@
                == old(self)@.push(node.into_spec()),
    {
        self.nodes.push(node.into());
    }

    /// Appends all of `other`'s members, in `other`'s order, after the
    /// present members; `other` is left untouched and duplicates are kept.
    pub fn add_nodeset(&mut self, other: &Nodeset)
        ensures
            final(self)@ == old(self)@ + other@,
    {
        let n = other.nodes.len();
        let mut i: usize = 0;
        while i < n
            invariant
                n == other@.len(),
                0 <= i <= n,
                self@ == old(self)@ + other@.subrange(0, i as int),
            decreases n - i,
        {
            self.nodes.push(other.nodes[i].clone());
            proof {
                assert(self@ =~= old(self)@ + other@.subrange(0, i + 1));
            }
            i += 1;
        }
        proof {
            assert(old(self)@ + other@.subrange(0, n as int) =~= old(self)@ + other@);
        }
    }

    /// How many members the set has, duplicates counted.
    pub fn size(&self) -> (r: usize)
        ensures
            r == self@.len(),
    {
        self.nodes.len()
    }

    /// A restartable iteration over the members, in insertion order.
    pub fn iter<'a>(&'a self) -> (r: Iter<'a>)
        ensures
            r@ == self@,
    {
        let r = Iter { set: self, pos: 0 };
        proof {
            assert(r@ =~= self@);
        }
        r
    }

    /// A consuming iteration over the members, in insertion order.
    pub fn into_iter(self) -> (r: IntoIter)
        ensures
            r@ == self@,
    {
        let r = IntoIter { nodes: self.nodes, pos: 0 };
        proof {
            assert(r@ =~= self.nodes@);
        }
        r
    }

    /// Collects the node component of each (context, node) pair, in order:
    /// a convenience builder for evaluator code that carries extra per-node
    /// context during iteration.
    pub fn from_pairs<C>(pairs: &Vec<(C, Node)>) -> (r: Nodeset)
        ensures
            r@ == Seq::new(pairs@.len(), |i: int| pairs@[i].1),
    {
        let mut set = Nodeset::new();
        let n = pairs.len();
        let mut i: usize = 0;
        while i < n
            invariant
                n == pairs@.len(),
                0 <= i <= n,
                set@ == Seq::new(i as nat, |j: int| pairs@[j].1),
            decreases n - i,
        {
            set.nodes.push(pairs[i].1.clone());
            proof {
                assert(set@ =~= Seq::new((i + 1) as nat, |j: int| pairs@[j].1));
            }
            i += 1;
        }
        set
    }

    /// The member that comes first in document order, or `None` exactly when
    /// the set is empty.  Every member must have a position in the
    /// document's order, so namespace nodes — which the traversal does not
    /// place — and nodes of another document are excluded by contract.  The
    /// order is rebuilt from the tree on every call; nothing is cached
    /// across mutations.
    pub fn document_order_first(&self, doc: &Document) -> (r: Option<Node>)
        requires
            wf(*doc),
            forall|i: int|
                0 <= i < self@.len() ==> find_node(preorder(*doc), #[trigger] self@[i]) >= 0,
        ensures
            match r {
                None => self@.len() == 0,
                Some(n) => {
                    &&& exists|i: int| 0 <= i < self@.len() && node_eq(#[trigger] self@[i], n)
                    &&& forall|i: int|
                        0 <= i < self@.len() ==> find_node(preorder(*doc), n) <= find_node(
                            preorder(*doc),
                            #[trigger] self@[i],
                        )
                },
            },
    {
        if self.nodes.len() == 0 {
            return None;
        }
        let order = build_preorder(doc);
        let m = order.len();
        let mut k: usize = 0;
        while k < m
            invariant
                wf(*doc),
                order@ == preorder(*doc),
                m == order@.len(),
                self@.len() > 0,
                forall|i: int|
                    0 <= i < self@.len() ==> find_node(preorder(*doc), #[trigger] self@[i]) >= 0,
                0 <= k <= m,
                forall|j: int|
                    #![trigger order@[j]]
                    0 <= j < k ==> !exists|i: int|
                        0 <= i < self@.len() && node_eq(#[trigger] self@[i], order@[j]),
            decreases m - k,
        {
            if contains_node(&self.nodes, &order[k]) {
                let n = order[k].clone();
                proof {
                    lemma_find_node_hit(order@, n, k as int);
                    assert forall|i: int| 0 <= i < self@.len() implies find_node(preorder(*doc), n)
                        <= find_node(preorder(*doc), #[trigger] self@[i]) by {
                        let p = find_node(preorder(*doc), self@[i]);
                        lemma_find_node_props(preorder(*doc), self@[i]);
                        assert forall|j: int| 0 <= j < k implies !node_eq(
                            #[trigger] order@[j],
                            self@[i],
                        ) by {
                            assert(!exists|i2: int|
                                0 <= i2 < self@.len() && node_eq(#[trigger] self@[i2], order@[j]));
                        }
                        lemma_find_node_ge(order@, self@[i], k as int);
                    }
                }
                return Some(n);
            }
            k += 1;
        }
        proof {
            let x = self@[0];
            let p = find_node(preorder(*doc), x);
            lemma_find_node_props(preorder(*doc), x);
            assert(node_eq(order@[p], x));
            assert(!exists|i: int| 0 <= i < self@.len() && node_eq(#[trigger] self@[i], order@[p]));
            assert(node_eq(self@[0], order@[p]));
            assert(false);
        }
        None
    }
}

/// Taking the union keeps member order: after `a.add_nodeset(&b)` the
/// members are exactly `a`'s, in `a`'s order, followed by `b`'s, in `b`'s
/// order, with no deduplication.
pub proof fn lemma_union_keeps_order(a: Seq<Node>, b: Seq<Node>)
    ensures
        (a + b).len() == a.len() + b.len(),
        forall|i: int| 0 <= i < a.len() ==> (a + b)[i] == a[i],
        forall|i: int| 0 <= i < b.len() ==> (a + b)[a.len() + i] == b[i],
{
}

/// Adding two nodes one by one builds the same member sequence as taking
/// the union of the two singleton sets: the two build paths agree, so the
/// sets compare equal.
pub proof fn lemma_build_paths_agree(x: Node, y: Node)
    ensures
        Seq::<Node>::empty().push(x).push(y) == Seq::<Node>::empty().push(x) + Seq::<
            Node,
        >::empty().push(y),
{
    assert(Seq::<Node>::empty().push(x).push(y) =~= Seq::<Node>::empty().push(x) + Seq::<
        Node,
    >::empty().push(y));
}

/// Two node-sets holding the same nodes in the same order and multiplicity
/// are equal, however they were built: this is what `==` on node-sets
/// decides.
pub proof fn lemma_eq_from_members(a: &Nodeset, b: &Nodeset)
    requires
        a@.len() == b@.len(),
        forall|i: int| 0 <= i < a@.len() ==> node_eq(#[trigger] a@[i], b@[i]),
    ensures
        nodeset_eq(a@, b@),
{
}

/// A name whose namespace URI no registration of the resolution context
/// binds falls back to the bare local part.
pub proof fn lemma_unregistered_uri_gives_bare_name(
    doc: Document,
    ctx: Element,
    name: QName,
    preferred: Option<Seq<char>>,
)
    requires
        name.namespace_uri is Some,
        forall|i: int|
            0 <= i < doc.elements@[ctx.index as int].prefixes@.len() ==> (#[trigger] doc.elements@[ctx.index as int].prefixes@[i]).uri@
                != name.namespace_uri->0@,
    ensures
        spec_qname_prefixed(doc, ctx, name, preferred) == name.local_part@,
{
    let s = doc.elements@[ctx.index as int].prefixes@;
    let uri = name.namespace_uri->0@;
    lemma_no_match_no_prefix(s, uri);
    assert(!mapping_present(s, match preferred {
        Some(p) => p,
        None => Seq::empty(),
    }, uri));
}

/// A URI bound by some registration of the resolution context always
/// resolves to a prefix, so the rendered name carries one.
pub proof fn lemma_registered_uri_resolves(
    s: Seq<crate::dom::PrefixMapping>,
    uri: Seq<char>,
    preferred: Option<Seq<char>>,
)
    requires
        exists|i: int| 0 <= i < s.len() && (#[trigger] s[i]).uri@ == uri,
    ensures
        resolved_prefix(s, uri, preferred) is Some,
{
    let i = choose|i: int| 0 <= i < s.len() && (#[trigger] s[i]).uri@ == uri;
    lemma_match_gives_prefix(s, uri, i);
}

/// No registration binds `uri`, so the scan finds nothing.
proof fn lemma_no_match_no_prefix(s: Seq<crate::dom::PrefixMapping>, uri: Seq<char>)
    requires
        forall|i: int| 0 <= i < s.len() ==> (#[trigger] s[i]).uri@ != uri,
    ensures
        crate::dom::first_prefix_for(s, uri) is None,
    decreases s.len(),
{
    if s.len() > 0 {
        lemma_no_match_no_prefix(s.drop_first(), uri);
    }
}

/// A registration at `i` binding `uri` makes the scan succeed.
proof fn lemma_match_gives_prefix(s: Seq<crate::dom::PrefixMapping>, uri: Seq<char>, i: int)
    requires
        0 <= i < s.len(),
        s[i].uri@ == uri,
    ensures
        crate::dom::first_prefix_for(s, uri) is Some,
    decreases i,
{
    if s[0].uri@ != uri {
        lemma_match_gives_prefix(s.drop_first(), uri, i - 1);
    }
}

/// A borrowed cursor over a node-set; its view is the sequence of members
/// not yet produced.
#[derive(Debug)]
pub struct Iter<'a> {
    pub set: &'a Nodeset,
    pub pos: usize,
}

impl<'a> View for Iter<'a> {
    type V = Seq<Node>;

    open spec fn view(&self) -> Seq<Node> {
        if self.pos as int <= self.set@.len() {
            self.set@.skip(self.pos as int)
        } else {
            Seq::empty()
        }
    }
}

impl<'a> Iter<'a> {
    /// The next member, front to back; `None` once all have been produced.
    pub fn next(&mut self) -> (r: Option<Node>)
        ensures
            match r {
                Some(n) => old(self)@.len() > 0 && n == old(self)@[0] && final(self)@ == old(
                    self,
                )@.drop_first(),
                None => old(self)@.len() == 0 && final(self)@ == old(self)@,
            },
    {
        if self.pos < self.set.nodes.len() {
            let n = self.set.nodes[self.pos].clone();
            self.pos = self.pos + 1;
            proof {
                assert(self@ =~= old(self)@.drop_first());
            }
            Some(n)
        } else {
            None
        }
    }
}

/// An owning cursor over a node-set; its view is the sequence of members
/// not yet produced.
#[derive(Debug)]
pub struct IntoIter {
    pub nodes: Vec<Node>,
    pub pos: usize,
}

impl View for IntoIter {
    type V = Seq<Node>;

    open spec fn view(&self) -> Seq<Node> {
        if self.pos as int <= self.nodes@.len() {
            self.nodes@.skip(self.pos as int)
        } else {
            Seq::empty()
        }
    }
}

impl IntoIter {
    /// The next member, front to back; `None` once all have been produced.
    pub fn next(&mut self) -> (r: Option<Node>)
        ensures
            match r {
                Some(n) => old(self)@.len() > 0 && n == old(self)@[0] && final(self)@ == old(
                    self,
                )@.drop_first(),
                None => old(self)@.len() == 0 && final(self)@ == old(self)@,
            },
    {
        if self.pos < self.nodes.len() {
            let n = self.nodes[self.pos].clone();
            self.pos = self.pos + 1;
            proof {
                assert(self@ =~= old(self)@.drop_first());
            }
            Some(n)
        } else {
            None
        }
    }
}

} // verus!


