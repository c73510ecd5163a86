//! An arena-owned document tree.
//!
//! The document owns every node in flat tables, one per node kind.  A node
//! handle is a document id plus an index into the table for its kind; handles
//! are small, copyable and comparable, and all access to node data is
//! mediated by the owning [`Document`].
//!
//! Well-formedness ([`wf`]) asks that every stored handle point into its
//! table and carry the owning document's id, and that an element's element
//! children sit at strictly larger arena indices than the element itself:
//! elements are created before they are attached, so the tree grows downward
//! through increasing indices.  That ordering is what bounds the recursion in
//! the traversals of [`crate::nodeset`].

use vstd::prelude::*;
use crate::DocId;

verus! {

/// A qualified name: an optional namespace URI together with a local part.
#[derive(Debug)]
pub struct QName {
    pub namespace_uri: Option<String>,
    pub local_part: String,
}

impl QName {
    /// A name with no namespace.
    pub fn new(local_part: String) -> (q: QName)
        ensures
            q.namespace_uri is None,
            q.local_part == local_part,
    {
        QName { namespace_uri: None, local_part }
    }

    /// A name carrying a namespace URI.
    pub fn with_namespace(namespace_uri: String, local_part: String) -> (q: QName)
        ensures
            q.namespace_uri == Some(namespace_uri),
            q.local_part == local_part,
    {
        QName { namespace_uri: Some(namespace_uri), local_part }
    }

    pub fn namespace_uri(&self) -> (r: Option<&String>)
        ensures
            match r {
                Some(u) => self.namespace_uri == Some(*u),
                None => self.namespace_uri is None,
            },
    {
        self.namespace_uri.as_ref()
    }

    pub fn local_part(&self) -> (r: &String)
        ensures
            *r == self.local_part,
    {
        &self.local_part
    }
}

impl Clone for QName {
    fn clone(&self) -> (res: Self)
        ensures
            res == *self,
    {
        QName {
            namespace_uri: match &self.namespace_uri {
                Some(u) => Some(u.clone()),
                None => None,
            },
            local_part: self.local_part.clone(),
        }
    }
}

/// Handle to a document's root.
#[derive(Clone, Copy, PartialEq, Eq, Hash, Debug, Structural)]
pub struct Root {
    pub doc: DocId,
}

/// Handle to an element node.
#[derive(Clone, Copy, PartialEq, Eq, Hash, Debug, Structural)]
pub struct Element {
    pub doc: DocId,
    pub index: usize,
}

/// Handle to an attribute node.
#[derive(Clone, Copy, PartialEq, Eq, Hash, Debug, Structural)]
pub struct Attribute {
    pub doc: DocId,
    pub index: usize,
}

/// Handle to a text node.
#[derive(Clone, Copy, PartialEq, Eq, Hash, Debug, Structural)]
pub struct Text {
    pub doc: DocId,
    pub index: usize,
}

/// Handle to a comment node.
#[derive(Clone, Copy, PartialEq, Eq, Hash, Debug, Structural)]
pub struct Comment {
    pub doc: DocId,
    pub index: usize,
}

/// Handle to a processing-instruction node.
#[derive(Clone, Copy, PartialEq, Eq, Hash, Debug, Structural)]
pub struct ProcessingInstruction {
    pub doc: DocId,
    pub index: usize,
}

/// The kinds of node that can sit directly under the root.
#[derive(Clone, Copy, PartialEq, Eq, Hash, Debug, Structural)]
pub enum ChildOfRoot {
    Element(Element),
    Comment(Comment),
    ProcessingInstruction(ProcessingInstruction),
}

/// The kinds of node that can sit under an element.
#[derive(Clone, Copy, PartialEq, Eq, Hash, Debug, Structural)]
pub enum ChildOfElement {
    Element(Element),
    Text(Text),
    Comment(Comment),
    ProcessingInstruction(ProcessingInstruction),
}

/// The kinds of node that can be a parent.
#[derive(Clone, Copy, PartialEq, Eq, Hash, Debug, Structural)]
pub enum ParentOfChild {
    Root(Root),
    Element(Element),
}

/// One prefix-to-URI registration on an element.
#[derive(Debug)]
pub struct PrefixMapping {
    pub prefix: String,
    pub uri: String,
}

/// Arena row for an element.
#[derive(Debug)]
pub struct ElementData {
    pub name: QName,
    pub preferred_prefix: Option<String>,
    pub prefixes: Vec<PrefixMapping>,
    pub parent: Option<ParentOfChild>,
    pub children: Vec<ChildOfElement>,
    pub attributes: Vec<Attribute>,
}

/// Arena row for an attribute.
#[derive(Debug)]
pub struct AttributeData {
    pub name: QName,
    pub value: String,
    pub preferred_prefix: Option<String>,
    pub parent: Option<Element>,
}

/// Arena row for a text node.
#[derive(Debug)]
pub struct TextData {
    pub text: String,
    pub parent: Option<Element>,
}

/// Arena row for a comment.
#[derive(Debug)]
pub struct CommentData {
    pub text: String,
    pub parent: Option<ParentOfChild>,
}

/// Arena row for a processing instruction.
#[derive(Debug)]
pub struct ProcessingInstructionData {
    pub target: String,
    pub value: Option<String>,
    pub parent: Option<ParentOfChild>,
}

/// The arena that owns a whole document tree.
#[derive(Debug)]
pub struct Document {
    pub id: DocId,
    pub root_children: Vec<ChildOfRoot>,
    pub elements: Vec<ElementData>,
    pub attributes: Vec<AttributeData>,
    pub texts: Vec<TextData>,
    pub comments: Vec<CommentData>,
    pub processing_instructions: Vec<ProcessingInstructionData>,
}

/// The element handle `e` belongs to `doc` and points into its element table.
pub open spec fn elem_in(doc: Document, e: Element) -> bool {
    e.doc == doc.id && e.index < doc.elements@.len()
}

pub open spec fn attr_in(doc: Document, a: Attribute) -> bool {
    a.doc == doc.id && a.index < doc.attributes@.len()
}

pub open spec fn text_in(doc: Document, t: Text) -> bool {
    t.doc == doc.id && t.index < doc.texts@.len()
}

pub open spec fn comment_in(doc: Document, c: Comment) -> bool {
    c.doc == doc.id && c.index < doc.comments@.len()
}

pub open spec fn pi_in(doc: Document, p: ProcessingInstruction) -> bool {
    p.doc == doc.id && p.index < doc.processing_instructions@.len()
}

pub open spec fn root_in(doc: Document, r: Root) -> bool {
    r.doc == doc.id
}

pub open spec fn cor_in(doc: Document, c: ChildOfRoot) -> bool {
    match c {
        ChildOfRoot::Element(e) => elem_in(doc, e),
        ChildOfRoot::Comment(c) => comment_in(doc, c),
        ChildOfRoot::ProcessingInstruction(p) => pi_in(doc, p),
    }
}

pub open spec fn coe_in(doc: Document, c: ChildOfElement) -> bool {
    match c {
        ChildOfElement::Element(e) => elem_in(doc, e),
        ChildOfElement::Text(t) => text_in(doc, t),
        ChildOfElement::Comment(c) => comment_in(doc, c),
        ChildOfElement::ProcessingInstruction(p) => pi_in(doc, p),
    }
}

pub open spec fn poc_in(doc: Document, p: ParentOfChild) -> bool {
    match p {
        ParentOfChild::Root(r) => root_in(doc, r),
        ParentOfChild::Element(e) => elem_in(doc, e),
    }
}

/// The arena index of a child that is an element, if it is one.
pub open spec fn coe_elem_index(c: ChildOfElement) -> Option<int> {
    match c {
        ChildOfElement::Element(e) => Some(e.index as int),
        _ => None,
    }
}

/// The child node is not attached to any parent yet.
pub open spec fn coe_detached(doc: Document, c: ChildOfElement) -> bool {
    match c {
        ChildOfElement::Element(e) => doc.elements@[e.index as int].parent is None,
        ChildOfElement::Text(t) => doc.texts@[t.index as int].parent is None,
        ChildOfElement::Comment(c) => doc.comments@[c.index as int].parent is None,
        ChildOfElement::ProcessingInstruction(p) => doc.processing_instructions@[p.index as int].parent is None,
    }
}

/// The root child node is not attached to any parent yet.
pub open spec fn cor_detached(doc: Document, c: ChildOfRoot) -> bool {
    match c {
        ChildOfRoot::Element(e) => doc.elements@[e.index as int].parent is None,
        ChildOfRoot::Comment(c) => doc.comments@[c.index as int].parent is None,
        ChildOfRoot::ProcessingInstruction(p) => doc.processing_instructions@[p.index as int].parent is None,
    }
}

/// An element row's stored handles point into `doc`, and its element
/// children lie strictly deeper in the arena (`> e`), which keeps the tree
/// free of cycles and bounds the recursive traversals.
pub open spec fn elem_row_ok(
    doc: Document,
    children: Seq<ChildOfElement>,
    attrs: Seq<Attribute>,
    parent: Option<ParentOfChild>,
    e: int,
) -> bool {
    &&& forall|k: int| 0 <= k < children.len() ==> coe_in(doc, #[trigger] children[k])
    &&& forall|k: int|
        0 <= k < children.len() ==> match #[trigger] children[k] {
            ChildOfElement::Element(c) => c.index > e,
            _ => true,
        }
    &&& forall|k: int| 0 <= k < attrs.len() ==> attr_in(doc, #[trigger] attrs[k])
    &&& match parent {
        Some(p) => poc_in(doc, p),
        None => true,
    }
}

/// The invariant of the element table: every row is consistent.
pub open spec fn elems_wf(doc: Document) -> bool {
    forall|e: int|
        #![trigger doc.elements@[e]]
        0 <= e < doc.elements@.len() ==> elem_row_ok(
            doc,
            doc.elements@[e].children@,
            doc.elements@[e].attributes@,
            doc.elements@[e].parent,
            e,
        )
}

/// The document's internal invariant.
pub open spec fn wf(doc: Document) -> bool {
    &&& forall|i: int|
        0 <= i < doc.root_children@.len() ==> cor_in(doc, #[trigger] doc.root_children@[i])
    &&& elems_wf(doc)
    &&& forall|a: int|
        0 <= a < doc.attributes@.len() ==> match (#[trigger] doc.attributes@[a]).parent {
            Some(e) => elem_in(doc, e),
            None => true,
        }
    &&& forall|t: int|
        0 <= t < doc.texts@.len() ==> match (#[trigger] doc.texts@[t]).parent {
            Some(e) => elem_in(doc, e),
            None => true,
        }
    &&& forall|c: int|
        0 <= c < doc.comments@.len() ==> match (#[trigger] doc.comments@[c]).parent {
            Some(p) => poc_in(doc, p),
            None => true,
        }
    &&& forall|p: int|
        0 <= p < doc.processing_instructions@.len() ==> match (#[trigger] doc.processing_instructions@[p]).parent {
            Some(q) => poc_in(doc, q),
            None => true,
        }
}

/// Handle validity and row consistency only ever mention the id of `doc` and
/// the lengths of its tables, so both carry over to a document whose tables
/// have grown, whatever else changed.
pub proof fn lemma_tables_grow(a: Document, b: Document)
    requires
        b.id == a.id,
        a.elements@.len() <= b.elements@.len(),
        a.attributes@.len() <= b.attributes@.len(),
        a.texts@.len() <= b.texts@.len(),
        a.comments@.len() <= b.comments@.len(),
        a.processing_instructions@.len() <= b.processing_instructions@.len(),
    ensures
        forall|c: ChildOfElement| coe_in(a, c) ==> #[trigger] coe_in(b, c),
        forall|c: ChildOfRoot| cor_in(a, c) ==> #[trigger] cor_in(b, c),
        forall|p: ParentOfChild| poc_in(a, p) ==> #[trigger] poc_in(b, p),
        forall|x: Attribute| attr_in(a, x) ==> #[trigger] attr_in(b, x),
        forall|x: Element| elem_in(a, x) ==> #[trigger] elem_in(b, x),
        forall|
            children: Seq<ChildOfElement>,
            attrs: Seq<Attribute>,
            parent: Option<ParentOfChild>,
            e: int,
        |
            elem_row_ok(a, children, attrs, parent, e) ==> #[trigger] elem_row_ok(
                b,
                children,
                attrs,
                parent,
                e,
            ),
{
    assert forall|c: ChildOfElement| coe_in(a, c) implies #[trigger] coe_in(b, c) by {}
    assert forall|c: ChildOfRoot| cor_in(a, c) implies #[trigger] cor_in(b, c) by {}
    assert forall|p: ParentOfChild| poc_in(a, p) implies #[trigger] poc_in(b, p) by {}
    assert forall|
        children: Seq<ChildOfElement>,
        attrs: Seq<Attribute>,
        parent: Option<ParentOfChild>,
        e: int,
    |
        elem_row_ok(a, children, attrs, parent, e) implies #[trigger] elem_row_ok(
        b,
        children,
        attrs,
        parent,
        e,
    ) by {
        assert forall|k: int| 0 <= k < children.len() implies coe_in(b, #[trigger] children[k]) by {
            assert(coe_in(a, children[k]));
        }
        assert forall|k: int| 0 <= k < attrs.len() implies attr_in(b, #[trigger] attrs[k]) by {
            assert(attr_in(a, attrs[k]));
        }
    }
}

impl Document {
    /// A fresh, empty document with the given identity.
    pub fn new(id: DocId) -> (doc: Document)
        ensures
            wf(doc),
            doc.id == id,
            doc.root_children@.len() == 0,
            doc.elements@.len() == 0,
            doc.attributes@.len() == 0,
            doc.texts@.len() == 0,
            doc.comments@.len() == 0,
            doc.processing_instructions@.len() == 0,
    {
        Document {
            id,
            root_children: Vec::new(),
            elements: Vec::new(),
            attributes: Vec::new(),
            texts: Vec::new(),
            comments: Vec::new(),
            processing_instructions: Vec::new(),
        }
    }

    /// The handle of this document's root.
    pub fn root(&self) -> (r: Root)
        ensures
            r == (Root { doc: self.id }),
    {
        Root { doc: self.id }
    }

    /// Allocates a detached element with the given name.
    pub fn create_element(&mut self, name: QName) -> (e: Element)
        requires
            wf(*old(self)),
        ensures
            wf(*final(self)),
            e == (Element { doc: old(self).id, index: old(self).elements@.len() as usize }),
            final(self).id == old(self).id,
            final(self).elements@.len() == old(self).elements@.len() + 1,
            forall|i: int|
                0 <= i < old(self).elements@.len() ==> final(self).elements@[i] == old(
                    self,
                ).elements@[i],
            final(self).elements@[e.index as int].name == name,
            final(self).elements@[e.index as int].preferred_prefix is None,
            final(self).elements@[e.index as int].parent is None,
            final(self).elements@[e.index as int].prefixes@.len() == 0,
            final(self).elements@[e.index as int].children@.len() == 0,
            final(self).elements@[e.index as int].attributes@.len() == 0,
            final(self).root_children == old(self).root_children,
            final(self).attributes == old(self).attributes,
            final(self).texts == old(self).texts,
            final(self).comments == old(self).comments,
            final(self).processing_instructions == old(self).processing_instructions,
    {
        let e = Element { doc: self.id, index: self.elements.len() };
        self.elements.push(
            ElementData {
                name,
                preferred_prefix: None,
                prefixes: Vec::new(),
                parent: None,
                children: Vec::new(),
                attributes: Vec::new(),
            },
        );
        proof {
            lemma_tables_grow(*old(self), *self);
        }
        e
    }

    /// Allocates a detached text node.
    pub fn create_text(&mut self, text: String) -> (t: Text)
        requires
            wf(*old(self)),
        ensures
            wf(*final(self)),
            t == (Text { doc: old(self).id, index: old(self).texts@.len() as usize }),
            final(self).id == old(self).id,
            final(self).texts@.len() == old(self).texts@.len() + 1,
            forall|i: int|
                0 <= i < old(self).texts@.len() ==> final(self).texts@[i] == old(self).texts@[i],
            final(self).texts@[t.index as int].text == text,
            final(self).texts@[t.index as int].parent is None,
            final(self).root_children == old(self).root_children,
            final(self).elements == old(self).elements,
            final(self).attributes == old(self).attributes,
            final(self).comments == old(self).comments,
            final(self).processing_instructions == old(self).processing_instructions,
    {
        let t = Text { doc: self.id, index: self.texts.len() };
        self.texts.push(TextData { text, parent: None });
        proof {
            lemma_tables_grow(*old(self), *self);
        }
        t
    }

    /// Allocates a detached comment node.
    pub fn create_comment(&mut self, text: String) -> (c: Comment)
        requires
            wf(*old(self)),
        ensures
            wf(*final(self)),
            c == (Comment { doc: old(self).id, index: old(self).comments@.len() as usize }),
            final(self).id == old(self).id,
            final(self).comments@.len() == old(self).comments@.len() + 1,
            forall|i: int|
                0 <= i < old(self).comments@.len() ==> final(self).comments@[i] == old(
                    self,
                ).comments@[i],
            final(self).comments@[c.index as int].text == text,
            final(self).comments@[c.index as int].parent is None,
            final(self).root_children == old(self).root_children,
            final(self).elements == old(self).elements,
            final(self).attributes == old(self).attributes,
            final(self).texts == old(self).texts,
            final(self).processing_instructions == old(self).processing_instructions,
    {
        let c = Comment { doc: self.id, index: self.comments.len() };
        self.comments.push(CommentData { text, parent: None });
        proof {
            lemma_tables_grow(*old(self), *self);
        }
        c
    }

    /// Allocates a detached processing instruction.
    pub fn create_processing_instruction(&mut self, target: String, value: Option<String>) -> (p:
        ProcessingInstruction)
        requires
            wf(*old(self)),
        ensures
            wf(*final(self)),
            p == (ProcessingInstruction {
                doc: old(self).id,
                index: old(self).processing_instructions@.len() as usize,
            }),
            final(self).id == old(self).id,
            final(self).processing_instructions@.len() == old(
                self,
            ).processing_instructions@.len() + 1,
            forall|i: int|
                0 <= i < old(self).processing_instructions@.len() ==> final(self).processing_instructions@[i] == old(self).processing_instructions@[i],
            final(self).processing_instructions@[p.index as int].target == target,
            final(self).processing_instructions@[p.index as int].value == value,
            final(self).processing_instructions@[p.index as int].parent is None,
            final(self).root_children == old(self).root_children,
            final(self).elements == old(self).elements,
            final(self).attributes == old(self).attributes,
            final(self).texts == old(self).texts,
            final(self).comments == old(self).comments,
    {
        let p = ProcessingInstruction { doc: self.id, index: self.processing_instructions.len() };
        self.processing_instructions.push(
            ProcessingInstructionData { target, value, parent: None },
        );
        proof {
            lemma_tables_grow(*old(self), *self);
        }
        p
    }

    /// Attaches a detached node under the root, after the present root
    /// children.
    pub fn append_root_child(&mut self, child: ChildOfRoot)
        requires
            wf(*old(self)),
            cor_in(*old(self), child),
            cor_detached(*old(self), child),
        ensures
            wf(*final(self)),
            final(self).id == old(self).id,
            final(self).root_children@ == old(self).root_children@.push(child),
            final(self).attributes == old(self).attributes,
            final(self).texts == old(self).texts,
            final(self).elements@.len() == old(self).elements@.len(),
            final(self).comments@.len() == old(self).comments@.len(),
            final(self).processing_instructions@.len() == old(
                self,
            ).processing_instructions@.len(),
            match child {
                ChildOfRoot::Element(e) => {
                    &&& final(self).elements@[e.index as int].parent == Some(
                        ParentOfChild::Root(Root { doc: old(self).id }),
                    )
                    &&& final(self).elements@[e.index as int].name == old(self).elements@[e.index as int].name
                    &&& final(self).elements@[e.index as int].preferred_prefix == old(self).elements@[e.index as int].preferred_prefix
                    &&& final(self).elements@[e.index as int].prefixes == old(self).elements@[e.index as int].prefixes
                    &&& final(self).elements@[e.index as int].children == old(self).elements@[e.index as int].children
                    &&& final(self).elements@[e.index as int].attributes == old(self).elements@[e.index as int].attributes
                    &&& forall|i: int|
                        0 <= i < old(self).elements@.len() && i != e.index as int ==> final(self).elements@[i] == old(self).elements@[i]
                    &&& final(self).comments == old(self).comments
                    &&& final(self).processing_instructions == old(self).processing_instructions
                },
                ChildOfRoot::Comment(c) => {
                    &&& final(self).comments@[c.index as int] == (CommentData {
                        text: old(self).comments@[c.index as int].text,
                        parent: Some(ParentOfChild::Root(Root { doc: old(self).id })),
                    })
                    &&& forall|i: int|
                        0 <= i < old(self).comments@.len() && i != c.index as int ==> final(self).comments@[i] == old(self).comments@[i]
                    &&& final(self).elements == old(self).elements
                    &&& final(self).processing_instructions == old(self).processing_instructions
                },
                ChildOfRoot::ProcessingInstruction(p) => {
                    &&& final(self).processing_instructions@[p.index as int] == (ProcessingInstructionData {
                        target: old(self).processing_instructions@[p.index as int].target,
                        value: old(self).processing_instructions@[p.index as int].value,
                        parent: Some(ParentOfChild::Root(Root { doc: old(self).id })),
                    })
                    &&& forall|i: int|
                        0 <= i < old(self).processing_instructions@.len() && i != p.index as int
                            ==> final(self).processing_instructions@[i] == old(
                            self,
                        ).processing_instructions@[i]
                    &&& final(self).elements == old(self).elements
                    &&& final(self).comments == old(self).comments
                },
            },
    {
        let ghost prev = *self;
        let root_parent = ParentOfChild::Root(Root { doc: self.id });
        match child {
            ChildOfRoot::Element(e) => {
                self.elements[e.index].parent = Some(root_parent);
            },
            ChildOfRoot::Comment(c) => {
                self.comments[c.index].parent = Some(root_parent);
            },
            ChildOfRoot::ProcessingInstruction(p) => {
                self.processing_instructions[p.index].parent = Some(root_parent);
            },
        }
        self.root_children.push(child);
        proof {
            lemma_tables_grow(prev, *self);
        }
    }

    /// Attaches a detached node under an element, after the element's present
    /// children.  An element child must have been created after its parent
    /// (`child.index > parent.index`): the arena grows downward through the
    /// tree, which is what keeps it acyclic.
    pub fn append_child(&mut self, parent: Element, child: ChildOfElement)
        requires
            wf(*old(self)),
            elem_in(*old(self), parent),
            coe_in(*old(self), child),
            coe_detached(*old(self), child),
            match child {
                ChildOfElement::Element(c) => c.index > parent.index,
                _ => true,
            },
        ensures
            wf(*final(self)),
            final(self).id == old(self).id,
            final(self).root_children == old(self).root_children,
            final(self).attributes == old(self).attributes,
            final(self).elements@.len() == old(self).elements@.len(),
            final(self).texts@.len() == old(self).texts@.len(),
            final(self).comments@.len() == old(self).comments@.len(),
            final(self).processing_instructions@.len() == old(
                self,
            ).processing_instructions@.len(),
            final(self).elements@[parent.index as int].children@ == old(
                self,
            ).elements@[parent.index as int].children@.push(child),
            final(self).elements@[parent.index as int].name == old(self).elements@[parent.index as int].name,
            final(self).elements@[parent.index as int].preferred_prefix == old(self).elements@[parent.index as int].preferred_prefix,
            final(self).elements@[parent.index as int].prefixes == old(self).elements@[parent.index as int].prefixes,
            final(self).elements@[parent.index as int].parent == old(self).elements@[parent.index as int].parent,
            final(self).elements@[parent.index as int].attributes == old(self).elements@[parent.index as int].attributes,
            forall|i: int|
                0 <= i < old(self).elements@.len() && i != parent.index as int && Some(i)
                    != coe_elem_index(child) ==> final(self).elements@[i] == old(self).elements@[i],
            match child {
                ChildOfElement::Element(c) => {
                    &&& final(self).elements@[c.index as int].parent == Some(
                        ParentOfChild::Element(parent),
                    )
                    &&& final(self).elements@[c.index as int].name == old(self).elements@[c.index as int].name
                    &&& final(self).elements@[c.index as int].preferred_prefix == old(self).elements@[c.index as int].preferred_prefix
                    &&& final(self).elements@[c.index as int].prefixes == old(self).elements@[c.index as int].prefixes
                    &&& final(self).elements@[c.index as int].children == old(self).elements@[c.index as int].children
                    &&& final(self).elements@[c.index as int].attributes == old(self).elements@[c.index as int].attributes
                    &&& final(self).texts == old(self).texts
                    &&& final(self).comments == old(self).comments
                    &&& final(self).processing_instructions == old(self).processing_instructions
                },
                ChildOfElement::Text(t) => {
                    &&& final(self).texts@[t.index as int] == (TextData {
                        text: old(self).texts@[t.index as int].text,
                        parent: Some(parent),
                    })
                    &&& forall|i: int|
                        0 <= i < old(self).texts@.len() && i != t.index as int ==> final(self).texts@[i] == old(self).texts@[i]
                    &&& final(self).comments == old(self).comments
                    &&& final(self).processing_instructions == old(self).processing_instructions
                },
                ChildOfElement::Comment(c) => {
                    &&& final(self).comments@[c.index as int] == (CommentData {
                        text: old(self).comments@[c.index as int].text,
                        parent: Some(ParentOfChild::Element(parent)),
                    })
                    &&& forall|i: int|
                        0 <= i < old(self).comments@.len() && i != c.index as int ==> final(self).comments@[i] == old(self).comments@[i]
                    &&& final(self).texts == old(self).texts
                    &&& final(self).processing_instructions == old(self).processing_instructions
                },
                ChildOfElement::ProcessingInstruction(p) => {
                    &&& final(self).processing_instructions@[p.index as int] == (ProcessingInstructionData {
                        target: old(self).processing_instructions@[p.index as int].target,
                        value: old(self).processing_instructions@[p.index as int].value,
                        parent: Some(ParentOfChild::Element(parent)),
                    })
                    &&& forall|i: int|
                        0 <= i < old(self).processing_instructions@.len() && i != p.index as int
                            ==> final(self).processing_instructions@[i] == old(
                            self,
                        ).processing_instructions@[i]
                    &&& final(self).texts == old(self).texts
                    &&& final(self).comments == old(self).comments
                },
            },
    {
        let ghost prev = *self;
        match child {
            ChildOfElement::Element(c) => {
                self.elements[c.index].parent = Some(ParentOfChild::Element(parent));
            },
            ChildOfElement::Text(t) => {
                self.texts[t.index].parent = Some(parent);
            },
            ChildOfElement::Comment(c) => {
                self.comments[c.index].parent = Some(ParentOfChild::Element(parent));
            },
            ChildOfElement::ProcessingInstruction(p) => {
                self.processing_instructions[p.index].parent = Some(ParentOfChild::Element(parent));
            },
        }
        self.elements[parent.index].children.push(child);
        proof {
            lemma_tables_grow(prev, *self);
        }
    }

    /// Creates an attribute with the given name and value on an element.
    pub fn set_attribute_value(&mut self, e: Element, name: QName, value: String) -> (a: Attribute)
        requires
            wf(*old(self)),
            elem_in(*old(self), e),
        ensures
            wf(*final(self)),
            a == (Attribute { doc: old(self).id, index: old(self).attributes@.len() as usize }),
            final(self).id == old(self).id,
            final(self).attributes@.len() == old(self).attributes@.len() + 1,
            forall|i: int|
                0 <= i < old(self).attributes@.len() ==> final(self).attributes@[i] == old(
                    self,
                ).attributes@[i],
            final(self).attributes@[a.index as int].name == name,
            final(self).attributes@[a.index as int].value == value,
            final(self).attributes@[a.index as int].preferred_prefix is None,
            final(self).attributes@[a.index as int].parent == Some(e),
            final(self).elements@.len() == old(self).elements@.len(),
            final(self).elements@[e.index as int].attributes@ == old(
                self,
            ).elements@[e.index as int].attributes@.push(a),
            final(self).elements@[e.index as int].name == old(self).elements@[e.index as int].name,
            final(self).elements@[e.index as int].preferred_prefix == old(self).elements@[e.index as int].preferred_prefix,
            final(self).elements@[e.index as int].prefixes == old(self).elements@[e.index as int].prefixes,
            final(self).elements@[e.index as int].parent == old(self).elements@[e.index as int].parent,
            final(self).elements@[e.index as int].children == old(self).elements@[e.index as int].children,
            forall|i: int|
                0 <= i < old(self).elements@.len() && i != e.index as int ==> final(self).elements@[i] == old(self).elements@[i],
            final(self).root_children == old(self).root_children,
            final(self).texts == old(self).texts,
            final(self).comments == old(self).comments,
            final(self).processing_instructions == old(self).processing_instructions,
    {
        let ghost prev = *self;
        let a = Attribute { doc: self.id, index: self.attributes.len() };
        self.attributes.push(
            AttributeData { name, value, preferred_prefix: None, parent: Some(e) },
        );
        self.elements[e.index].attributes.push(a);
        proof {
            lemma_tables_grow(prev, *self);
        }
        a
    }

    /// Registers a prefix-to-URI binding on an element.
    pub fn register_prefix(&mut self, e: Element, prefix: String, uri: String)
        requires
            wf(*old(self)),
            elem_in(*old(self), e),
        ensures
            wf(*final(self)),
            final(self).id == old(self).id,
            final(self).elements@.len() == old(self).elements@.len(),
            final(self).elements@[e.index as int].prefixes@ == old(
                self,
            ).elements@[e.index as int].prefixes@.push(PrefixMapping { prefix, uri }),
            final(self).elements@[e.index as int].name == old(self).elements@[e.index as int].name,
            final(self).elements@[e.index as int].preferred_prefix == old(self).elements@[e.index as int].preferred_prefix,
            final(self).elements@[e.index as int].parent == old(self).elements@[e.index as int].parent,
            final(self).elements@[e.index as int].children == old(self).elements@[e.index as int].children,
            final(self).elements@[e.index as int].attributes == old(self).elements@[e.index as int].attributes,
            forall|i: int|
                0 <= i < old(self).elements@.len() && i != e.index as int ==> final(self).elements@[i] == old(self).elements@[i],
            final(self).root_children == old(self).root_children,
            final(self).attributes == old(self).attributes,
            final(self).texts == old(self).texts,
            final(self).comments == old(self).comments,
            final(self).processing_instructions == old(self).processing_instructions,
    {
        let ghost prev = *self;
        self.elements[e.index].prefixes.push(PrefixMapping { prefix, uri });
        proof {
            lemma_tables_grow(prev, *self);
        }
    }

    /// Sets or clears the preferred prefix of an element.
    pub fn set_preferred_prefix(&mut self, e: Element, preferred_prefix: Option<String>)
        requires
            wf(*old(self)),
            elem_in(*old(self), e),
        ensures
            wf(*final(self)),
            final(self).id == old(self).id,
            final(self).elements@.len() == old(self).elements@.len(),
            final(self).elements@[e.index as int].preferred_prefix == preferred_prefix,
            final(self).elements@[e.index as int].name == old(self).elements@[e.index as int].name,
            final(self).elements@[e.index as int].prefixes == old(self).elements@[e.index as int].prefixes,
            final(self).elements@[e.index as int].parent == old(self).elements@[e.index as int].parent,
            final(self).elements@[e.index as int].children == old(self).elements@[e.index as int].children,
            final(self).elements@[e.index as int].attributes == old(self).elements@[e.index as int].attributes,
            forall|i: int|
                0 <= i < old(self).elements@.len() && i != e.index as int ==> final(self).elements@[i] == old(self).elements@[i],
            final(self).root_children == old(self).root_children,
            final(self).attributes == old(self).attributes,
            final(self).texts == old(self).texts,
            final(self).comments == old(self).comments,
            final(self).processing_instructions == old(self).processing_instructions,
    {
        let ghost prev = *self;
        self.elements[e.index].preferred_prefix = preferred_prefix;
        proof {
            lemma_tables_grow(prev, *self);
        }
    }

    /// Sets or clears the preferred prefix of an attribute.
    pub fn set_attribute_preferred_prefix(&mut self, a: Attribute, preferred_prefix: Option<String>)
        requires
            wf(*old(self)),
            attr_in(*old(self), a),
        ensures
            wf(*final(self)),
            final(self).id == old(self).id,
            final(self).attributes@.len() == old(self).attributes@.len(),
            final(self).attributes@[a.index as int].preferred_prefix == preferred_prefix,
            final(self).attributes@[a.index as int].name == old(self).attributes@[a.index as int].name,
            final(self).attributes@[a.index as int].value == old(self).attributes@[a.index as int].value,
            final(self).attributes@[a.index as int].parent == old(self).attributes@[a.index as int].parent,
            forall|i: int|
                0 <= i < old(self).attributes@.len() && i != a.index as int ==> final(self).attributes@[i] == old(self).attributes@[i],
            final(self).root_children == old(self).root_children,
            final(self).elements == old(self).elements,
            final(self).texts == old(self).texts,
            final(self).comments == old(self).comments,
            final(self).processing_instructions == old(self).processing_instructions,
    {
        let ghost prev = *self;
        self.attributes[a.index].preferred_prefix = preferred_prefix;
        proof {
            lemma_tables_grow(prev, *self);
        }
    }

    /// The name of an element.
    pub fn element_name(&self, e: Element) -> (r: &QName)
        requires
            elem_in(*self, e),
        ensures
            *r == self.elements@[e.index as int].name,
    {
        &self.elements[e.index].name
    }

    /// The preferred prefix of an element, if one was set.
    pub fn element_preferred_prefix(&self, e: Element) -> (r: &Option<String>)
        requires
            elem_in(*self, e),
        ensures
            *r == self.elements@[e.index as int].preferred_prefix,
    {
        &self.elements[e.index].preferred_prefix
    }

    /// The parent of an element, if it is attached.
    pub fn element_parent(&self, e: Element) -> (r: Option<ParentOfChild>)
        requires
            elem_in(*self, e),
        ensures
            r == self.elements@[e.index as int].parent,
    {
        self.elements[e.index].parent
    }

    /// The ordered children of an element.
    pub fn element_children(&self, e: Element) -> (r: &Vec<ChildOfElement>)
        requires
            elem_in(*self, e),
        ensures
            *r == self.elements@[e.index as int].children,
    {
        &self.elements[e.index].children
    }

    /// The ordered attributes of an element.
    pub fn element_attributes(&self, e: Element) -> (r: &Vec<Attribute>)
        requires
            elem_in(*self, e),
        ensures
            *r == self.elements@[e.index as int].attributes,
    {
        &self.elements[e.index].attributes
    }

    /// The ordered children of the root.
    pub fn root_children(&self) -> (r: &Vec<ChildOfRoot>)
        ensures
            *r == self.root_children,
    {
        &self.root_children
    }

    /// The name of an attribute.
    pub fn attribute_name(&self, a: Attribute) -> (r: &QName)
        requires
            attr_in(*self, a),
        ensures
            *r == self.attributes@[a.index as int].name,
    {
        &self.attributes[a.index].name
    }

    /// The value string of an attribute.
    pub fn attribute_value(&self, a: Attribute) -> (r: &String)
        requires
            attr_in(*self, a),
        ensures
            *r == self.attributes@[a.index as int].value,
    {
        &self.attributes[a.index].value
    }

    /// The preferred prefix of an attribute, if one was set.
    pub fn attribute_preferred_prefix(&self, a: Attribute) -> (r: &Option<String>)
        requires
            attr_in(*self, a),
        ensures
            *r == self.attributes@[a.index as int].preferred_prefix,
    {
        &self.attributes[a.index].preferred_prefix
    }

    /// The element an attribute sits on, if it is attached.
    pub fn attribute_parent(&self, a: Attribute) -> (r: Option<Element>)
        requires
            attr_in(*self, a),
        ensures
            r == self.attributes@[a.index as int].parent,
    {
        self.attributes[a.index].parent
    }

    /// The literal text of a text node.
    pub fn text_content(&self, t: Text) -> (r: &String)
        requires
            text_in(*self, t),
        ensures
            *r == self.texts@[t.index as int].text,
    {
        &self.texts[t.index].text
    }

    /// The parent of a text node, if it is attached.
    pub fn text_parent(&self, t: Text) -> (r: Option<Element>)
        requires
            text_in(*self, t),
        ensures
            r == self.texts@[t.index as int].parent,
    {
        self.texts[t.index].parent
    }

    /// The literal text of a comment.
    pub fn comment_content(&self, c: Comment) -> (r: &String)
        requires
            comment_in(*self, c),
        ensures
            *r == self.comments@[c.index as int].text,
    {
        &self.comments[c.index].text
    }

    /// The parent of a comment, if it is attached.
    pub fn comment_parent(&self, c: Comment) -> (r: Option<ParentOfChild>)
        requires
            comment_in(*self, c),
        ensures
            r == self.comments@[c.index as int].parent,
    {
        self.comments[c.index].parent
    }

    /// The target of a processing instruction.
    pub fn pi_target(&self, p: ProcessingInstruction) -> (r: &String)
        requires
            pi_in(*self, p),
        ensures
            *r == self.processing_instructions@[p.index as int].target,
    {
        &self.processing_instructions[p.index].target
    }

    /// The value of a processing instruction, if it has one.
    pub fn pi_value(&self, p: ProcessingInstruction) -> (r: &Option<String>)
        requires
            pi_in(*self, p),
        ensures
            *r == self.processing_instructions@[p.index as int].value,
    {
        &self.processing_instructions[p.index].value
    }

    /// The parent of a processing instruction, if it is attached.
    pub fn pi_parent(&self, p: ProcessingInstruction) -> (r: Option<ParentOfChild>)
        requires
            pi_in(*self, p),
        ensures
            r == self.processing_instructions@[p.index as int].parent,
    {
        self.processing_instructions[p.index].parent
    }
}

/// There is a registration binding `prefix` to `uri` among the mappings.
pub open spec fn mapping_present(s: Seq<PrefixMapping>, prefix: Seq<char>, uri: Seq<char>) -> bool {
    exists|i: int| 0 <= i < s.len() && s[i].prefix@ == prefix && s[i].uri@ == uri
}

/// The prefix of the earliest registration binding some prefix to `uri`.
pub open spec fn first_prefix_for(s: Seq<PrefixMapping>, uri: Seq<char>) -> Option<Seq<char>>
    decreases s.len(),
{
    if s.len() == 0 {
        None
    } else if s[0].uri@ == uri {
        Some(s[0].prefix@)
    } else {
        first_prefix_for(s.drop_first(), uri)
    }
}

/// The prefix an element resolves `uri` to: the preferred prefix when it is
/// registered for that URI, otherwise the earliest registered prefix for the
/// URI, otherwise none.
pub open spec fn resolved_prefix(
    s: Seq<PrefixMapping>,
    uri: Seq<char>,
    preferred: Option<Seq<char>>,
) -> Option<Seq<char>> {
    match preferred {
        Some(p) => if mapping_present(s, p, uri) {
            Some(p)
        } else {
            first_prefix_for(s, uri)
        },
        None => first_prefix_for(s, uri),
    }
}

/// Nothing among the first `i` mappings binds to `uri`, so the earliest
/// match lies in the rest.
proof fn lemma_first_prefix_skip(s: Seq<PrefixMapping>, uri: Seq<char>, i: int)
    requires
        0 <= i <= s.len(),
        forall|j: int| 0 <= j < i ==> s[j].uri@ != uri,
    ensures
        first_prefix_for(s, uri) == first_prefix_for(s.skip(i), uri),
    decreases i,
{
    if i > 0 {
        lemma_first_prefix_skip(s.drop_first(), uri, i - 1);
        assert(s.drop_first().skip(i - 1) =~= s.skip(i));
    } else {
        assert(s.skip(0) =~= s);
    }
}

/// String equality on slices, decided through owned copies.
pub(crate) fn str_eq(a: &str, b: &str) -> (r: bool)
    ensures
        r == (a@ == b@),
{
    let sa = a.to_owned();
    let sb = b.to_owned();
    sa == sb
}

impl Document {
    /// The prefix the element would render `namespace_uri` with, preferring
    /// the caller's hint when that hint is registered for the URI.
    pub fn prefix_for_namespace_uri(
        &self,
        e: Element,
        namespace_uri: &str,
        preferred_prefix: Option<&str>,
    ) -> (r: Option<String>)
        requires
            elem_in(*self, e),
        ensures
            ({
                let pref = match preferred_prefix {
                    Some(p) => Some(p@),
                    None => None,
                };
                let resolved = resolved_prefix(
                    self.elements@[e.index as int].prefixes@,
                    namespace_uri@,
                    pref,
                );
                match r {
                    Some(p) => resolved == Some(p@),
                    None => resolved is None,
                }
            }),
    {
        let mappings = &self.elements[e.index].prefixes;
        let n = mappings.len();
        if let Some(p) = preferred_prefix {
            let mut i: usize = 0;
            while i < n
                invariant
                    elem_in(*self, e),
                    preferred_prefix == Some(p),
                    mappings@ == self.elements@[e.index as int].prefixes@,
                    n == mappings@.len(),
                    0 <= i <= n,
                    forall|j: int|
                        0 <= j < i ==> !((#[trigger] mappings@[j]).prefix@ == p@ && mappings@[j].uri@
                            == namespace_uri@),
                decreases n - i,
            {
                let m = &mappings[i];
                if str_eq(m.prefix.as_str(), p) && str_eq(m.uri.as_str(), namespace_uri) {
                    proof {
                        assert(mappings@[i as int].prefix@ == p@ && mappings@[i as int].uri@
                            == namespace_uri@);
                        assert(mapping_present(mappings@, p@, namespace_uri@));
                    }
                    return Some(p.to_owned());
                }
                i += 1;
            }
            assert(!mapping_present(mappings@, p@, namespace_uri@));
        }
        let mut i: usize = 0;
        while i < n
            invariant
                elem_in(*self, e),
                mappings@ == self.elements@[e.index as int].prefixes@,
                n == mappings@.len(),
                0 <= i <= n,
                match preferred_prefix {
                    Some(p) => !mapping_present(mappings@, p@, namespace_uri@),
                    None => true,
                },
                forall|j: int| 0 <= j < i ==> (#[trigger] mappings@[j]).uri@ != namespace_uri@,
            decreases n - i,
        {
            let m = &mappings[i];
            if str_eq(m.uri.as_str(), namespace_uri) {
                proof {
                    lemma_first_prefix_skip(mappings@, namespace_uri@, i as int);
                    assert(mappings@.skip(i as int)[0] == mappings@[i as int]);
                }
                return Some(m.prefix.clone());
            }
            i += 1;
        }
        proof {
            lemma_first_prefix_skip(mappings@, namespace_uri@, n as int);
            assert(mappings@.skip(n as int) =~= Seq::<PrefixMapping>::empty());
        }
        None
    }
}

} // verus!
