//! XML documents as a table of nodes.
//!
//! Parsing is done by the `roxmltree` crate. What the library reads of a
//! parsed document is held as plain values: one `XmlNode` per node, in
//! document order, each naming its parent by index.

use vstd::prelude::*;
use crate::resource::option_text;

verus! {

/// `roxmltree::Error`, the reason why a text is no XML document. Nothing is
/// read of it.
#[verifier::external_type_specification]
#[verifier::external_body]
pub struct ExXmlError(roxmltree::Error);

/// An attribute of an element.
pub struct XmlAttribute {
    /// The namespace that the attribute's prefix stands for, if it has one.
    pub namespace: Option<String>,
    /// The name without its prefix.
    pub name: String,
    pub value: String,
}

/// A node of a document.
pub struct XmlNode {
    /// The index of the parent node. The document's root node has none.
    pub parent: Option<usize>,
    /// Whether the node is an element.
    pub element: bool,
    /// An element's tag name without its prefix; empty for other nodes.
    pub name: String,
    /// The node's text. For an element it is that of its first child, where
    /// that is a text node; a text node and a comment have their own; the
    /// root node and a processing instruction have none.
    pub text: Option<String>,
    pub attributes: Vec<XmlAttribute>,
}

pub struct AttributeView {
    pub namespace: Option<Seq<char>>,
    pub name: Seq<char>,
    pub value: Seq<char>,
}

pub struct NodeView {
    pub parent: Option<int>,
    pub element: bool,
    pub name: Seq<char>,
    pub text: Option<Seq<char>>,
    pub attributes: Seq<AttributeView>,
}

impl View for XmlAttribute {
    type V = AttributeView;

    open spec fn view(&self) -> AttributeView {
        AttributeView {
            namespace: option_text(self.namespace),
            name: self.name@,
            value: self.value@,
        }
    }
}

impl View for XmlNode {
    type V = NodeView;

    open spec fn view(&self) -> NodeView {
        NodeView {
            parent: match self.parent {
                Some(p) => Some(p as int),
                None => None,
            },
            element: self.element,
            name: self.name@,
            text: option_text(self.text),
            attributes: Seq::new(self.attributes@.len(), |i: int| self.attributes@[i]@),
        }
    }
}

/// The models of a table of nodes.
pub open spec fn node_views(nodes: Seq<XmlNode>) -> Seq<NodeView> {
    Seq::new(nodes.len(), |i: int| nodes[i]@)
}

/// What `roxmltree::Document::parse` makes of `text`: the nodes of the
/// document in document order, the root node first, or `None` where it
/// reports an error.
pub uninterp spec fn xml_nodes(text: Seq<char>) -> Option<Seq<NodeView>>;

/// Calls `roxmltree::Document::parse` and copies out, for every node that
/// `descendants` yields, its parent's index, whether it is an element, its
/// tag name, its text and its attributes. Nothing is claimed of them beyond
/// their name `xml_nodes`: the same text always gives the same nodes.
#[verifier::external_body]
fn crate_parse_xml(text: &str) -> (r: Result<Vec<XmlNode>, roxmltree::Error>)
    ensures
        match r {
            Ok(nodes) => xml_nodes(text@) == Some(node_views(nodes@)),
            Err(_) => xml_nodes(text@).is_none(),
        },
{
    let doc = roxmltree::Document::parse(text)?;
    let attribute = |a: roxmltree::Attribute| XmlAttribute {
        namespace: a.namespace().map(str::to_owned),
        name: a.name().to_owned(),
        value: a.value().to_owned(),
    };
    let node = |n: roxmltree::Node| XmlNode {
        parent: n.parent().map(|p| p.id().get_usize()),
        element: n.is_element(),
        name: n.tag_name().name().to_owned(),
        text: n.text().map(str::to_owned),
        attributes: n.attributes().map(attribute).collect(),
    };
    Ok(doc.descendants().map(node).collect())
}

/// Parses an XML document into its table of nodes.
pub fn parse_xml(text: &str) -> (r: Option<Vec<XmlNode>>)
    ensures
        match r {
            Some(nodes) => xml_nodes(text@) == Some(node_views(nodes@)),
            None => xml_nodes(text@).is_none(),
        },
{
    match crate_parse_xml(text) {
        Ok(nodes) => Some(nodes),
        Err(_) => None,
    }
}

/// Whether node `i` is an element child of node `parent`.
pub open spec fn is_element_child(nodes: Seq<NodeView>, i: int, parent: int) -> bool {
    0 <= i < nodes.len() && nodes[i].parent == Some(parent) && nodes[i].element
}

/// Whether node `i` is an element child of node `parent` with the tag name
/// `name`.
pub open spec fn is_child(nodes: Seq<NodeView>, i: int, parent: int, name: Seq<char>) -> bool {
    is_element_child(nodes, i, parent) && nodes[i].name == name
}

/// The first element child of node `parent` at or after index `from`.
pub open spec fn element_child_from(nodes: Seq<NodeView>, parent: int, from: int) -> Option<int>
    decreases nodes.len() - from,
{
    if from < 0 || from >= nodes.len() {
        None
    } else if is_element_child(nodes, from, parent) {
        Some(from)
    } else {
        element_child_from(nodes, parent, from + 1)
    }
}

/// The root element of a document: the first element child of its root
/// node, which is node 0.
pub open spec fn root_element_of(nodes: Seq<NodeView>) -> Option<int> {
    element_child_from(nodes, 0, 0)
}

/// The first element child of node `parent` named `name`, at or after
/// index `from`.
pub open spec fn child_from(nodes: Seq<NodeView>, parent: int, name: Seq<char>, from: int) -> Option<
    int,
>
    decreases nodes.len() - from,
{
    if from < 0 || from >= nodes.len() {
        None
    } else if is_child(nodes, from, parent, name) {
        Some(from)
    } else {
        child_from(nodes, parent, name, from + 1)
    }
}

/// The first element child of node `parent` named `name`.
pub open spec fn first_child(nodes: Seq<NodeView>, parent: int, name: Seq<char>) -> Option<int> {
    child_from(nodes, parent, name, 0)
}

/// The text of the first element child of node `parent` named `name`.
pub open spec fn first_child_text_of(nodes: Seq<NodeView>, parent: int, name: Seq<char>) -> Option<
    Seq<char>,
> {
    match first_child(nodes, parent, name) {
        Some(i) => nodes[i].text,
        None => None,
    }
}

/// The element children of node `parent` named `name` among the nodes
/// below index `upto`, in document order.
pub open spec fn children_below(nodes: Seq<NodeView>, parent: int, name: Seq<char>, upto: int) -> Seq<
    int,
>
    decreases upto,
{
    if upto <= 0 {
        Seq::empty()
    } else if is_child(nodes, upto - 1, parent, name) {
        children_below(nodes, parent, name, upto - 1).push(upto - 1)
    } else {
        children_below(nodes, parent, name, upto - 1)
    }
}

/// The element children of node `parent` named `name`, in document order.
pub open spec fn children_named(nodes: Seq<NodeView>, parent: int, name: Seq<char>) -> Seq<int> {
    children_below(nodes, parent, name, nodes.len() as int)
}

/// The value of the first attribute at or after index `from` that has the
/// name `name` and no namespace.
pub open spec fn attribute_from(attributes: Seq<AttributeView>, name: Seq<char>, from: int) -> Option<
    Seq<char>,
>
    decreases attributes.len() - from,
{
    if from < 0 || from >= attributes.len() {
        None
    } else if attributes[from].namespace.is_none() && attributes[from].name == name {
        Some(attributes[from].value)
    } else {
        attribute_from(attributes, name, from + 1)
    }
}

/// The value of the attribute `name` of a node.
pub open spec fn attribute_of(node: NodeView, name: Seq<char>) -> Option<Seq<char>> {
    attribute_from(node.attributes, name, 0)
}

pub open spec fn indices(v: Seq<usize>) -> Seq<int> {
    Seq::new(v.len(), |i: int| v[i] as int)
}

pub open spec fn option_index(i: Option<usize>) -> Option<int> {
    match i {
        Some(x) => Some(x as int),
        None => None,
    }
}

fn node_is_element_child(nodes: &Vec<XmlNode>, i: usize, parent: usize) -> (b: bool)
    requires
        i < nodes.len(),
    ensures
        b == is_element_child(node_views(nodes@), i as int, parent as int),
{
    let node = &nodes[i];
    match node.parent {
        Some(p) => p == parent && node.element,
        None => false,
    }
}

/// The root element of a document.
pub fn root_element(nodes: &Vec<XmlNode>) -> (r: Option<usize>)
    ensures
        option_index(r) == root_element_of(node_views(nodes@)),
        r matches Some(i) ==> i < nodes.len(),
{
    let mut i: usize = 0;
    while i < nodes.len()
        invariant
            i <= nodes.len(),
            root_element_of(node_views(nodes@)) == element_child_from(
                node_views(nodes@),
                0,
                i as int,
            ),
        decreases nodes.len() - i,
    {
        if node_is_element_child(nodes, i, 0) {
            return Some(i);
        }
        i += 1;
    }
    None
}

/// The first element child of node `parent` with the tag name `name`.
pub fn first_child_element(nodes: &Vec<XmlNode>, parent: usize, name: &str) -> (r: Option<usize>)
    ensures
        option_index(r) == first_child(node_views(nodes@), parent as int, name@),
        r matches Some(i) ==> i < nodes.len(),
{
    let wanted = name.to_owned();
    let mut i: usize = 0;
    while i < nodes.len()
        invariant
            i <= nodes.len(),
            wanted@ == name@,
            first_child(node_views(nodes@), parent as int, name@) == child_from(
                node_views(nodes@),
                parent as int,
                name@,
                i as int,
            ),
        decreases nodes.len() - i,
    {
        if node_is_element_child(nodes, i, parent) && nodes[i].name == wanted {
            return Some(i);
        }
        i += 1;
    }
    None
}

/// The text of the first element child of node `parent` with the tag name
/// `name`.
pub fn first_child_text(nodes: &Vec<XmlNode>, parent: usize, name: &str) -> (r: Option<String>)
    ensures
        option_text(r) == first_child_text_of(node_views(nodes@), parent as int, name@),
{
    match first_child_element(nodes, parent, name) {
        Some(i) => match &nodes[i].text {
            Some(t) => Some(t.clone()),
            None => None,
        },
        None => None,
    }
}

/// The element children of node `parent` with the tag name `name`, in
/// document order.
pub fn child_elements(nodes: &Vec<XmlNode>, parent: usize, name: &str) -> (r: Vec<usize>)
    ensures
        indices(r@) == children_named(node_views(nodes@), parent as int, name@),
        forall|k: int| 0 <= k < r@.len() ==> r@[k] < nodes.len(),
{
    let wanted = name.to_owned();
    let mut found: Vec<usize> = Vec::new();
    let mut i: usize = 0;
    while i < nodes.len()
        invariant
            i <= nodes.len(),
            wanted@ == name@,
            indices(found@) == children_below(
                node_views(nodes@),
                parent as int,
                name@,
                i as int,
            ),
            forall|k: int| 0 <= k < found@.len() ==> found@[k] < nodes.len(),
        decreases nodes.len() - i,
    {
        if node_is_element_child(nodes, i, parent) && nodes[i].name == wanted {
            let ghost before = indices(found@);
            found.push(i);
            assert(indices(found@) == before.push(i as int));
        }
        i += 1;
    }
    found
}

/// The value of the attribute `name` of node `i`.
pub fn attribute(nodes: &Vec<XmlNode>, i: usize, name: &str) -> (r: Option<String>)
    requires
        i < nodes.len(),
    ensures
        option_text(r) == attribute_of(node_views(nodes@)[i as int], name@),
{
    let wanted = name.to_owned();
    let attributes = &nodes[i].attributes;
    let ghost views = node_views(nodes@)[i as int].attributes;
    let mut k: usize = 0;
    while k < attributes.len()
        invariant
            k <= attributes.len(),
            wanted@ == name@,
            i < nodes.len(),
            views == node_views(nodes@)[i as int].attributes,
            views.len() == attributes@.len(),
            forall|j: int| 0 <= j < views.len() ==> views[j] == attributes@[j]@,
            attribute_from(views, name@, 0) == attribute_from(views, name@, k as int),
        decreases attributes.len() - k,
    {
        let a = &attributes[k];
        if a.namespace.is_none() && a.name == wanted {
            return Some(a.value.clone());
        }
        k += 1;
    }
    None
}

} // verus!
