//! The tree of an HTML document, as far as this library reads it.
use vstd::prelude::*;

verus! {

/// The contents of a node.
pub enum NodeView {
    Text(Seq<char>),
    Comment(Seq<char>),
    Element(ElementView),
}

/// The contents of an element: its classes in order, the attributes that it has
/// besides `id` and `class`, each with or without a value, and its children in
/// order.
pub struct ElementView {
    pub classes: Seq<Seq<char>>,
    pub attributes: Map<Seq<char>, Option<Seq<char>>>,
    pub children: Seq<NodeView>,
}

/// An attribute of an element, such as `title="..."` or, without a value,
/// `hidden`.
#[derive(Debug)]
pub struct Attribute {
    pub name: String,
    pub value: Option<String>,
}

/// An element. Where two attributes have one name, the first counts.
#[derive(Debug)]
pub struct DomElement {
    pub classes: Vec<String>,
    pub attributes: Vec<Attribute>,
    pub children: Vec<DomNode>,
}

/// A node of the document.
#[derive(Debug)]
pub enum DomNode {
    Text(String),
    Comment(String),
    Element(DomElement),
}

/// The characters of a value, where there is one.
pub open spec fn value_view(value: Option<String>) -> Option<Seq<char>> {
    match value {
        Some(text) => Some(text@),
        None => None,
    }
}

/// The characters of each string.
pub open spec fn strings_view(strings: Seq<String>) -> Seq<Seq<char>> {
    Seq::new(strings.len(), |i: int| strings[i]@)
}

/// Whether attribute `i` is the first of this name.
pub open spec fn is_first_named(attributes: Seq<Attribute>, name: Seq<char>, i: int) -> bool {
    &&& 0 <= i < attributes.len()
    &&& attributes[i].name@ == name
    &&& forall|j: int| 0 <= j < i ==> (#[trigger] attributes[j]).name@ != name
}

/// What each attribute name stands for.
pub open spec fn attributes_view(attributes: Seq<Attribute>) -> Map<Seq<char>, Option<Seq<char>>> {
    Map::new(
        |name: Seq<char>| exists|i: int| is_first_named(attributes, name, i),
        |name: Seq<char>|
            value_view(attributes[choose|i: int| is_first_named(attributes, name, i)].value),
    )
}

/// The contents of an element.
pub open spec fn element_view(element: DomElement) -> ElementView
    decreases element,
{
    ElementView {
        classes: strings_view(element.classes@),
        attributes: attributes_view(element.attributes@),
        children: Seq::new(
            element.children@.len(),
            |i: int|
                if 0 <= i < element.children@.len() {
                    node_view(element.children@[i])
                } else {
                    arbitrary()
                },
        ),
    }
}

/// The contents of a node.
pub open spec fn node_view(node: DomNode) -> NodeView
    decreases node,
{
    match node {
        DomNode::Text(text) => NodeView::Text(text@),
        DomNode::Comment(text) => NodeView::Comment(text@),
        DomNode::Element(element) => NodeView::Element(element_view(element)),
    }
}

/// The contents of a document, where there is one.
pub open spec fn document_view(document: Option<Vec<DomNode>>) -> Option<Seq<NodeView>> {
    match document {
        Some(nodes) => Some(nodes_view(nodes@)),
        None => None,
    }
}

/// The contents of a list of nodes.
pub open spec fn nodes_view(nodes: Seq<DomNode>) -> Seq<NodeView> {
    Seq::new(nodes.len(), |i: int| node_view(nodes[i]))
}

impl View for DomElement {
    type V = ElementView;

    open spec fn view(&self) -> ElementView {
        element_view(*self)
    }
}

impl View for DomNode {
    type V = NodeView;

    open spec fn view(&self) -> NodeView {
        node_view(*self)
    }
}

/// The children of an element's contents are the contents of its children.
pub proof fn lemma_children(element: DomElement)
    ensures
        element@.children == nodes_view(element.children@),
{
    assert(element@.children =~= nodes_view(element.children@));
}

/// What an attribute name stands for is found at its first occurrence, and
/// nowhere if it does not occur.
pub proof fn lemma_attribute(attributes: Seq<Attribute>, name: Seq<char>)
    ensures
        forall|i: int| #[trigger]
            is_first_named(attributes, name, i) ==> attributes_view(attributes).contains_key(name)
                && attributes_view(attributes)[name] == value_view(attributes[i].value),
        (forall|i: int| 0 <= i < attributes.len() ==> (#[trigger] attributes[i]).name@ != name)
            ==> !attributes_view(attributes).contains_key(name),
{
    assert forall|i: int| #[trigger] is_first_named(attributes, name, i) implies attributes_view(
        attributes,
    ).contains_key(name) && attributes_view(attributes)[name] == value_view(attributes[i].value) by {
        let k = choose|k: int| is_first_named(attributes, name, k);
        assert(is_first_named(attributes, name, k));
        if k < i {
            assert(attributes[k].name@ != name);
        }
        if i < k {
            assert(attributes[i].name@ != name);
        }
    }
}

impl DomElement {
    /// The attribute of this name: `None` if the element has none, `Some(None)` if
    /// it stands there without a value.
    pub fn attribute(&self, name: &String) -> (r: Option<&Option<String>>)
        ensures
            match r {
                Some(value) => self@.attributes.contains_key(name@) && self@.attributes[name@]
                    == value_view(*value),
                None => !self@.attributes.contains_key(name@),
            },
    {
        proof {
            lemma_attribute(self.attributes@, name@);
        }
        for i in 0..self.attributes.len()
            invariant
                forall|j: int| 0 <= j < i ==> (#[trigger] self.attributes@[j]).name@ != name@,
                forall|j: int| #[trigger]
                    is_first_named(self.attributes@, name@, j) ==> self@.attributes.contains_key(
                        name@,
                    ) && self@.attributes[name@] == value_view(self.attributes@[j].value),
        {
            if self.attributes[i].name == *name {
                assert(is_first_named(self.attributes@, name@, i as int));
                return Some(&self.attributes[i].value);
            }
        }
        None
    }

    /// Whether the element has this class.
    pub fn has_class(&self, class: &String) -> (r: bool)
        ensures
            r == self@.classes.contains(class@),
    {
        for i in 0..self.classes.len()
            invariant
                forall|j: int| 0 <= j < i ==> self@.classes[j] != class@,
        {
            if self.classes[i] == *class {
                assert(self@.classes[i as int] == class@);
                return true;
            }
        }
        false
    }
}

/// A node as the `html_parser` crate hands it out.
#[verifier::external_type_specification]
#[verifier::external_body]
pub struct ExHtmlNode(html_parser::Node);

/// Why the `html_parser` crate refused a text.
#[verifier::external_type_specification]
#[verifier::external_body]
pub struct ExHtmlError(html_parser::Error);

/// What an [`html_parser::Node`] holds: the variant, the text of a text or a
/// comment, and of an element its `classes`, `attributes` and `children`.
pub uninterp spec fn html_node_contents(node: html_parser::Node) -> NodeView;

/// The root nodes of the document that [`html_parser::Dom::parse`] reads from a
/// text, wherever it does not refuse the text. Whether it does depends on more than
/// the text; see [`parse_html`].
pub uninterp spec fn html_document(text: Seq<char>) -> Option<Seq<NodeView>>;

/// What a list of nodes holds.
pub open spec fn html_nodes_contents(nodes: Seq<html_parser::Node>) -> Seq<NodeView> {
    Seq::new(nodes.len(), |i: int| html_node_contents(nodes[i]))
}

/// An [`html_parser::Node`], taken apart.
pub(crate) enum OpenNode {
    Text(String),
    Comment(String),
    Element(Vec<String>, Vec<Attribute>, Vec<html_parser::Node>),
}

/// What a node that was taken apart holds.
pub(crate) open spec fn open_node_contents(node: OpenNode) -> NodeView {
    match node {
        OpenNode::Text(text) => NodeView::Text(text@),
        OpenNode::Comment(text) => NodeView::Comment(text@),
        OpenNode::Element(classes, attributes, children) => NodeView::Element(
            ElementView {
                classes: strings_view(classes@),
                attributes: attributes_view(attributes@),
                children: html_nodes_contents(children@),
            },
        ),
    }
}

/// Calls [`html_parser::Dom::parse`] and hands out the root nodes. Trusted: what the
/// nodes of a text hold, where it is not refused, depends on the text alone. How HTML
/// becomes nodes is left to the crate. Of a refusal nothing is claimed: besides texts
/// that are no HTML, the crate refuses any text once the calling thread has too
/// little stack left, or once a limit on parsing steps is reached that the process
/// may have set.
#[verifier::external_body]
fn parse_html(text: &str) -> (r: Result<Vec<html_parser::Node>, html_parser::Error>)
    ensures
        r matches Ok(nodes) ==> html_document(text@) == Some(html_nodes_contents(nodes@)),
{
    html_parser::Dom::parse(text).map(|dom| dom.children)
}

/// Whether the `html_parser` crate, called on this text, can refuse it: a refusal is
/// known only from a call of [`parse_html`] that ended in one.
pub closed spec fn html_refuses(text: &str) -> bool {
    exists|e: html_parser::Error| call_ensures(parse_html, (text,), Err(e))
}

/// Takes an [`html_parser::Node`] apart by its public fields. Trusted: what comes
/// out is what the node holds. The attributes come in no particular order, each
/// name once.
#[verifier::external_body]
fn open_html_node(node: html_parser::Node) -> (r: OpenNode)
    ensures
        html_node_contents(node) == open_node_contents(r),
{
    match node {
        html_parser::Node::Text(text) => OpenNode::Text(text),
        html_parser::Node::Comment(text) => OpenNode::Comment(text),
        html_parser::Node::Element(element) => OpenNode::Element(
            element.classes,
            element.attributes.into_iter().map(|(name, value)| Attribute { name, value }).collect(),
            element.children,
        ),
    }
}

/// Copies a node out of the outside crate's tree.
fn node_of_html(node: html_parser::Node) -> (r: DomNode)
    ensures
        r@ == html_node_contents(node),
    decreases html_node_contents(node),
{
    let ghost contents = html_node_contents(node);
    match open_html_node(node) {
        OpenNode::Text(text) => DomNode::Text(text),
        OpenNode::Comment(text) => DomNode::Comment(text),
        OpenNode::Element(classes, attributes, children) => {
            assert(decreases_to!(contents => contents->Element_0.children));
            let children = nodes_of_html(children);
            let element = DomElement { classes, attributes, children };
            proof {
                lemma_children(element);
            }
            DomNode::Element(element)
        },
    }
}

/// Copies a list of nodes out of the outside crate's tree.
fn nodes_of_html(nodes: Vec<html_parser::Node>) -> (r: Vec<DomNode>)
    ensures
        nodes_view(r@) == html_nodes_contents(nodes@),
    decreases html_nodes_contents(nodes@),
{
    let ghost all = html_nodes_contents(nodes@);
    let mut r: Vec<DomNode> = Vec::new();
    for node in it: nodes
        invariant
            it.seq() == nodes@,
            all == html_nodes_contents(nodes@),
            nodes_view(r@) == all.take(it.index()),
    {
        let ghost before = r@;
        assert(decreases_to!(all => all[it.index()]));
        let copy = node_of_html(node);
        r.push(copy);
        assert(nodes_view(r@) =~= nodes_view(before).push(all[it.index()]));
        assert(all.take(it.index() + 1) =~= all.take(it.index()).push(all[it.index()]));
    }
    assert(all.take(all.len() as int) =~= all);
    r
}

/// Reads an HTML text: its root nodes, or `None` where the `html_parser` crate
/// refuses it, which need not be the text's own fault.
pub fn parse_document(text: &str) -> (r: Option<Vec<DomNode>>)
    ensures
        r matches Some(nodes) ==> html_document(text@) == Some(nodes_view(nodes@)),
        r is None ==> html_refuses(text),
{
    match parse_html(text) {
        Ok(nodes) => Some(nodes_of_html(nodes)),
        Err(_) => None,
    }
}

/// A text counts as refused for no other reason than that a call of the `html_parser`
/// crate on this text can end in an error.
proof fn lemma_refused_by_parser_alone(text: &str)
    ensures
        html_refuses(text) <==> exists|e: html_parser::Error|
            call_ensures(parse_html, (text,), Err(e)),
{
}

/// Where [`parse_document`] hands out nothing, the call of the `html_parser` crate on
/// the same text has ended in an error; and all that it hands out is what the nodes of
/// such a call hold, one node for each.
proof fn lemma_document_is_what_was_parsed(
    text: &str,
    r: Option<Vec<DomNode>>,
    parsed: Vec<html_parser::Node>,
)
    requires
        call_ensures(parse_document, (text,), r),
    ensures
        r is None ==> exists|e: html_parser::Error| call_ensures(parse_html, (text,), Err(e)),
        r is Some && call_ensures(parse_html, (text,), Ok(parsed)) ==> {
            &&& r->0@.len() == parsed@.len()
            &&& forall|i: int|
                0 <= i < parsed@.len() ==> node_view(#[trigger] r->0@[i]) == html_node_contents(
                    parsed@[i],
                )
        },
{
    if r is Some && call_ensures(parse_html, (text,), Ok(parsed)) {
        let copied = nodes_view(r->0@);
        let contents = html_nodes_contents(parsed@);
        assert(copied == contents);
        assert forall|i: int| 0 <= i < parsed@.len() implies node_view(#[trigger] r->0@[i])
            == html_node_contents(parsed@[i]) by {
            assert(copied[i] == contents[i]);
        }
    }
}

/// What a node that was taken apart holds, field by field.
proof fn lemma_open_node(node: OpenNode)
    ensures
        node matches OpenNode::Text(text) ==> open_node_contents(node) == NodeView::Text(text@),
        node matches OpenNode::Comment(text) ==> open_node_contents(node) == NodeView::Comment(text@),
        node matches OpenNode::Element(classes, attributes, children) ==> {
            &&& open_node_contents(node) matches NodeView::Element(element)
            &&& element.classes.len() == classes@.len()
            &&& forall|i: int|
                0 <= i < classes@.len() ==> #[trigger] element.classes[i] == classes@[i]@
            &&& element.attributes == attributes_view(attributes@)
            &&& element.children.len() == children@.len()
            &&& forall|i: int|
                0 <= i < children@.len() ==> #[trigger] element.children[i] == html_node_contents(
                    children@[i],
                )
        },
{
}

/// The contents of a node are its kind, and its text or its classes, attributes and
/// children, each in its place.
pub proof fn lemma_node_contents(node: DomNode)
    ensures
        node matches DomNode::Text(text) ==> node@ == NodeView::Text(text@),
        node matches DomNode::Comment(text) ==> node@ == NodeView::Comment(text@),
        node matches DomNode::Element(element) ==> {
            &&& node@ matches NodeView::Element(contents)
            &&& contents == element@
            &&& contents.classes.len() == element.classes@.len()
            &&& forall|i: int|
                0 <= i < element.classes@.len() ==> #[trigger] contents.classes[i]
                    == element.classes@[i]@
            &&& contents.children.len() == element.children@.len()
            &&& forall|i: int|
                0 <= i < element.children@.len() ==> #[trigger] contents.children[i]
                    == element.children@[i]@
        },
{
}

/// The contents of a document are those of its root nodes, in order.
pub proof fn lemma_document_contents(document: Option<Vec<DomNode>>, i: int)
    ensures
        document_view(document) is Some <==> document is Some,
        document matches Some(nodes) ==> {
            &&& document_view(document)->0.len() == nodes@.len()
            &&& 0 <= i < nodes@.len() ==> document_view(document)->0[i] == nodes@[i]@
            &&& document_view(document)->0 == nodes_view(nodes@)
        },
{
}

/// `attribute` answers with the value of the first attribute that has this name, and
/// with nothing exactly where none has it.
pub proof fn lemma_attribute_found(
    element: &DomElement,
    name: &String,
    r: Option<&Option<String>>,
    i: int,
)
    requires
        call_ensures(DomElement::attribute, (element, name), r),
        0 <= i < element.attributes@.len(),
        forall|j: int| 0 <= j < i ==> (#[trigger] element.attributes@[j]).name@ != name@,
    ensures
        element.attributes@[i].name@ == name@ ==> {
            &&& r is Some
            &&& *r->0 is Some <==> element.attributes@[i].value is Some
            &&& *r->0 matches Some(value) ==> value@ == element.attributes@[i].value->0@
        },
        element.attributes@[i].name@ != name@ && i == element.attributes@.len() - 1 ==> r is None,
{
    lemma_attribute(element.attributes@, name@);
    if element.attributes@[i].name@ == name@ {
        assert(is_first_named(element.attributes@, name@, i));
        assert(element@.attributes[name@] == value_view(element.attributes@[i].value));
    }
}

/// `attribute` answers with nothing where there is no attribute at all.
pub proof fn lemma_attribute_of_none(
    element: &DomElement,
    name: &String,
    r: Option<&Option<String>>,
)
    requires
        call_ensures(DomElement::attribute, (element, name), r),
        element.attributes@.len() == 0,
    ensures
        r is None,
{
    lemma_attribute(element.attributes@, name@);
}

/// `has_class` tells whether one of the classes reads like this.
pub proof fn lemma_class_found(element: &DomElement, class: &String, r: bool)
    requires
        call_ensures(DomElement::has_class, (element, class), r),
    ensures
        r <==> exists|i: int|
            0 <= i < element.classes@.len() && (#[trigger] element.classes@[i])@ == class@,
{
    if r {
        let i = choose|i: int| 0 <= i < element@.classes.len() && element@.classes[i] == class@;
        assert(element.classes@[i]@ == class@);
    } else {
        assert forall|i: int| 0 <= i < element.classes@.len() implies (
        #[trigger] element.classes@[i])@ != class@ by {
            assert(element@.classes[i] == element.classes@[i]@);
        }
    }
}

} // verus!
