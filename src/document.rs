use vstd::prelude::*;

verus! {

/// An XML element: its namespace prefix and URI, the namespace bindings it
/// carries, its tag, its attributes in document order, and its children.
#[derive(Debug, PartialEq, Eq)]
pub struct XmlElement {
    pub prefix: Option<String>,
    pub namespace: Option<String>,
    pub namespaces: Option<Vec<(String, String)>>,
    pub name: String,
    pub attributes: Vec<(String, String)>,
    pub children: Vec<XmlNode>,
}

/// A child of an XML element.
#[derive(Debug, PartialEq, Eq)]
pub enum XmlNode {
    Element(XmlElement),
    Text(String),
    CData(String),
    Comment(String),
    ProcessingInstruction(String, Option<String>),
}

/// The attribute schema: the name and type of each of the seven metadata
/// fields that every node carries, in order.
pub open spec fn schema() -> Seq<(Seq<char>, Seq<char>)> {
    seq![
        ("version"@, "string"@),
        ("bitcoin_config"@, "string"@),
        ("tc_netem"@, "string"@),
        ("build_args"@, "string"@),
        ("exporter"@, "boolean"@),
        ("collect_logs"@, "boolean"@),
        ("image"@, "string"@),
    ]
}

/// The value each schema field takes on a freshly generated node.
pub open spec fn node_values(version: Seq<char>, config: Seq<char>) -> Seq<Seq<char>> {
    seq![version, config, ""@, ""@, "false"@, "false"@, ""@]
}

/// The schema's names and types, in order.
pub fn attribute_schema() -> (r: Vec<(String, String)>)
    ensures
        r@.len() == schema().len(),
        forall|k: int| 0 <= k < r@.len() ==> (#[trigger] r@[k]).0@ == schema()[k].0 && r@[k].1@ == schema()[k].1,
{
    let mut r: Vec<(String, String)> = Vec::new();
    r.push(("version".to_owned(), "string".to_owned()));
    r.push(("bitcoin_config".to_owned(), "string".to_owned()));
    r.push(("tc_netem".to_owned(), "string".to_owned()));
    r.push(("build_args".to_owned(), "string".to_owned()));
    r.push(("exporter".to_owned(), "boolean".to_owned()));
    r.push(("collect_logs".to_owned(), "boolean".to_owned()));
    r.push(("image".to_owned(), "string".to_owned()));
    r
}

/// `new` has the tag, namespace and attributes of `old`.
pub open spec fn same_header(old: XmlElement, new: XmlElement) -> bool {
    &&& new.prefix == old.prefix
    &&& new.namespace == old.namespace
    &&& new.namespaces == old.namespaces
    &&& new.name == old.name
    &&& new.attributes == old.attributes
}

/// Attribute pairs as character sequences.
pub open spec fn attrs_view(e: XmlElement) -> Seq<(Seq<char>, Seq<char>)> {
    e.attributes@.map_values(|p: (String, String)| (p.0@, p.1@))
}

/// `n` is an element with tag `tag`.
pub open spec fn is_element_named(n: XmlNode, tag: Seq<char>) -> bool {
    n matches XmlNode::Element(e) && e.name@ == tag
}

/// The element inside `n`, where `n` is one.
pub open spec fn element_of(n: XmlNode) -> XmlElement {
    match n {
        XmlNode::Element(e) => e,
        _ => arbitrary(),
    }
}

/// `n` is the declaration `<key attr.name=name attr.type=ty for="node" id=name/>`.
pub open spec fn is_key_declaration(n: XmlNode, name: Seq<char>, ty: Seq<char>) -> bool {
    &&& is_element_named(n, "key"@)
    &&& attrs_view(element_of(n)) == seq![("attr.name"@, name), ("attr.type"@, ty), ("for"@, "node"@), ("id"@, name)]
    &&& element_of(n).children@.len() == 0
}

/// `n` is the entry `<data key=key>value</data>`.
pub open spec fn is_data_entry(n: XmlNode, key: Seq<char>, value: Seq<char>) -> bool {
    &&& is_element_named(n, "data"@)
    &&& attrs_view(element_of(n)) == seq![("key"@, key)]
    &&& element_of(n).children@.len() == 1
    &&& element_of(n).children@[0] matches XmlNode::Text(t) && t@ == value
}

/// `new` is the node `old` with one data entry per schema field appended.
pub open spec fn node_annotated(old: XmlElement, new: XmlElement, version: Seq<char>, config: Seq<char>) -> bool {
    let len = old.children@.len();
    &&& same_header(old, new)
    &&& new.children@.len() == len + 7
    &&& new.children@.subrange(0, len as int) == old.children@
    &&& forall|k: int| 0 <= k < 7 ==> is_data_entry(
        #[trigger] new.children@[len + k], schema()[k].0, node_values(version, config)[k])
}

/// `new` is the graph element `old` with every `node` child annotated and
/// every other child unchanged.
pub open spec fn graph_annotated(old: XmlElement, new: XmlElement, version: Seq<char>, config: Seq<char>) -> bool {
    &&& same_header(old, new)
    &&& new.children@.len() == old.children@.len()
    &&& forall|i: int| 0 <= i < old.children@.len() ==> if is_element_named(#[trigger] old.children@[i], "node"@) {
        &&& new.children@[i] matches XmlNode::Element(_)
        &&& node_annotated(element_of(old.children@[i]), element_of(new.children@[i]), version, config)
    } else {
        new.children@[i] == old.children@[i]
    }
}

/// `i` is the position of the first `graph` element among `children`.
pub open spec fn is_first_graph(children: Seq<XmlNode>, i: int) -> bool {
    &&& 0 <= i < children.len()
    &&& is_element_named(children[i], "graph"@)
    &&& forall|j: int| 0 <= j < i ==> !is_element_named(#[trigger] children[j], "graph"@)
}

/// `new` is the document `old` with the schema's key declarations appended
/// to the root and its first graph element annotated.
pub open spec fn document_annotated(old: XmlElement, new: XmlElement, version: Seq<char>, config: Seq<char>) -> bool {
    let len = old.children@.len();
    &&& same_header(old, new)
    &&& new.children@.len() == len + 7
    &&& forall|k: int| 0 <= k < 7 ==> is_key_declaration(#[trigger] new.children@[len + k], schema()[k].0, schema()[k].1)
    &&& forall|i: int| 0 <= i < len ==> if is_first_graph(old.children@, i) {
        &&& new.children@[i] matches XmlNode::Element(_)
        &&& graph_annotated(element_of(old.children@[i]), element_of(#[trigger] new.children@[i]), version, config)
    } else {
        new.children@[i] == old.children@[i]
    }
}

/// Annotating a node that carries no children yet leaves it with exactly
/// one data entry per schema field, in schema order, and nothing else.
pub proof fn lemma_fresh_node_complete(old: XmlElement, new: XmlElement, version: Seq<char>, config: Seq<char>)
    requires
        old.children@.len() == 0,
        node_annotated(old, new, version, config),
    ensures
        new.children@.len() == schema().len(),
        forall|k: int| 0 <= k < schema().len() ==> is_data_entry(
            #[trigger] new.children@[k], schema()[k].0, node_values(version, config)[k]),
{
    assert forall|k: int| 0 <= k < schema().len() implies is_data_entry(
        #[trigger] new.children@[k], schema()[k].0, node_values(version, config)[k]) by {
        assert(new.children@[0 + k] == new.children@[k]);
    }
}

/// Annotation is not idempotent: annotating an annotated document again
/// appends a second set of key declarations, and every node of the first
/// graph gains a second set of data entries.
pub proof fn lemma_reannotation_doubles(
    d0: XmlElement,
    d1: XmlElement,
    d2: XmlElement,
    version: Seq<char>,
    config: Seq<char>,
    i: int,
    j: int,
)
    requires
        document_annotated(d0, d1, version, config),
        document_annotated(d1, d2, version, config),
        is_first_graph(d0.children@, i),
        0 <= j < element_of(d0.children@[i]).children@.len(),
        is_element_named(element_of(d0.children@[i]).children@[j], "node"@),
    ensures
        d2.children@.len() == d0.children@.len() + 2 * schema().len(),
        element_of(element_of(d2.children@[i]).children@[j]).children@.len()
            == element_of(element_of(d0.children@[i]).children@[j]).children@.len() + 2 * schema().len(),
{
    assert forall|m: int| 0 <= m < i implies !is_element_named(#[trigger] d1.children@[m], "graph"@) by {
        assert(!is_first_graph(d0.children@, m));
        assert(d1.children@[m] == d0.children@[m]);
    }
    assert(is_first_graph(d1.children@, i));
    let g0 = element_of(d0.children@[i]);
    let g1 = element_of(d1.children@[i]);
    let g2 = element_of(d2.children@[i]);
    assert(graph_annotated(g0, g1, version, config));
    assert(graph_annotated(g1, g2, version, config));
    assert(is_element_named(g0.children@[j], "node"@));
    assert(is_element_named(g1.children@[j], "node"@));
}

fn new_element(name: &str, attributes: Vec<(String, String)>, children: Vec<XmlNode>) -> (r: XmlElement)
    ensures
        r.name@ == name@,
        r.attributes == attributes,
        r.children == children,
{
    XmlElement { prefix: None, namespace: None, namespaces: None, name: name.to_owned(), attributes, children }
}

fn key_declaration(name: &String, ty: &String) -> (r: XmlNode)
    ensures
        is_key_declaration(r, name@, ty@),
{
    let mut attributes: Vec<(String, String)> = Vec::new();
    attributes.push(("attr.name".to_owned(), name.clone()));
    attributes.push(("attr.type".to_owned(), ty.clone()));
    attributes.push(("for".to_owned(), "node".to_owned()));
    attributes.push(("id".to_owned(), name.clone()));
    let e = new_element("key", attributes, Vec::new());
    proof {
        assert(attrs_view(e) =~= seq![("attr.name"@, name@), ("attr.type"@, ty@), ("for"@, "node"@), ("id"@, name@)]);
    }
    XmlNode::Element(e)
}

fn data_entry(key: &String, value: &str) -> (r: XmlNode)
    ensures
        is_data_entry(r, key@, value@),
{
    let mut attributes: Vec<(String, String)> = Vec::new();
    attributes.push(("key".to_owned(), key.clone()));
    let mut children: Vec<XmlNode> = Vec::new();
    children.push(XmlNode::Text(value.to_owned()));
    let e = new_element("data", attributes, children);
    proof {
        assert(attrs_view(e) =~= seq![("key"@, key@)]);
    }
    XmlNode::Element(e)
}

fn node_value<'a>(k: usize, version: &'a str, config: &'a str) -> (r: &'a str)
    requires
        k < 7,
    ensures
        r@ == node_values(version@, config@)[k as int],
{
    proof {
        reveal_strlit("false");
        reveal_strlit("");
    }
    if k == 0 {
        version
    } else if k == 1 {
        config
    } else if k == 4 || k == 5 {
        "false"
    } else {
        ""
    }
}

fn annotate_node(node: &mut XmlElement, version: &str, config: &str)
    ensures
        node_annotated(*old(node), *final(node), version@, config@),
{
    let fields = attribute_schema();
    let ghost len = old(node).children@.len();
    let mut k: usize = 0;
    while k < 7
        invariant
            k <= 7,
            fields@.len() == 7,
            forall|m: int| 0 <= m < 7 ==> (#[trigger] fields@[m]).0@ == schema()[m].0,
            same_header(*old(node), *node),
            node.children@.len() == len + k,
            node.children@.subrange(0, len as int) == old(node).children@,
            forall|m: int| 0 <= m < k ==> is_data_entry(
                #[trigger] node.children@[len + m], schema()[m].0, node_values(version@, config@)[m]),
        decreases 7 - k,
    {
        let entry = data_entry(&fields[k].0, node_value(k, version, config));
        let ghost before = node.children@;
        node.children.push(entry);
        assert(node.children@.subrange(0, len as int) =~= before.subrange(0, len as int));
        k = k + 1;
    }
}

pub(crate) fn is_element_with(n: &XmlNode, tag: &String) -> (r: bool)
    ensures
        r == is_element_named(*n, tag@),
{
    match n {
        XmlNode::Element(e) => e.name == *tag,
        _ => false,
    }
}

fn annotate_graph(graph: &mut XmlElement, version: &str, config: &str)
    ensures
        graph_annotated(*old(graph), *final(graph), version@, config@),
{
    let node_tag = "node".to_owned();
    let mut i: usize = 0;
    while i < graph.children.len()
        invariant
            node_tag@ == "node"@,
            same_header(*old(graph), *graph),
            graph.children@.len() == old(graph).children@.len(),
            forall|j: int| i <= j < graph.children@.len() ==> #[trigger] graph.children@[j] == old(graph).children@[j],
            forall|j: int| 0 <= j < i ==> if is_element_named(#[trigger] old(graph).children@[j], "node"@) {
                &&& graph.children@[j] matches XmlNode::Element(_)
                &&& node_annotated(element_of(old(graph).children@[j]), element_of(graph.children@[j]), version@, config@)
            } else {
                graph.children@[j] == old(graph).children@[j]
            },
        decreases graph.children@.len() - i,
    {
        if is_element_with(&graph.children[i], &node_tag) {
            match &mut graph.children[i] {
                XmlNode::Element(el) => annotate_node(el, version, config),
                _ => {},
            }
        }
        i = i + 1;
    }
}

/// Position of the first `graph` element among `children`.
pub fn find_graph(children: &Vec<XmlNode>) -> (r: Option<usize>)
    ensures
        r matches Some(i) ==> is_first_graph(children@, i as int),
        r is None ==> forall|j: int| 0 <= j < children@.len() ==> !is_element_named(#[trigger] children@[j], "graph"@),
{
    let graph_tag = "graph".to_owned();
    let mut i: usize = 0;
    while i < children.len()
        invariant
            graph_tag@ == "graph"@,
            i <= children@.len(),
            forall|j: int| 0 <= j < i ==> !is_element_named(#[trigger] children@[j], "graph"@),
        decreases children@.len() - i,
    {
        if is_element_with(&children[i], &graph_tag) {
            return Some(i);
        }
        i = i + 1;
    }
    None
}

/// Annotates a serialized graph document: appends to the root one key
/// declaration per schema field, and to every `node` of its first `graph`
/// element one data entry per schema field, with `version_str` and
/// `bitcoin_conf` as the values of the first two fields and the defaults for
/// the others. Without a `graph` element only the declarations are added.
/// Annotating twice appends everything twice.
pub fn add_custom_attributes(doc: XmlElement, version_str: &str, bitcoin_conf: &str) -> (r: XmlElement)
    ensures
        document_annotated(doc, r, version_str@, bitcoin_conf@),
{
    let mut doc = doc;
    let ghost old_doc = doc;
    match find_graph(&doc.children) {
        Some(gi) => match &mut doc.children[gi] {
            XmlNode::Element(graph) => annotate_graph(graph, version_str, bitcoin_conf),
            _ => {},
        },
        None => {},
    }
    let ghost mid = doc.children@;
    let fields = attribute_schema();
    let mut k: usize = 0;
    while k < 7
        invariant
            k <= 7,
            fields@.len() == 7,
            forall|m: int| 0 <= m < 7 ==> (#[trigger] fields@[m]).0@ == schema()[m].0 && fields@[m].1@ == schema()[m].1,
            same_header(old_doc, doc),
            mid.len() == old_doc.children@.len(),
            doc.children@.len() == mid.len() + k,
            forall|j: int| 0 <= j < mid.len() ==> #[trigger] doc.children@[j] == mid[j],
            forall|m: int| 0 <= m < k ==> is_key_declaration(
                #[trigger] doc.children@[mid.len() + m], schema()[m].0, schema()[m].1),
        decreases 7 - k,
    {
        doc.children.push(key_declaration(&fields[k].0, &fields[k].1));
        k = k + 1;
    }
    proof {
        let len = old_doc.children@.len();
        assert forall|i: int| 0 <= i < len implies if is_first_graph(old_doc.children@, i) {
            &&& doc.children@[i] matches XmlNode::Element(_)
            &&& graph_annotated(element_of(old_doc.children@[i]), element_of(#[trigger] doc.children@[i]), version_str@, bitcoin_conf@)
        } else {
            doc.children@[i] == old_doc.children@[i]
        } by {
            assert(doc.children@[i] == mid[i]);
            if is_first_graph(old_doc.children@, i) {
                assert(old_doc.children@[i] matches XmlNode::Element(_));
            }
        }
    }
    doc
}

} // verus!
