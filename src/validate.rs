use vstd::prelude::*;
use crate::document::{
    attribute_schema, attrs_view, document_annotated, element_of, find_graph, graph_annotated, is_data_entry,
    is_element_named, is_element_with, is_first_graph, is_key_declaration, node_annotated, node_values, schema,
    XmlElement, XmlNode,
};

verus! {

/// Why a document does not follow the attribute schema.
#[derive(Debug, PartialEq, Eq)]
pub enum SchemaError {
    /// No key declaration for this schema field.
    MissingKey(String),
    /// The root has no `graph` element.
    MissingGraph,
    /// A node of the graph carries no data entry.
    MissingNodeData,
}

/// `i` is the first attribute named `k`.
pub open spec fn is_first_attr(attrs: Seq<(Seq<char>, Seq<char>)>, k: Seq<char>, i: int) -> bool {
    &&& 0 <= i < attrs.len()
    &&& attrs[i].0 == k
    &&& forall|j: int| 0 <= j < i ==> (#[trigger] attrs[j]).0 != k
}

/// The first attribute named `k` has value `v`.
pub open spec fn has_attr(attrs: Seq<(Seq<char>, Seq<char>)>, k: Seq<char>, v: Seq<char>) -> bool {
    exists|i: int| is_first_attr(attrs, k, i) && attrs[i].1 == v
}

/// `n` declares the node attribute `name` of type `ty`.
pub open spec fn declares_key(n: XmlNode, name: Seq<char>, ty: Seq<char>) -> bool {
    let a = attrs_view(element_of(n));
    &&& is_element_named(n, "key"@)
    &&& has_attr(a, "id"@, name)
    &&& has_attr(a, "for"@, "node"@)
    &&& has_attr(a, "attr.name"@, name)
    &&& has_attr(a, "attr.type"@, ty)
}

/// Some child declares schema field `k`.
pub open spec fn key_declared(children: Seq<XmlNode>, k: int) -> bool {
    exists|i: int| 0 <= i < children.len() && declares_key(#[trigger] children[i], schema()[k].0, schema()[k].1)
}

/// `n` is no node, or a node that carries at least one data entry.
pub open spec fn node_has_data(n: XmlNode) -> bool {
    is_element_named(n, "node"@) ==> exists|c: int| 0 <= c < element_of(n).children@.len()
        && is_element_named(#[trigger] element_of(n).children@[c], "data"@)
}

/// The root has a `graph` element.
pub open spec fn has_graph(children: Seq<XmlNode>) -> bool {
    exists|i: int| 0 <= i < children.len() && is_element_named(#[trigger] children[i], "graph"@)
}

/// Every node of the first `graph` element carries data.
pub open spec fn graph_nodes_have_data(children: Seq<XmlNode>) -> bool {
    forall|i: int| #[trigger] is_first_graph(children, i)
        ==> forall|c: int| 0 <= c < element_of(children[i]).children@.len()
            ==> node_has_data(#[trigger] element_of(children[i]).children@[c])
}

/// `doc` follows the attribute schema: every field is declared as a node
/// key, a graph is present, and each of its nodes carries data.
pub open spec fn schema_valid(doc: XmlElement) -> bool {
    &&& forall|k: int| 0 <= k < 7 ==> key_declared(doc.children@, k)
    &&& has_graph(doc.children@)
    &&& graph_nodes_have_data(doc.children@)
}

fn attr_is(e: &XmlElement, k: &str, v: &String) -> (r: bool)
    ensures
        r == has_attr(attrs_view(*e), k@, v@),
{
    let ghost a = attrs_view(*e);
    let key = k.to_owned();
    let mut i: usize = 0;
    while i < e.attributes.len()
        invariant
            a == attrs_view(*e),
            key@ == k@,
            i <= e.attributes@.len(),
            forall|j: int| 0 <= j < i ==> (#[trigger] a[j]).0 != k@,
        decreases e.attributes@.len() - i,
    {
        let pair = &e.attributes[i];
        if pair.0 == key {
            let r = pair.1 == *v;
            proof {
                assert(is_first_attr(a, k@, i as int));
                if has_attr(a, k@, v@) {
                    let i2 = choose|i2: int| is_first_attr(a, k@, i2) && a[i2].1 == v@;
                    if i2 < i {
                        assert(a[i2].0 != k@);
                    }
                    if i2 > i {
                        assert(a[i as int].0 != k@);
                    }
                }
            }
            return r;
        }
        i = i + 1;
    }
    proof {
        lemma_absent_attr(a, k@, v@);
    }
    false
}

fn is_declaration(n: &XmlNode, name: &String, ty: &String) -> (r: bool)
    ensures
        r == declares_key(*n, name@, ty@),
{
    let node_word = "node".to_owned();
    let key_tag = "key".to_owned();
    match n {
        XmlNode::Element(e) => {
            e.name == key_tag && attr_is(e, "id", name) && attr_is(e, "for", &node_word)
                && attr_is(e, "attr.name", name) && attr_is(e, "attr.type", ty)
        },
        _ => false,
    }
}

fn is_declared(children: &Vec<XmlNode>, name: &String, ty: &String) -> (r: bool)
    ensures
        r == exists|i: int| 0 <= i < children@.len() && declares_key(#[trigger] children@[i], name@, ty@),
{
    let mut i: usize = 0;
    while i < children.len()
        invariant
            i <= children@.len(),
            forall|j: int| 0 <= j < i ==> !declares_key(#[trigger] children@[j], name@, ty@),
        decreases children@.len() - i,
    {
        if is_declaration(&children[i], name, ty) {
            return true;
        }
        i = i + 1;
    }
    false
}

fn has_data(n: &XmlNode) -> (r: bool)
    ensures
        r == node_has_data(*n),
{
    let node_tag = "node".to_owned();
    let data_tag = "data".to_owned();
    match n {
        XmlNode::Element(e) => {
            if e.name != node_tag {
                return true;
            }
            let mut c: usize = 0;
            while c < e.children.len()
                invariant
                    c <= e.children@.len(),
                    data_tag@ == "data"@,
                    element_of(*n) == *e,
                    is_element_named(*n, "node"@),
                    forall|j: int| 0 <= j < c ==> !is_element_named(#[trigger] e.children@[j], "data"@),
                decreases e.children@.len() - c,
            {
                if is_element_with(&e.children[c], &data_tag) {
                    assert(element_of(*n) == *e);
                    assert(is_element_named(element_of(*n).children@[c as int], "data"@));
                    return true;
                }
                c = c + 1;
            }
            assert(element_of(*n) == *e);
            false
        },
        _ => true,
    }
}

fn nodes_have_data(g: &XmlElement) -> (r: bool)
    ensures
        r == forall|c: int| 0 <= c < g.children@.len() ==> node_has_data(#[trigger] g.children@[c]),
{
    let mut c: usize = 0;
    while c < g.children.len()
        invariant
            c <= g.children@.len(),
            forall|j: int| 0 <= j < c ==> node_has_data(#[trigger] g.children@[j]),
        decreases g.children@.len() - c,
    {
        if !has_data(&g.children[c]) {
            return false;
        }
        c = c + 1;
    }
    true
}

proof fn lemma_first_graph_unique(children: Seq<XmlNode>, i: int, j: int)
    requires
        is_first_graph(children, i),
        is_first_graph(children, j),
    ensures
        i == j,
{
    if j < i {
        assert(!is_element_named(children[j], "graph"@));
    }
    if i < j {
        assert(!is_element_named(children[i], "graph"@));
    }
}

/// Checks a document against the attribute schema: every schema field
/// must be declared as a node key, the root must hold a `graph` element,
/// and every node of that graph must carry data. Which fields a node
/// carries, and with what values, is left to the tools that read it. The
/// first schema field in order without a key declaration gives
/// `MissingKey`; then a root without a `graph` element gives `MissingGraph`;
/// then a node of the first graph without data gives `MissingNodeData`.
pub fn validate_schema(doc: &XmlElement) -> (r: Result<(), SchemaError>)
    ensures
        r is Ok <==> schema_valid(*doc),
        r matches Err(SchemaError::MissingKey(_)) <==> !(forall|k: int| 0 <= k < 7 ==> key_declared(doc.children@, k)),
        r matches Err(SchemaError::MissingKey(name)) ==> exists|k: int| 0 <= k < 7 && name@ == schema()[k].0
            && !key_declared(doc.children@, k)
            && forall|m: int| 0 <= m < k ==> key_declared(doc.children@, m),
        r matches Err(SchemaError::MissingGraph) <==> (forall|k: int| 0 <= k < 7 ==> key_declared(doc.children@, k))
            && !has_graph(doc.children@),
        r matches Err(SchemaError::MissingNodeData) <==> (forall|k: int| 0 <= k < 7 ==> key_declared(doc.children@, k))
            && has_graph(doc.children@) && !graph_nodes_have_data(doc.children@),
{
    let fields = attribute_schema();
    let mut k: usize = 0;
    while k < 7
        invariant
            k <= 7,
            fields@.len() == 7,
            forall|m: int| 0 <= m < 7 ==> (#[trigger] fields@[m]).0@ == schema()[m].0 && fields@[m].1@ == schema()[m].1,
            forall|m: int| 0 <= m < k ==> key_declared(doc.children@, m),
        decreases 7 - k,
    {
        if !is_declared(&doc.children, &fields[k].0, &fields[k].1) {
            assert(!key_declared(doc.children@, k as int));
            return Err(SchemaError::MissingKey(fields[k].0.clone()));
        }
        k = k + 1;
    }
    match find_graph(&doc.children) {
        None => Err(SchemaError::MissingGraph),
        Some(i) => {
            assert(is_element_named(doc.children@[i as int], "graph"@));
            assert forall|j: int| #[trigger] is_first_graph(doc.children@, j) implies j == i by {
                lemma_first_graph_unique(doc.children@, i as int, j);
            }
            match &doc.children[i] {
                XmlNode::Element(g) => {
                    assert(element_of(doc.children@[i as int]) == *g);
                    if nodes_have_data(g) {
                        Ok(())
                    } else {
                        assert(!graph_nodes_have_data(doc.children@));
                        Err(SchemaError::MissingNodeData)
                    }
                },
                _ => Err(SchemaError::MissingGraph),
            }
        },
    }
}

proof fn lemma_key_declaration_declares(n: XmlNode, name: Seq<char>, ty: Seq<char>)
    requires
        is_key_declaration(n, name, ty),
    ensures
        declares_key(n, name, ty),
{
    reveal_strlit("attr.name");
    reveal_strlit("attr.type");
    reveal_strlit("for");
    reveal_strlit("id");
    let a = attrs_view(element_of(n));
    assert("attr.name"@[5] != "attr.type"@[5]);
    assert(is_first_attr(a, "attr.name"@, 0));
    assert(is_first_attr(a, "attr.type"@, 1));
    assert("attr.name"@.len() != "for"@.len() && "attr.type"@.len() != "for"@.len());
    assert("attr.name"@.len() != "id"@.len() && "attr.type"@.len() != "id"@.len() && "for"@.len() != "id"@.len());
    assert(is_first_attr(a, "for"@, 2));
    assert(is_first_attr(a, "id"@, 3));
}

proof fn lemma_first_graph_exists(children: Seq<XmlNode>, k: int)
    requires
        0 <= k < children.len(),
        is_element_named(children[k], "graph"@),
    ensures
        exists|i: int| is_first_graph(children, i),
    decreases k,
{
    if exists|j: int| 0 <= j < k && is_element_named(#[trigger] children[j], "graph"@) {
        let j = choose|j: int| 0 <= j < k && is_element_named(#[trigger] children[j], "graph"@);
        lemma_first_graph_exists(children, j);
    } else {
        assert(is_first_graph(children, k));
    }
}

/// Round trip: annotating a document that has a graph yields a document
/// that passes validation.
pub proof fn lemma_annotated_document_valid(d0: XmlElement, d1: XmlElement, version: Seq<char>, config: Seq<char>)
    requires
        document_annotated(d0, d1, version, config),
        has_graph(d0.children@),
    ensures
        schema_valid(d1),
{
    let len = d0.children@.len();
    assert forall|k: int| 0 <= k < 7 implies key_declared(d1.children@, k) by {
        assert(is_key_declaration(d1.children@[len + k], schema()[k].0, schema()[k].1));
        lemma_key_declaration_declares(d1.children@[len + k], schema()[k].0, schema()[k].1);
    }
    let gk = choose|i: int| 0 <= i < len && is_element_named(#[trigger] d0.children@[i], "graph"@);
    lemma_first_graph_exists(d0.children@, gk);
    let gi = choose|i: int| is_first_graph(d0.children@, i);
    assert forall|m: int| 0 <= m < gi implies !is_element_named(#[trigger] d1.children@[m], "graph"@) by {
        assert(!is_first_graph(d0.children@, m));
        assert(d1.children@[m] == d0.children@[m]);
    }
    let g0 = element_of(d0.children@[gi]);
    let g1 = element_of(d1.children@[gi]);
    assert(graph_annotated(g0, g1, version, config));
    assert(is_first_graph(d1.children@, gi));
    assert forall|j: int| #[trigger] is_first_graph(d1.children@, j)
        implies forall|c: int| 0 <= c < element_of(d1.children@[j]).children@.len()
            ==> node_has_data(#[trigger] element_of(d1.children@[j]).children@[c]) by {
        lemma_first_graph_unique(d1.children@, gi, j);
        assert forall|c: int| 0 <= c < g1.children@.len() implies node_has_data(#[trigger] g1.children@[c]) by {
            if is_element_named(g0.children@[c], "node"@) {
                let n0 = element_of(g0.children@[c]);
                let n1 = element_of(g1.children@[c]);
                assert(node_annotated(n0, n1, version, config));
                let l: int = n0.children@.len() as int;
                assert(is_data_entry(n1.children@[l + 0], schema()[0].0, node_values(version, config)[0]));
                assert(is_element_named(n1.children@[l], "data"@));
            } else {
                assert(g1.children@[c] == g0.children@[c]);
            }
        }
    }
}

proof fn lemma_absent_attr(a: Seq<(Seq<char>, Seq<char>)>, k: Seq<char>, v: Seq<char>)
    requires
        forall|j: int| 0 <= j < a.len() ==> (#[trigger] a[j]).0 != k,
    ensures
        !has_attr(a, k, v),
{
}

} // verus!
