use vstd::prelude::*;
use petgraph::graph::DiGraph;
use crate::topology::{edges_of, node_count_of};

verus! {

/// The pretty-printed GraphML text that petgraph_graphml writes for a graph
/// with `n` weightless nodes and the given edges, in that order.
pub uninterp spec fn graphml_text(n: nat, edges: Seq<(nat, nat)>) -> Seq<u8>;

/// Serializing a graph into memory failed.
#[derive(Debug, PartialEq, Eq)]
pub enum SerializeError {
    Write,
}

/// Relies on petgraph_graphml's `GraphMl::to_writer` with pretty printing:
/// the GraphML text depends on the graph's nodes and edges alone. It returns
/// an error only for an I/O error of the writer, which a `Vec` never
/// reports, and its emitted events are always well nested, so it succeeds.
#[verifier::external_body]
fn write_graphml(g: &DiGraph<(), ()>) -> (r: Option<Vec<u8>>)
    ensures
        r is Some,
        r matches Some(b) ==> b@ == graphml_text(node_count_of(*g), edges_of(*g)),
{
    let mut buf: Vec<u8> = Vec::new();
    match petgraph_graphml::GraphMl::new(g).pretty_print(true).to_writer(&mut buf) {
        Ok(()) => Some(buf),
        Err(_) => None,
    }
}

/// Serializes a graph to pretty-printed GraphML: one `node` element per
/// node and one `edge` element per edge inside a single `graph` element.
/// Writing into memory cannot fail, so the result is always `Ok`.
pub fn convert_to_graphml(graph: &DiGraph<(), ()>) -> (r: Result<Vec<u8>, SerializeError>)
    ensures
        r is Ok,
        r matches Ok(b) ==> b@ == graphml_text(node_count_of(*graph), edges_of(*graph)),
{
    match write_graphml(graph) {
        Some(b) => Ok(b),
        None => Err(SerializeError::Write),
    }
}

} // verus!
