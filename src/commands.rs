use vstd::prelude::*;

verus! {

/// Version given to every node when none is asked for.
pub const DEFAULT_VERSION: &'static str = "26.0";

/// The graph subcommands.
#[derive(Debug, PartialEq, Eq)]
pub enum GraphCommand {
    /// Create a cycle graph with seven extra random outbound edges per node.
    Create {
        number: usize,
        outfile: Option<String>,
        version: Option<String>,
        bitcoin_conf: Option<String>,
    },
    /// Validate a GraphML file against the attribute schema.
    Validate { graph: String },
}

/// The debug subcommands.
#[derive(Debug, PartialEq, Eq)]
pub enum DebugCommand {
    /// Generate the compose file for a graph file.
    GenerateCompose { graph_file_path: String },
}

/// Which command-line client a node RPC goes to.
#[derive(Debug, Clone, Copy, PartialEq, Eq)]
pub enum NodeType {
    LnCli,
    BitcoinCli,
}

/// The version to broadcast to every node: the one given, else the default.
pub fn version_or_default(version: &Option<String>) -> (r: String)
    ensures
        version matches Some(v) ==> r@ == v@,
        version is None ==> r@ == DEFAULT_VERSION@,
{
    match version {
        Some(v) => v.clone(),
        None => DEFAULT_VERSION.to_owned(),
    }
}

/// The server method that relays a call to a node's client.
pub fn rpc_method(node_type: NodeType) -> (r: &'static str)
    ensures
        node_type is LnCli ==> r@ == "tank_lncli"@,
        node_type is BitcoinCli ==> r@ == "tank_bcli"@,
{
    match node_type {
        NodeType::LnCli => "tank_lncli",
        NodeType::BitcoinCli => "tank_bcli",
    }
}

} // verus!
