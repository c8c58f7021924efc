use vstd::prelude::*;

verus! {

/// What a node of the project graph stands for.
pub enum GraphNode {
    /// A file, by its path.
    File(String),
    /// A symbol, by its name, with how often the project refers to it.
    Symbol { name: String, references: usize },
    /// Anything else.
    Other,
}

/// How an edge of the project graph relates its two nodes.
#[derive(Debug, Clone, Copy, PartialEq, Eq, Structural)]
pub enum GraphRelation {
    /// The source file imports the target file.
    Imports,
    /// The source contains the target (a file its symbols).
    Contains,
    /// The source symbol calls the target.
    Calls,
    /// The source symbol refers to the target.
    References,
    /// Any other relation.
    Other,
}

/// A directed edge of the project graph, between node positions.
#[derive(Debug, Clone, Copy)]
pub struct GraphEdge {
    pub source: usize,
    pub target: usize,
    pub relation: GraphRelation,
}

/// The project graph: its nodes and its directed edges.
pub struct ProjectGraph {
    pub nodes: Vec<GraphNode>,
    pub edges: Vec<GraphEdge>,
}

impl ProjectGraph {
    /// Every edge joins two nodes of the graph.
    pub open spec fn wf(&self) -> bool {
        forall|i: int|
            0 <= i < self.edges@.len() ==> #[trigger] self.edges@[i].source < self.nodes@.len()
                && self.edges@[i].target < self.nodes@.len()
    }

    /// The path of node `n`, where it is a file.
    pub open spec fn file_path(&self, n: int) -> Option<Seq<char>> {
        match self.nodes@[n] {
            GraphNode::File(p) => Some(p@),
            _ => None,
        }
    }

    /// Whether node `n` is a symbol.
    pub open spec fn is_symbol(&self, n: int) -> bool {
        self.nodes@[n] is Symbol
    }
}

/// The symbols among the nodes, in order, with their reference counts.
pub open spec fn symbol_entries(nodes: Seq<GraphNode>) -> Seq<(String, usize)>
    decreases nodes.len(),
{
    if nodes.len() == 0 {
        seq![]
    } else {
        let prev = symbol_entries(nodes.drop_last());
        match nodes.last() {
            GraphNode::Symbol { name, references } => prev.push((name, references)),
            _ => prev,
        }
    }
}

} // verus!
