use steampipe::batch::distillation::graph::{GraphEdge, GraphNode, GraphRelation, ProjectGraph};
use steampipe::batch::distillation::patch::{affected_paths, patched_totals, PatchedFile};

fn edge(source: usize, target: usize, relation: GraphRelation) -> GraphEdge {
    GraphEdge { source, target, relation }
}

/// a.rs imports b.rs; a.rs defines f, which calls g of c.rs; d.rs refers to h of a.rs;
/// e.rs is unrelated.
fn sample() -> ProjectGraph {
    ProjectGraph {
        nodes: vec![
            GraphNode::File("a.rs".to_string()),   // 0
            GraphNode::File("b.rs".to_string()),   // 1
            GraphNode::File("c.rs".to_string()),   // 2
            GraphNode::File("d.rs".to_string()),   // 3
            GraphNode::File("e.rs".to_string()),   // 4
            GraphNode::Symbol { name: "f".to_string(), references: 1 },    // 5
            GraphNode::Symbol { name: "g".to_string(), references: 1 },    // 6
            GraphNode::Symbol { name: "h".to_string(), references: 1 },    // 7
            GraphNode::Symbol { name: "k".to_string(), references: 1 },    // 8
            GraphNode::Other,                      // 9
        ],
        edges: vec![
            edge(0, 1, GraphRelation::Imports),
            edge(0, 5, GraphRelation::Contains),
            edge(2, 6, GraphRelation::Contains),
            edge(5, 6, GraphRelation::Calls),
            edge(0, 7, GraphRelation::Contains),
            edge(3, 8, GraphRelation::Contains),
            edge(8, 7, GraphRelation::References),
            edge(4, 9, GraphRelation::Other),
            edge(0, 4, GraphRelation::Other),
        ],
    }
}

fn sorted(mut v: Vec<String>) -> Vec<String> {
    v.sort();
    v
}

#[test]
fn a_change_affects_its_neighbours() {
    let g = sample();
    assert_eq!(sorted(affected_paths(&g, "a.rs", Some(0))), vec!["a.rs", "b.rs", "c.rs", "d.rs"]);
    assert_eq!(sorted(affected_paths(&g, "b.rs", Some(1))), vec!["a.rs", "b.rs"]);
    assert_eq!(sorted(affected_paths(&g, "c.rs", Some(2))), vec!["a.rs", "c.rs"]);
    assert_eq!(sorted(affected_paths(&g, "e.rs", Some(4))), vec!["e.rs"]);
    assert_eq!(affected_paths(&g, "new.rs", None), vec!["new.rs"]);
}

#[test]
fn affected_paths_are_listed_once() {
    let mut g = sample();
    g.edges.push(edge(1, 0, GraphRelation::Imports));
    g.edges.push(edge(0, 0, GraphRelation::Imports));
    assert_eq!(sorted(affected_paths(&g, "a.rs", Some(0))), vec!["a.rs", "b.rs", "c.rs", "d.rs"]);
}

#[test]
fn layer_totals_move_by_the_patched_files() {
    let files = vec![
        PatchedFile::Redistilled { old_original: 100, old_distilled: 40, new_original: 120, new_distilled: 50 },
        PatchedFile::Removed { old_original: 30, old_distilled: 10 },
        PatchedFile::Unread,
    ];
    assert_eq!(patched_totals(1000, 400, &files), (990, 400));
    assert_eq!(patched_totals(10, 5, &files[1..]), (0, 0));
    assert_eq!(patched_totals(7, 3, &[]), (7, 3));
}
