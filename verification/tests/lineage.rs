use schema::{ContentHash, EditEffect, LineageGraph, SchemaEditReceipt};

fn hash(n: u8) -> ContentHash {
    ContentHash::from_hex(&format!("{:064x}", n)).expect("64 hex digits")
}

fn edge(parent: u8, child: u8) -> SchemaEditReceipt {
    SchemaEditReceipt {
        parent_core_hash: hash(parent),
        child_core_hash: hash(child),
        effect: EditEffect::StructureChange(None),
    }
}

fn endpoints(chain: &[&SchemaEditReceipt]) -> Vec<(String, String)> {
    chain
        .iter()
        .map(|e| (e.parent_core_hash.to_hex(), e.child_core_hash.to_hex()))
        .collect()
}

#[test]
fn recording_drops_duplicate_edges() {
    let mut graph = LineageGraph::new();
    graph.record(edge(1, 2));
    graph.record(edge(1, 2));
    graph.record(edge(2, 3));
    assert_eq!(graph.edges().len(), 2);
    let built = LineageGraph::from_edges(vec![edge(1, 2), edge(2, 3), edge(1, 2)]);
    assert_eq!(built.edges().len(), 2);
}

#[test]
fn a_conversion_chain_follows_the_edges_in_order() {
    let graph = LineageGraph::from_edges(vec![edge(1, 2), edge(2, 3), edge(3, 4)]);
    let chain = graph.conversion_chain(&hash(1), &hash(4)).expect("connected");
    assert_eq!(
        endpoints(&chain),
        vec![
            (hash(1).to_hex(), hash(2).to_hex()),
            (hash(2).to_hex(), hash(3).to_hex()),
            (hash(3).to_hex(), hash(4).to_hex()),
        ]
    );
    assert!(graph.conversion_chain(&hash(2), &hash(2)).expect("equal").is_empty());
    assert!(graph.conversion_chain(&hash(4), &hash(1)).is_none());
}

#[test]
fn rename_self_loops_lie_on_no_conversion_path() {
    let graph = LineageGraph::from_edges(vec![edge(1, 1), edge(1, 2)]);
    let chain = graph.conversion_chain(&hash(1), &hash(2)).expect("connected");
    assert_eq!(endpoints(&chain), vec![(hash(1).to_hex(), hash(2).to_hex())]);
    let only_loop = LineageGraph::from_edges(vec![edge(5, 5)]);
    assert!(only_loop.conversion_chain(&hash(5), &hash(6)).is_none());
}

#[test]
fn branches_meet_at_their_common_ancestor() {
    let graph = LineageGraph::from_edges(vec![edge(1, 2), edge(2, 3), edge(2, 4), edge(4, 5)]);
    assert_eq!(graph.common_ancestor(&hash(3), &hash(5)).map(|h| h.to_hex()), Some(hash(2).to_hex()));
    assert_eq!(graph.common_ancestor(&hash(5), &hash(4)).map(|h| h.to_hex()), Some(hash(4).to_hex()));
    assert_eq!(graph.common_ancestor(&hash(3), &hash(3)).map(|h| h.to_hex()), Some(hash(3).to_hex()));
    let split = LineageGraph::from_edges(vec![edge(1, 2), edge(7, 8)]);
    assert!(split.common_ancestor(&hash(2), &hash(8)).is_none());
}

#[test]
fn the_conversion_chain_takes_the_shortest_path() {
    // A long way round listed first, and a shortcut listed last.
    let graph = LineageGraph::from_edges(vec![edge(1, 2), edge(2, 3), edge(3, 4), edge(1, 4)]);
    let chain = graph.conversion_chain(&hash(1), &hash(4)).expect("connected");
    assert_eq!(endpoints(&chain), vec![(hash(1).to_hex(), hash(4).to_hex())]);
}

#[test]
fn the_common_ancestor_is_the_nearest_one() {
    // 1 -> 2 -> 3 and 2 -> 4: both 1 and 2 are common ancestors of 3 and 4;
    // 2 is nearer.
    let graph = LineageGraph::from_edges(vec![edge(1, 2), edge(2, 3), edge(2, 4)]);
    assert_eq!(graph.common_ancestor(&hash(3), &hash(4)).map(|h| h.to_hex()), Some(hash(2).to_hex()));
}

#[test]
fn repeated_edges_change_no_walk() {
    let once = LineageGraph::from_edges(vec![edge(1, 2), edge(2, 3)]);
    let twice = LineageGraph::from_edges(vec![edge(1, 2), edge(2, 3), edge(2, 3), edge(1, 2)]);
    assert_eq!(
        endpoints(&once.conversion_chain(&hash(1), &hash(3)).expect("connected")),
        endpoints(&twice.conversion_chain(&hash(1), &hash(3)).expect("connected"))
    );
    assert!(twice.conversion_chain(&hash(3), &hash(1)).is_none());
}

#[test]
fn building_keeps_the_first_occurrence_order() {
    let graph = LineageGraph::from_edges(vec![edge(2, 3), edge(1, 2), edge(2, 3)]);
    let order: Vec<(String, String)> = graph
        .edges()
        .iter()
        .map(|e| (e.parent_core_hash.to_hex(), e.child_core_hash.to_hex()))
        .collect();
    assert_eq!(order, vec![(hash(2).to_hex(), hash(3).to_hex()), (hash(1).to_hex(), hash(2).to_hex())]);
}
