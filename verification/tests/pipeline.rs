use pbfextractor::dedup_and_filter;
use pbfextractor::dedup_edges;
use pbfextractor::dominance_filter;
use pbfextractor::sort_edges;
use pbfextractor::EdgeInfo;
use pbfextractor::ExtractError;
use pbfextractor::Loader;
use pbfextractor::MapObject;
use pbfextractor::MemberKind;
use pbfextractor::TagMap;
use pbfextractor::UnresolvedEdge;

fn tags(pairs: &[(&str, &str)]) -> TagMap {
    let mut t = TagMap::new();
    for (k, v) in pairs {
        t.push(k.to_string(), v.to_string());
    }
    t
}

fn loader() -> Loader {
    Loader::new(String::new(), String::new())
}

fn edge(source: usize, dest: usize, length: u64, height: u64, unsuitability: u64) -> EdgeInfo {
    EdgeInfo::new(source, dest, length, height, unsuitability)
}

#[test]
fn process_way_emits_both_directions() {
    let l = loader();
    let mut edges: Vec<UnresolvedEdge> = Vec::new();
    l.process_way(&vec![1, 2, 3], &tags(&[("highway", "residential")]), &mut edges, false);
    assert_eq!(edges.len(), 4);
    assert_eq!((edges[0].source, edges[0].dest), (1, 2));
    assert_eq!((edges[1].source, edges[1].dest), (2, 1));
    assert_eq!((edges[2].source, edges[2].dest), (2, 3));
    assert_eq!((edges[3].source, edges[3].dest), (3, 2));
    for e in &edges {
        assert_eq!(e.unsuitability, 2000);
    }
}

#[test]
fn process_way_one_way_emits_single_direction() {
    let l = loader();
    let mut edges: Vec<UnresolvedEdge> = Vec::new();
    l.process_way(
        &vec![1, 2, 3],
        &tags(&[("highway", "residential"), ("oneway", "yes")]),
        &mut edges,
        false,
    );
    assert_eq!(edges.len(), 2);
    assert_eq!((edges[0].source, edges[0].dest), (1, 2));
    assert_eq!((edges[1].source, edges[1].dest), (2, 3));
}

/// A three-node residential way with elevations 0, 10 and 5 meters yields
/// four directed candidates with elevation gains 10, 0, 0 and 5 meters and
/// unsuitability 2.0 each, and the filter removes none of them.
#[test]
fn three_node_way_end_to_end() {
    let l = loader();
    let objects = vec![
        MapObject::Node { osm_id: 1, lat: 0, long: 0, height: 0 },
        MapObject::Node { osm_id: 2, lat: 100_000, long: 0, height: 10_000 },
        MapObject::Node { osm_id: 3, lat: 200_000, long: 0, height: 5_000 },
        MapObject::Way {
            osm_id: 10,
            nodes: vec![1, 2, 3],
            tags: tags(&[("highway", "residential")]),
        },
    ];
    let (nodes, candidates) = l.collect_graph(&objects);
    assert_eq!(nodes.len(), 3);
    assert_eq!(candidates.len(), 4);
    let mut resolved = l.resolve_edges(&nodes, &candidates).unwrap();
    let expected = [(0usize, 1usize, 10_000u64), (1, 0, 0), (1, 2, 0), (2, 1, 5_000)];
    for (e, (src, dst, gain)) in resolved.iter().zip(expected.iter()) {
        assert_eq!(e.source, *src);
        assert_eq!(e.dest, *dst);
        assert_eq!(e.height, *gain);
        assert_eq!(e.unsuitability, 2000);
    }
    // The host computes geodesic lengths; here every hop gets the same one.
    let lengths = vec![1_113_200_000u64; 4];
    l.attach_lengths(&mut resolved, &lengths);
    assert!(resolved.iter().all(|e| e.length == 1_113_200_000));
    let (surviving, duplicates, dominated) = dedup_and_filter(resolved);
    assert_eq!(surviving.len(), 4);
    assert_eq!(duplicates, 0);
    assert_eq!(dominated, 0);
}

#[test]
fn relation_discount_produces_dominating_parallel_edges() {
    let l = loader();
    let objects = vec![
        MapObject::Node { osm_id: 1, lat: 0, long: 0, height: 0 },
        MapObject::Node { osm_id: 2, lat: 100_000, long: 0, height: 0 },
        MapObject::Way {
            osm_id: 10,
            nodes: vec![1, 2],
            tags: tags(&[("highway", "residential")]),
        },
        MapObject::Relation {
            tags: tags(&[("route", "bicycle")]),
            members: vec![(MemberKind::Way, 10)],
        },
    ];
    let (nodes, candidates) = l.collect_graph(&objects);
    // The way once on its own, once through the relation.
    assert_eq!(candidates.len(), 4);
    assert_eq!(candidates[0].unsuitability, 2000);
    assert_eq!(candidates[2].unsuitability, 1000);
    let mut resolved = l.resolve_edges(&nodes, &candidates).unwrap();
    let lengths = vec![1_113_200_000u64; 4];
    l.attach_lengths(&mut resolved, &lengths);
    let (surviving, duplicates, dominated) = dedup_and_filter(resolved);
    // Per direction the discounted edge dominates the plain one.
    assert_eq!(duplicates, 0);
    assert_eq!(dominated, 2);
    assert_eq!(surviving.len(), 2);
    assert!(surviving.iter().all(|e| e.unsuitability == 1000));
}

#[test]
fn relation_member_that_is_no_way_is_skipped() {
    let l = loader();
    let objects = vec![
        MapObject::Node { osm_id: 1, lat: 0, long: 0, height: 0 },
        MapObject::Relation {
            tags: tags(&[("route", "bicycle")]),
            members: vec![(MemberKind::Node, 1), (MemberKind::Way, 77)],
        },
    ];
    let (nodes, candidates) = l.collect_graph(&objects);
    assert_eq!(nodes.len(), 1);
    assert!(candidates.is_empty());
}

#[test]
fn excluded_way_emits_nothing() {
    let l = loader();
    let objects = vec![
        MapObject::Node { osm_id: 1, lat: 0, long: 0, height: 0 },
        MapObject::Node { osm_id: 2, lat: 100_000, long: 0, height: 0 },
        MapObject::Way { osm_id: 10, nodes: vec![1, 2], tags: tags(&[("highway", "motorway")]) },
    ];
    let (_, candidates) = l.collect_graph(&objects);
    assert!(candidates.is_empty());
}

#[test]
fn dangling_edge_reference_is_fatal() {
    let l = loader();
    let nodes = vec![pbfextractor::NodeInfo::new(1, 0, 0, 0)];
    let candidates = vec![UnresolvedEdge { source: 1, dest: 99, unsuitability: 2000 }];
    let r = l.resolve_edges(&nodes, &candidates);
    assert_eq!(r.unwrap_err(), ExtractError::DanglingEdgeReference(99));
}

#[test]
fn sort_orders_by_all_five_fields() {
    let mut edges = vec![
        edge(1, 0, 5, 5, 5),
        edge(0, 1, 9, 9, 9),
        edge(0, 1, 9, 9, 2),
        edge(0, 1, 9, 3, 2),
        edge(0, 1, 4, 3, 2),
        edge(0, 0, 1, 1, 1),
    ];
    sort_edges(&mut edges);
    assert_eq!(
        edges,
        vec![
            edge(0, 0, 1, 1, 1),
            edge(0, 1, 4, 3, 2),
            edge(0, 1, 9, 3, 2),
            edge(0, 1, 9, 9, 2),
            edge(0, 1, 9, 9, 9),
            edge(1, 0, 5, 5, 5),
        ]
    );
}

#[test]
fn dedup_removes_exact_duplicates_only() {
    let e1 = edge(0, 1, 10, 0, 2000);
    let e2 = edge(0, 1, 10, 0, 2000);
    let e3 = edge(0, 1, 11, 0, 2000);
    let deduped = dedup_edges(&vec![e1, e2, e3]);
    assert_eq!(deduped, vec![e1, e3]);
}

/// Of three parallel edges, one componentwise no worse than another removes
/// the worse one; the unrelated edge survives.
#[test]
fn dominated_parallel_edge_is_removed() {
    let better = edge(0, 1, 10, 5, 1000);
    let worse = edge(0, 1, 12, 5, 2000);
    let other = edge(0, 2, 1, 1, 500);
    let (surviving, duplicates, dominated) = dedup_and_filter(vec![worse, other, better]);
    assert_eq!(duplicates, 0);
    assert_eq!(dominated, 1);
    assert_eq!(surviving, vec![better, other]);
}

#[test]
fn incomparable_parallel_edges_both_survive() {
    let flat_but_long = edge(0, 1, 20, 0, 2000);
    let short_but_steep = edge(0, 1, 10, 9, 2000);
    let (surviving, _, dominated) = dedup_and_filter(vec![flat_but_long, short_but_steep]);
    assert_eq!(dominated, 0);
    assert_eq!(surviving.len(), 2);
}

#[test]
fn filter_of_two_edge_groups_is_idempotent() {
    let a = edge(0, 1, 10, 5, 1000);
    let b = edge(0, 1, 12, 6, 2000);
    let c = edge(2, 3, 7, 7, 700);
    let (once, _, _) = dedup_and_filter(vec![b, c, a]);
    let (twice, duplicates, dominated) = dedup_and_filter(once.clone());
    assert_eq!(duplicates, 0);
    assert_eq!(dominated, 0);
    assert_eq!(once, twice);
}

#[test]
fn node_record_fields() {
    let n = pbfextractor::NodeInfo::new(42, 473_500_000, 91_200_000, 250_000);
    assert_eq!(n.osm_id, 42);
    assert_eq!(n.lat, 473_500_000);
    assert_eq!(n.long, 91_200_000);
    assert_eq!(n.height, 250_000);
}
