//! Node resolution and the geometry pass: external node identifiers are
//! rewritten to dense indices and per-edge elevation gain is computed; the
//! host supplies geodesic lengths, which are attached afterwards.

use vstd::prelude::*;

use std::collections::HashMap;

use crate::pbf::EdgeInfo;
use crate::pbf::Loader;
use crate::pbf::NodeInfo;
use crate::pbf::UnresolvedEdge;

verus! {

/// A fatal structural fault of the input data.
#[derive(Clone, Copy, PartialEq, Eq, Structural, Debug)]
pub enum ExtractError {
    /// An edge endpoint that no node record resolves: the carried value is
    /// the unresolvable external identifier.
    DanglingEdgeReference(u64),
}

/// The dense index a node identifier resolves to: the position of the last
/// record with that external identifier, as a later record overrides an
/// earlier one.
pub open spec fn spec_node_index(nodes: Seq<NodeInfo>, id: u64) -> Option<int>
    decreases nodes.len(),
{
    if nodes.len() == 0 {
        None
    } else if nodes.last().osm_id == id {
        Some(nodes.len() - 1)
    } else {
        spec_node_index(nodes.drop_last(), id)
    }
}

/// The elevation gain from `src` to `dst` in millimeters: the height
/// difference when climbing, zero otherwise.
pub open spec fn spec_gain(src: NodeInfo, dst: NodeInfo) -> int {
    if dst.height > src.height {
        dst.height - src.height
    } else {
        0
    }
}

/// The resolved form of one edge candidate: endpoints rewritten to dense
/// indices and elevation gain computed, with the length still to be
/// attached; `None` when an endpoint does not resolve.
pub open spec fn spec_resolve_edge(nodes: Seq<NodeInfo>, e: UnresolvedEdge) -> Option<EdgeInfo> {
    match (spec_node_index(nodes, e.source), spec_node_index(nodes, e.dest)) {
        (Option::Some(si), Option::Some(di)) => Some(
            EdgeInfo {
                source: si as usize,
                dest: di as usize,
                length: 0,
                height: spec_gain(nodes[si], nodes[di]) as u64,
                unsuitability: e.unsuitability,
            },
        ),
        _ => None,
    }
}

/// The first unresolvable endpoint in scan order (source before
/// destination), if any.
pub open spec fn spec_first_dangling(nodes: Seq<NodeInfo>, edges: Seq<UnresolvedEdge>) -> Option<
    u64,
>
    decreases edges.len(),
{
    if edges.len() == 0 {
        None
    } else if spec_node_index(nodes, edges[0].source) is None {
        Some(edges[0].source)
    } else if spec_node_index(nodes, edges[0].dest) is None {
        Some(edges[0].dest)
    } else {
        spec_first_dangling(nodes, edges.drop_first())
    }
}

/// The identifier-to-index mapping that one pass over the node records
/// builds, a later record overriding an earlier one.
pub open spec fn spec_index_map(nodes: Seq<NodeInfo>) -> Map<u64, usize>
    decreases nodes.len(),
{
    if nodes.len() == 0 {
        Map::empty()
    } else {
        spec_index_map(nodes.drop_last()).insert(nodes.last().osm_id, (nodes.len() - 1) as usize)
    }
}

proof fn lemma_index_map_correct(nodes: Seq<NodeInfo>, id: u64)
    ensures
        spec_index_map(nodes).contains_key(id) <==> spec_node_index(nodes, id) is Some,
        spec_node_index(nodes, id) matches Some(i) ==> 0 <= i < nodes.len() && nodes[i].osm_id
            == id && spec_index_map(nodes)[id] == i as usize,
    decreases nodes.len(),
{
    if nodes.len() > 0 {
        lemma_index_map_correct(nodes.drop_last(), id);
    }
}

impl Loader {
    /// Rewrites every edge candidate's endpoints to dense node indices and
    /// computes its elevation gain; an endpoint no node record resolves is a
    /// fatal data error. Lengths are left at zero until the host's geodesic
    /// distances are attached.
    pub fn resolve_edges(&self, nodes: &Vec<NodeInfo>, edges: &Vec<UnresolvedEdge>) -> (r: Result<
        Vec<EdgeInfo>,
        ExtractError,
    >)
        ensures
            match r {
                Ok(v) => {
                    &&& spec_first_dangling(nodes@, edges@) is None
                    &&& v@.len() == edges@.len()
                    &&& forall|i: int|
                        0 <= i < edges@.len() ==> Some(#[trigger] v@[i]) == spec_resolve_edge(
                            nodes@,
                            edges@[i],
                        )
                    &&& forall|i: int|
                        0 <= i < v@.len() ==> (#[trigger] v@[i]).source < nodes@.len()
                            && v@[i].dest < nodes@.len()
                },
                Err(e) => {
                    &&& e matches ExtractError::DanglingEdgeReference(id)
                    &&& spec_first_dangling(nodes@, edges@) == Some(id)
                },
            },
    {
        let node_count = nodes.len();
        let mut index_map: HashMap<u64, usize> = HashMap::new();
        proof {
            assert(nodes@.take(0) =~= Seq::<NodeInfo>::empty());
        }
        for i in 0..node_count
            invariant
                node_count == nodes@.len(),
                index_map@ == spec_index_map(nodes@.take(i as int)),
        {
            index_map.insert(nodes[i].osm_id, i);
            proof {
                assert(nodes@.take(i + 1).drop_last() =~= nodes@.take(i as int));
                assert(nodes@.take(i + 1).last() == nodes@[i as int]);
            }
        }
        proof {
            assert(nodes@.take(node_count as int) =~= nodes@);
        }
        let edge_count = edges.len();
        let mut resolved: Vec<EdgeInfo> = Vec::new();
        proof {
            assert(edges@.skip(0) =~= edges@);
        }
        for k in 0..edge_count
            invariant
                edge_count == edges@.len(),
                node_count == nodes@.len(),
                index_map@ == spec_index_map(nodes@),
                resolved@.len() == k,
                forall|i: int|
                    0 <= i < k ==> Some(#[trigger] resolved@[i]) == spec_resolve_edge(
                        nodes@,
                        edges@[i],
                    ),
                forall|i: int|
                    0 <= i < k ==> (#[trigger] resolved@[i]).source < nodes@.len()
                        && resolved@[i].dest < nodes@.len(),
                spec_first_dangling(nodes@, edges@) == spec_first_dangling(
                    nodes@,
                    edges@.skip(k as int),
                ),
        {
            let e = edges[k];
            proof {
                lemma_index_map_correct(nodes@, e.source);
                lemma_index_map_correct(nodes@, e.dest);
                assert(edges@.skip(k as int)[0] == edges@[k as int]);
                assert(edges@.skip(k as int).drop_first() =~= edges@.skip(k + 1));
            }
            let si: usize = match index_map.get(&e.source) {
                Some(i) => *i,
                None => {
                    return Err(ExtractError::DanglingEdgeReference(e.source));
                },
            };
            let di: usize = match index_map.get(&e.dest) {
                Some(i) => *i,
                None => {
                    return Err(ExtractError::DanglingEdgeReference(e.dest));
                },
            };
            proof {
                assert(index_map@.contains_key(e.source));
                assert(index_map@.contains_key(e.dest));
                assert(index_map@[e.source] == si);
                assert(index_map@[e.dest] == di);
                assert(si == spec_node_index(nodes@, e.source)->Some_0);
                assert(di == spec_node_index(nodes@, e.dest)->Some_0);
            }
            let source_height = nodes[si].height;
            let dest_height = nodes[di].height;
            let dh: i128 = dest_height as i128 - source_height as i128;
            let gain: u64 = if dh > 0 {
                dh as u64
            } else {
                0
            };
            resolved.push(
                EdgeInfo {
                    source: si,
                    dest: di,
                    length: 0,
                    height: gain,
                    unsuitability: e.unsuitability,
                },
            );
        }
        proof {
            assert(edges@.skip(edge_count as int) =~= Seq::<UnresolvedEdge>::empty());
        }
        Ok(resolved)
    }

    /// Attaches the host-computed geodesic length of each resolved edge, in
    /// millimeters, leaving every other field unchanged.
    pub fn attach_lengths(&self, edges: &mut Vec<EdgeInfo>, lengths: &Vec<u64>)
        requires
            old(edges)@.len() == lengths@.len(),
        ensures
            final(edges)@.len() == old(edges)@.len(),
            forall|i: int|
                0 <= i < old(edges)@.len() ==> #[trigger] final(edges)@[i] == (EdgeInfo {
                    source: old(edges)@[i].source,
                    dest: old(edges)@[i].dest,
                    length: lengths@[i],
                    height: old(edges)@[i].height,
                    unsuitability: old(edges)@[i].unsuitability,
                }),
    {
        let n = edges.len();
        for i in 0..n
            invariant
                n == edges@.len(),
                n == old(edges)@.len(),
                n == lengths@.len(),
                forall|j: int| i <= j < n ==> #[trigger] edges@[j] == old(edges)@[j],
                forall|j: int|
                    0 <= j < i ==> #[trigger] edges@[j] == (EdgeInfo {
                        source: old(edges)@[j].source,
                        dest: old(edges)@[j].dest,
                        length: lengths@[j],
                        height: old(edges)@[j].height,
                        unsuitability: old(edges)@[j].unsuitability,
                    }),
        {
            let mut e = edges[i];
            e.length = lengths[i];
            edges.set(i, e);
        }
    }
}

} // verus!
