//! Graph extraction: node records, edge candidates, and the tag rules that
//! turn ways and relations into directed edge candidates.

use vstd::prelude::*;

use crate::tags::spec_get;
use crate::tags::str_eq;
use crate::tags::TagMap;

verus! {

/// A node of the extracted graph.
///
/// `lat` and `long` are in decimicro-degrees (ten-millionths of a degree);
/// `height` is in millimeters above sea level.
pub struct NodeInfo {
    pub osm_id: u64,
    pub lat: i64,
    pub long: i64,
    pub height: i64,
}

impl NodeInfo {
    pub fn new(osm_id: u64, lat: i64, long: i64, height: i64) -> (r: NodeInfo)
        ensures
            r.osm_id == osm_id,
            r.lat == lat,
            r.long == long,
            r.height == height,
    {
        NodeInfo { osm_id, lat, long, height }
    }
}

/// A directed edge candidate before node resolution: endpoints are external
/// node identifiers, geometry is not yet computed. `unsuitability` is in
/// thousandths (a score of 2.0 is stored as 2000).
#[derive(Clone, Copy, PartialEq, Eq, Structural, Debug)]
pub struct UnresolvedEdge {
    pub source: u64,
    pub dest: u64,
    pub unsuitability: u64,
}

/// A directed edge after node resolution: endpoints are dense node indices,
/// `length` is in millimeters, `height` is the elevation gain in millimeters,
/// and `unsuitability` is in thousandths.
#[derive(Clone, Copy, PartialEq, Eq, Structural, Debug)]
pub struct EdgeInfo {
    pub source: usize,
    pub dest: usize,
    pub length: u64,
    pub height: u64,
    pub unsuitability: u64,
}

impl EdgeInfo {
    pub fn new(source: usize, dest: usize, length: u64, height: u64, unsuitability: u64) -> (r:
        EdgeInfo)
        ensures
            r == (EdgeInfo { source, dest, length, height, unsuitability }),
    {
        EdgeInfo { source, dest, length, height, unsuitability }
    }
}

/// Whether the tags mark the way as explicitly bicycle-friendly: a cycleway
/// tag is present, or a bicycle-access tag is present and not "no".
pub open spec fn spec_bicycle_friendly(t: Seq<(Seq<char>, Seq<char>)>) -> bool {
    spec_get(t, "cycleway"@) is Some || (spec_get(t, "bicycle"@) is Some && spec_get(
        t,
        "bicycle"@,
    ) != Some("no"@))
}

/// The unsuitability score of a road class, in thousandths; an unmatched or
/// absent road class is maximally unsuitable.
pub open spec fn spec_street_unsuitability(street: Option<Seq<char>>) -> int {
    match street {
        Option::None => 6000,
        Option::Some(s) => if s == "primary"@ || s == "primary_link"@ {
            5000
        } else if s == "secondary"@ || s == "secondary_link"@ {
            4000
        } else if s == "tertiary"@ || s == "tertiary_link"@ || s == "road"@ || s == "bridleway"@ {
            3000
        } else if s == "unclassified"@ || s == "residential"@ || s == "traffic_island"@ {
            2000
        } else if s == "living_street"@ || s == "service"@ || s == "track"@ || s == "platform"@ || s
            == "pedestrian"@ || s == "path"@ || s == "footway"@ {
            1000
        } else if s == "cycleway"@ {
            500
        } else {
            6000
        },
    }
}

/// The cycling-unsuitability score of a way before any relation discount,
/// in thousandths.
pub open spec fn spec_base_unsuitability(t: Seq<(Seq<char>, Seq<char>)>) -> int {
    if spec_bicycle_friendly(t) {
        500
    } else if spec_get(t, "sidewalk"@) == Some("yes"@) {
        1000
    } else {
        spec_street_unsuitability(spec_get(t, "highway"@))
    }
}

/// The cycling-unsuitability score of a way, halved when scored in the
/// context of a tagged bicycle route relation.
pub open spec fn spec_unsuitability(t: Seq<(Seq<char>, Seq<char>)>, bicycle_relation: bool) -> int {
    if bicycle_relation {
        spec_base_unsuitability(t) / 2
    } else {
        spec_base_unsuitability(t)
    }
}

/// How an explicit oneway tag value reads: affirmative values parse to true,
/// negative ones to false, anything else does not parse.
pub open spec fn spec_parse_bool_tag(s: Seq<char>) -> Option<bool> {
    if s == "yes"@ || s == "true"@ || s == "1"@ {
        Some(true)
    } else if s == "no"@ || s == "false"@ || s == "0"@ {
        Some(false)
    } else {
        None
    }
}

/// Whether the way is one-way: an explicit oneway tag that parses decides;
/// otherwise a motorway road class is one-way by default.
pub open spec fn spec_is_one_way(t: Seq<(Seq<char>, Seq<char>)>) -> bool {
    match spec_get(t, "oneway"@) {
        Option::Some(v) => match spec_parse_bool_tag(v) {
            Option::Some(b) => b,
            Option::None => spec_get(t, "highway"@) == Some("motorway"@),
        },
        Option::None => spec_get(t, "highway"@) == Some("motorway"@),
    }
}

/// Whether the road class excludes bicycles when no tag grants access.
pub open spec fn spec_street_excluded(street: Option<Seq<char>>) -> bool {
    match street {
        Option::None => false,
        Option::Some(s) => s == "motorway"@ || s == "motorway_link"@ || s == "trunk"@ || s
            == "trunk_link"@ || s == "proposed"@ || s == "steps"@ || s == "elevator"@ || s
            == "corridor"@ || s == "raceway"@ || s == "rest_area"@ || s == "construction"@,
    }
}

/// Whether the way is unusable by bicycle: explicit denial excludes it,
/// explicit bicycle-friendliness or a usable sidewalk includes it, otherwise
/// the road class decides.
pub open spec fn spec_is_not_for_bicycle(t: Seq<(Seq<char>, Seq<char>)>) -> bool {
    if spec_get(t, "bicycle"@) == Some("no"@) {
        true
    } else if spec_bicycle_friendly(t) {
        false
    } else if match spec_get(t, "sidewalk"@) {
        Option::Some(s) => s != "no"@,
        Option::None => false,
    } {
        false
    } else {
        spec_street_excluded(spec_get(t, "highway"@))
    }
}

/// The one or two edge candidates emitted for one consecutive node pair.
pub open spec fn spec_pair_edges(a: u64, b: u64, u: u64, one_way: bool) -> Seq<UnresolvedEdge> {
    if one_way {
        seq![UnresolvedEdge { source: a, dest: b, unsuitability: u }]
    } else {
        seq![
            UnresolvedEdge { source: a, dest: b, unsuitability: u },
            UnresolvedEdge { source: b, dest: a, unsuitability: u },
        ]
    }
}

/// All edge candidates emitted for a way's node sequence, in emission order.
pub open spec fn spec_way_edges(nodes: Seq<u64>, u: u64, one_way: bool) -> Seq<UnresolvedEdge>
    decreases nodes.len(),
{
    if nodes.len() < 2 {
        Seq::empty()
    } else {
        spec_pair_edges(nodes[0], nodes[1], u, one_way) + spec_way_edges(
            nodes.drop_first(),
            u,
            one_way,
        )
    }
}

/// UNSUITABILITY SCORES. For every tag combination the pre-discount score
/// is one of the seven scale values, the undiscounted score is the base
/// score, and the relation discount halves it exactly.
pub proof fn lemma_unsuitability_scores(t: Seq<(Seq<char>, Seq<char>)>)
    ensures
        spec_base_unsuitability(t) == 500 || spec_base_unsuitability(t) == 1000
            || spec_base_unsuitability(t) == 2000 || spec_base_unsuitability(t) == 3000
            || spec_base_unsuitability(t) == 4000 || spec_base_unsuitability(t) == 5000
            || spec_base_unsuitability(t) == 6000,
        spec_unsuitability(t, false) == spec_base_unsuitability(t),
        2 * spec_unsuitability(t, true) == spec_base_unsuitability(t),
{
}

/// ONE-WAY INFERENCE. An affirmative oneway tag makes the way one-way and a
/// negative one makes it bidirectional, whatever the road class; with no
/// readable oneway tag, exactly the motorway road class is one-way.
pub proof fn lemma_one_way_inference(t: Seq<(Seq<char>, Seq<char>)>)
    ensures
        (spec_get(t, "oneway"@) matches Some(v) && spec_parse_bool_tag(v) == Some(true))
            ==> spec_is_one_way(t),
        (spec_get(t, "oneway"@) matches Some(v) && spec_parse_bool_tag(v) == Some(false))
            ==> !spec_is_one_way(t),
        ((spec_get(t, "oneway"@) matches Some(v) ==> spec_parse_bool_tag(v) is None) && spec_get(
            t,
            "highway"@,
        ) == Some("motorway"@)) ==> spec_is_one_way(t),
        ((spec_get(t, "oneway"@) matches Some(v) ==> spec_parse_bool_tag(v) is None) && spec_get(
            t,
            "highway"@,
        ) != Some("motorway"@)) ==> !spec_is_one_way(t),
{
}

/// EDGE EMISSION COUNT. A way with fewer than two nodes emits nothing; a
/// one-way way emits one candidate per consecutive node pair, a
/// bidirectional one emits two.
pub proof fn lemma_way_edges_len(nodes: Seq<u64>, u: u64, one_way: bool)
    ensures
        nodes.len() < 2 ==> spec_way_edges(nodes, u, one_way).len() == 0,
        nodes.len() >= 2 && one_way ==> spec_way_edges(nodes, u, one_way).len() == nodes.len() - 1,
        nodes.len() >= 2 && !one_way ==> spec_way_edges(nodes, u, one_way).len() == 2 * (nodes.len()
            - 1),
    decreases nodes.len(),
{
    if nodes.len() >= 2 {
        lemma_way_edges_len(nodes.drop_first(), u, one_way);
    }
}

proof fn lemma_way_edges_snoc(nodes: Seq<u64>, u: u64, one_way: bool, x: u64)
    requires
        nodes.len() >= 1,
    ensures
        spec_way_edges(nodes.push(x), u, one_way) == spec_way_edges(nodes, u, one_way)
            + spec_pair_edges(nodes.last(), x, u, one_way),
    decreases nodes.len(),
{
    if nodes.len() == 1 {
        assert(spec_way_edges(nodes.push(x).drop_first(), u, one_way) == Seq::<
            UnresolvedEdge,
        >::empty());
        assert(spec_way_edges(nodes.push(x), u, one_way) =~= spec_way_edges(nodes, u, one_way)
            + spec_pair_edges(nodes.last(), x, u, one_way));
    } else {
        assert(nodes.push(x).drop_first() =~= nodes.drop_first().push(x));
        lemma_way_edges_snoc(nodes.drop_first(), u, one_way, x);
        assert(spec_way_edges(nodes.push(x), u, one_way) =~= spec_way_edges(nodes, u, one_way)
            + spec_pair_edges(nodes.last(), x, u, one_way));
    }
}

/// What kind of object a relation member references.
#[derive(Clone, Copy, PartialEq, Eq, Structural, Debug)]
pub enum MemberKind {
    Node,
    Way,
    Relation,
}

/// A decoded map object, as handed in by the external decoder. Node heights
/// are sampled by the host before collection, since tile lookup is file
/// bound.
pub enum MapObject {
    Node { osm_id: u64, lat: i64, long: i64, height: i64 },
    Way { osm_id: u64, nodes: Vec<u64>, tags: TagMap },
    Relation { tags: TagMap, members: Vec<(MemberKind, u64)> },
}

/// The first way in `objs` with external identifier `id`, if any.
pub open spec fn spec_find_way(objs: Seq<MapObject>, id: u64) -> Option<MapObject>
    decreases objs.len(),
{
    if objs.len() == 0 {
        None
    } else if objs[0] matches MapObject::Way { osm_id, .. } && osm_id == id {
        Some(objs[0])
    } else {
        spec_find_way(objs.drop_first(), id)
    }
}

/// The node record a decoded object contributes: one for a node object,
/// none otherwise.
pub open spec fn spec_node_of(o: MapObject) -> Seq<NodeInfo> {
    match o {
        MapObject::Node { osm_id, lat, long, height } => seq![
            NodeInfo { osm_id, lat, long, height },
        ],
        _ => Seq::empty(),
    }
}

/// The edge candidates one relation member contributes: those of the
/// referenced way, scored with the relation discount, when the member is a
/// way present among the decoded objects.
pub open spec fn spec_member_edges(all: Seq<MapObject>, m: (MemberKind, u64)) -> Seq<
    UnresolvedEdge,
> {
    if m.0 == MemberKind::Way {
        match spec_find_way(all, m.1) {
            Option::Some(MapObject::Way { nodes, tags, .. }) => spec_way_edges(
                nodes@,
                spec_unsuitability(tags@, true) as u64,
                spec_is_one_way(tags@),
            ),
            _ => Seq::empty(),
        }
    } else {
        Seq::empty()
    }
}

/// The edge candidates of a bicycle route relation: the discounted
/// candidates of every way it references, in member order.
pub open spec fn spec_relation_edges(all: Seq<MapObject>, members: Seq<(MemberKind, u64)>) -> Seq<
    UnresolvedEdge,
>
    decreases members.len(),
{
    if members.len() == 0 {
        Seq::empty()
    } else {
        spec_member_edges(all, members[0]) + spec_relation_edges(all, members.drop_first())
    }
}

/// The edge candidates a decoded object contributes: a bicycle-usable way
/// contributes its own candidates; a bicycle route relation contributes the
/// discounted candidates of every way it references.
pub open spec fn spec_edges_of(all: Seq<MapObject>, o: MapObject) -> Seq<UnresolvedEdge> {
    match o {
        MapObject::Node { .. } => Seq::empty(),
        MapObject::Way { nodes, tags, .. } => if !spec_is_not_for_bicycle(tags@) {
            spec_way_edges(nodes@, spec_unsuitability(tags@, false) as u64, spec_is_one_way(tags@))
        } else {
            Seq::empty()
        },
        MapObject::Relation { tags, members } => if spec_get(tags@, "route"@) == Some("bicycle"@) {
            spec_relation_edges(all, members@)
        } else {
            Seq::empty()
        },
    }
}

/// The node records of all decoded objects, in input order.
pub open spec fn spec_collect_nodes(objs: Seq<MapObject>) -> Seq<NodeInfo>
    decreases objs.len(),
{
    if objs.len() == 0 {
        Seq::empty()
    } else {
        spec_node_of(objs[0]) + spec_collect_nodes(objs.drop_first())
    }
}

/// The edge candidates of all decoded objects, in input order; way lookups
/// for relation members search the whole object list `all`.
pub open spec fn spec_collect_edges(all: Seq<MapObject>, objs: Seq<MapObject>) -> Seq<
    UnresolvedEdge,
>
    decreases objs.len(),
{
    if objs.len() == 0 {
        Seq::empty()
    } else {
        spec_edges_of(all, objs[0]) + spec_collect_edges(all, objs.drop_first())
    }
}

proof fn lemma_relation_edges_snoc(all: Seq<MapObject>, members: Seq<(MemberKind, u64)>, x: (
    MemberKind,
    u64,
))
    ensures
        spec_relation_edges(all, members.push(x)) == spec_relation_edges(all, members)
            + spec_member_edges(all, x),
    decreases members.len(),
{
    if members.len() == 0 {
        assert(members.push(x).drop_first() =~= members);
        assert(spec_relation_edges(all, members.push(x)) =~= spec_relation_edges(all, members)
            + spec_member_edges(all, x));
    } else {
        assert(members.push(x).drop_first() =~= members.drop_first().push(x));
        lemma_relation_edges_snoc(all, members.drop_first(), x);
        assert(spec_relation_edges(all, members.push(x)) =~= spec_relation_edges(all, members)
            + spec_member_edges(all, x));
    }
}

proof fn lemma_collect_nodes_snoc(objs: Seq<MapObject>, x: MapObject)
    ensures
        spec_collect_nodes(objs.push(x)) == spec_collect_nodes(objs) + spec_node_of(x),
    decreases objs.len(),
{
    if objs.len() == 0 {
        assert(objs.push(x).drop_first() =~= objs);
        assert(spec_collect_nodes(objs.push(x)) =~= spec_collect_nodes(objs) + spec_node_of(x));
    } else {
        assert(objs.push(x).drop_first() =~= objs.drop_first().push(x));
        lemma_collect_nodes_snoc(objs.drop_first(), x);
        assert(spec_collect_nodes(objs.push(x)) =~= spec_collect_nodes(objs) + spec_node_of(x));
    }
}

proof fn lemma_collect_edges_snoc(all: Seq<MapObject>, objs: Seq<MapObject>, x: MapObject)
    ensures
        spec_collect_edges(all, objs.push(x)) == spec_collect_edges(all, objs) + spec_edges_of(
            all,
            x,
        ),
    decreases objs.len(),
{
    if objs.len() == 0 {
        assert(objs.push(x).drop_first() =~= objs);
        assert(spec_collect_edges(all, objs.push(x)) =~= spec_collect_edges(all, objs)
            + spec_edges_of(all, x));
    } else {
        assert(objs.push(x).drop_first() =~= objs.drop_first().push(x));
        lemma_collect_edges_snoc(all, objs.drop_first(), x);
        assert(spec_collect_edges(all, objs.push(x)) =~= spec_collect_edges(all, objs)
            + spec_edges_of(all, x));
    }
}

proof fn lemma_find_way_is_way(objs: Seq<MapObject>, id: u64)
    ensures
        spec_find_way(objs, id) matches Some(o) ==> (o matches MapObject::Way { osm_id, .. }
            && osm_id == id),
    decreases objs.len(),
{
    if objs.len() != 0 {
        lemma_find_way_is_way(objs.drop_first(), id);
    }
}

/// Finds the first way with external identifier `id`.
fn find_way<'a>(objects: &'a Vec<MapObject>, id: u64) -> (r: Option<&'a MapObject>)
    ensures
        match r {
            Some(o) => spec_find_way(objects@, id) == Some(*o),
            None => spec_find_way(objects@, id) is None,
        },
{
    let n = objects.len();
    proof {
        assert(objects@.skip(0) =~= objects@);
    }
    for i in 0..n
        invariant
            n == objects@.len(),
            spec_find_way(objects@, id) == spec_find_way(objects@.skip(i as int), id),
    {
        proof {
            assert(objects@.skip(i as int).drop_first() =~= objects@.skip(i + 1));
        }
        match &objects[i] {
            MapObject::Way { osm_id, .. } => {
                if *osm_id == id {
                    return Some(&objects[i]);
                }
            },
            _ => {},
        }
    }
    proof {
        assert(objects@.skip(n as int) =~= Seq::<MapObject>::empty());
    }
    None
}

/// The graph extractor. It holds the locations of the map file and of the
/// elevation tiles for the host program; the extraction rules themselves are
/// its methods.
pub struct Loader {
    pub pbf_path: String,
    pub srtm_path: String,
}

impl Loader {
    pub fn new(pbf_path: String, srtm_path: String) -> (r: Loader)
        ensures
            r.pbf_path@ == pbf_path@,
            r.srtm_path@ == srtm_path@,
    {
        Loader { pbf_path, srtm_path }
    }

    /// Scores the cycling unsuitability of a way from its tags, halved when
    /// the way is scored as a member of a bicycle route relation.
    pub fn determine_unsuitability(&self, tags: &TagMap, bicycle_relation: bool) -> (r: u64)
        ensures
            r == spec_unsuitability(tags@, bicycle_relation),
            500 <= spec_base_unsuitability(tags@) <= 6000,
    {
        let friendly = match tags.get("bicycle") {
            Some(v) => !str_eq(v.as_str(), "no"),
            None => false,
        };
        let base: u64 = if tags.contains_key("cycleway") || friendly {
            500
        } else if tags.contains("sidewalk", "yes") {
            1000
        } else {
            match tags.get("highway") {
                Some(v) => {
                    let s = v.as_str();
                    if str_eq(s, "primary") || str_eq(s, "primary_link") {
                        5000
                    } else if str_eq(s, "secondary") || str_eq(s, "secondary_link") {
                        4000
                    } else if str_eq(s, "tertiary") || str_eq(s, "tertiary_link") || str_eq(
                        s,
                        "road",
                    ) || str_eq(s, "bridleway") {
                        3000
                    } else if str_eq(s, "unclassified") || str_eq(s, "residential") || str_eq(
                        s,
                        "traffic_island",
                    ) {
                        2000
                    } else if str_eq(s, "living_street") || str_eq(s, "service") || str_eq(
                        s,
                        "track",
                    ) || str_eq(s, "platform") || str_eq(s, "pedestrian") || str_eq(s, "path")
                        || str_eq(s, "footway") {
                        1000
                    } else if str_eq(s, "cycleway") {
                        500
                    } else {
                        6000
                    }
                },
                None => 6000,
            }
        };
        if bicycle_relation {
            base / 2
        } else {
            base
        }
    }

    /// Decides the directionality of a way from its tags.
    pub fn is_one_way(&self, tags: &TagMap) -> (r: bool)
        ensures
            r == spec_is_one_way(tags@),
    {
        let motorway = tags.contains("highway", "motorway");
        match tags.get("oneway") {
            Some(v) => {
                let s = v.as_str();
                if str_eq(s, "yes") || str_eq(s, "true") || str_eq(s, "1") {
                    true
                } else if str_eq(s, "no") || str_eq(s, "false") || str_eq(s, "0") {
                    false
                } else {
                    motorway
                }
            },
            None => motorway,
        }
    }

    /// Decides whether a way is unusable by bicycle.
    pub fn is_not_for_bicycle(&self, tags: &TagMap) -> (r: bool)
        ensures
            r == spec_is_not_for_bicycle(tags@),
    {
        let bicycle_no = tags.contains("bicycle", "no");
        if bicycle_no {
            return true;
        }
        let friendly = match tags.get("bicycle") {
            Some(v) => !str_eq(v.as_str(), "no"),
            None => false,
        };
        if tags.contains_key("cycleway") || friendly {
            return false;
        }
        let has_side_walk = match tags.get("sidewalk") {
            Some(v) => !str_eq(v.as_str(), "no"),
            None => false,
        };
        if has_side_walk {
            return false;
        }
        match tags.get("highway") {
            Some(v) => {
                let s = v.as_str();
                str_eq(s, "motorway") || str_eq(s, "motorway_link") || str_eq(s, "trunk") || str_eq(
                    s,
                    "trunk_link",
                ) || str_eq(s, "proposed") || str_eq(s, "steps") || str_eq(s, "elevator") || str_eq(
                    s,
                    "corridor",
                ) || str_eq(s, "raceway") || str_eq(s, "rest_area") || str_eq(s, "construction")
            },
            None => false,
        }
    }

    /// Emits the directed edge candidates of one way: one per consecutive
    /// node pair, plus the reverse direction when the way is not one-way,
    /// every candidate carrying the way's unsuitability score.
    pub fn process_way(&self, nodes: &Vec<u64>, tags: &TagMap, edges: &mut Vec<UnresolvedEdge>, bicycle_relation: bool)
        ensures
            final(edges)@ == old(edges)@ + spec_way_edges(
                nodes@,
                spec_unsuitability(tags@, bicycle_relation) as u64,
                spec_is_one_way(tags@),
            ),
    {
        let u = self.determine_unsuitability(tags, bicycle_relation);
        let one_way = self.is_one_way(tags);
        let n = nodes.len();
        if n < 2 {
            proof {
                assert(old(edges)@ + spec_way_edges(nodes@, u, one_way) =~= edges@);
            }
            return ;
        }
        proof {
            assert(edges@ =~= old(edges)@ + spec_way_edges(nodes@.take(1), u, one_way));
        }
        for i in 0..(n - 1)
            invariant
                n == nodes@.len(),
                2 <= n,
                u == spec_unsuitability(tags@, bicycle_relation),
                one_way == spec_is_one_way(tags@),
                edges@ == old(edges)@ + spec_way_edges(nodes@.take(i + 1), u, one_way),
        {
            edges.push(UnresolvedEdge { source: nodes[i], dest: nodes[i + 1], unsuitability: u });
            if !one_way {
                edges.push(
                    UnresolvedEdge { source: nodes[i + 1], dest: nodes[i], unsuitability: u },
                );
            }
            proof {
                lemma_way_edges_snoc(nodes@.take(i + 1), u, one_way, nodes@[i + 1]);
                assert(nodes@.take(i + 2) =~= nodes@.take(i + 1).push(nodes@[i + 1]));
                assert(nodes@.take(i + 1).last() == nodes@[i as int]);
                assert(edges@ =~= old(edges)@ + spec_way_edges(nodes@.take(i + 2), u, one_way));
            }
        }
        proof {
            assert(nodes@.take(n as int) =~= nodes@);
        }
    }

    /// Collects node records and raw edge candidates from the decoded
    /// objects: node records in input order; the candidates of every
    /// bicycle-usable way; and, for every bicycle route relation, the
    /// discounted candidates of each way it references, even when that way
    /// was already processed on its own.
    pub fn collect_graph(&self, objects: &Vec<MapObject>) -> (r: (
        Vec<NodeInfo>,
        Vec<UnresolvedEdge>,
    ))
        ensures
            r.0@ == spec_collect_nodes(objects@),
            r.1@ == spec_collect_edges(objects@, objects@),
    {
        let mut nodes: Vec<NodeInfo> = Vec::new();
        let mut edges: Vec<UnresolvedEdge> = Vec::new();
        let n = objects.len();
        proof {
            assert(objects@.take(0) =~= Seq::<MapObject>::empty());
        }
        for i in 0..n
            invariant
                n == objects@.len(),
                nodes@ == spec_collect_nodes(objects@.take(i as int)),
                edges@ == spec_collect_edges(objects@, objects@.take(i as int)),
        {
            match &objects[i] {
                MapObject::Node { osm_id, lat, long, height } => {
                    nodes.push(
                        NodeInfo { osm_id: *osm_id, lat: *lat, long: *long, height: *height },
                    );
                    proof {
                        assert(edges@ =~= edges@ + spec_edges_of(objects@, objects@[i as int]));
                    }
                },
                MapObject::Way { nodes: way_nodes, tags, .. } => {
                    if !self.is_not_for_bicycle(tags) {
                        self.process_way(way_nodes, tags, &mut edges, false);
                    } else {
                        proof {
                            assert(edges@ =~= edges@ + spec_edges_of(objects@, objects@[i as int]));
                        }
                    }
                },
                MapObject::Relation { tags, members } => {
                    if tags.contains("route", "bicycle") {
                        let m = members.len();
                        let ghost edges_before = edges@;
                        proof {
                            assert(members@.take(0) =~= Seq::<(MemberKind, u64)>::empty());
                            assert(edges@ =~= edges_before + spec_relation_edges(
                                objects@,
                                members@.take(0),
                            ));
                        }
                        for j in 0..m
                            invariant
                                m == members@.len(),
                                n == objects@.len(),
                                edges@ == edges_before + spec_relation_edges(
                                    objects@,
                                    members@.take(j as int),
                                ),
                        {
                            let kind = members[j].0;
                            let mid = members[j].1;
                            match kind {
                                MemberKind::Way => {
                                    match find_way(objects, mid) {
                                        Some(found) => {
                                            proof {
                                                lemma_find_way_is_way(objects@, mid);
                                            }
                                            match found {
                                                MapObject::Way { nodes: way_nodes, tags: way_tags, .. } => {
                                                    self.process_way(
                                                        way_nodes,
                                                        way_tags,
                                                        &mut edges,
                                                        true,
                                                    );
                                                },
                                                _ => {
                                                    proof {
                                                        assert(false);
                                                    }
                                                },
                                            }
                                        },
                                        None => {},
                                    }
                                },
                                _ => {},
                            }
                            proof {
                                lemma_relation_edges_snoc(
                                    objects@,
                                    members@.take(j as int),
                                    members@[j as int],
                                );
                                assert(members@.take(j + 1) =~= members@.take(j as int).push(
                                    members@[j as int],
                                ));
                                assert(edges@ =~= edges_before + spec_relation_edges(
                                    objects@,
                                    members@.take(j + 1),
                                ));
                            }
                        }
                        proof {
                            assert(members@.take(m as int) =~= members@);
                        }
                    } else {
                        proof {
                            assert(edges@ =~= edges@ + spec_edges_of(objects@, objects@[i as int]));
                        }
                    }
                },
            }
            proof {
                lemma_collect_nodes_snoc(objects@.take(i as int), objects@[i as int]);
                lemma_collect_edges_snoc(objects@, objects@.take(i as int), objects@[i as int]);
                assert(objects@.take(i + 1) =~= objects@.take(i as int).push(objects@[i as int]));
                assert(nodes@ =~= spec_collect_nodes(objects@.take(i + 1)));
                assert(edges@ =~= spec_collect_edges(objects@, objects@.take(i + 1)));
            }
        }
        proof {
            assert(objects@.take(n as int) =~= objects@);
        }
        (nodes, edges)
    }
}

} // verus!
