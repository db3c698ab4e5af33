//! The metric framework: named computation units deriving one scalar each
//! from an object's tags, from a pair of resolved node records, or from a
//! partially computed cost vector.
//!
//! Cost scalars are scaled integers: lengths and elevation gains in
//! millimeters, unsuitability and travel time in thousandths, speeds in
//! whole kilometers per hour.

use vstd::prelude::*;

use crate::pbf::spec_base_unsuitability;
use crate::pbf::NodeInfo;
use crate::registry::spec_index_of;
use crate::registry::Registry;
use crate::resolve::spec_gain;
use crate::tags::spec_get;
use crate::tags::str_eq;
use crate::tags::TagMap;

verus! {

/// A fault while computing a metric.
#[derive(Clone, Copy, PartialEq, Eq, Structural, Debug)]
pub enum MetricError {
    /// A cost metric referenced a prerequisite absent from the registry.
    UnknownMetric,
    /// A travel time that does not fit the cost scale (a zero speed, or a
    /// value beyond the scale's range); carries the offending distance and
    /// speed.
    NonFiniteTime(u64, u64),
}

/// A named computation unit.
pub trait Metric {
    /// The stable name under which the metric is registered.
    spec fn spec_name(&self) -> Seq<char>;

    fn name(&self) -> (r: &'static str)
        ensures
            r@ == self.spec_name(),
    ;
}

/// A metric computed from an object's tags.
pub trait TagMetric: Metric {
    spec fn spec_calc(&self, t: Seq<(Seq<char>, Seq<char>)>) -> Result<u64, MetricError>;

    fn calc(&self, tags: &TagMap) -> (r: Result<u64, MetricError>)
        ensures
            r == self.spec_calc(tags@),
    ;
}

/// A metric computed from a pair of resolved node records.
pub trait NodeMetric: Metric {
    spec fn spec_calc(&self, source: NodeInfo, target: NodeInfo) -> Result<u64, MetricError>;

    fn calc(&self, source: &NodeInfo, target: &NodeInfo) -> (r: Result<u64, MetricError>)
        ensures
            r == self.spec_calc(*source, *target),
    ;
}

/// A metric computed from an already computed partial cost vector, looking
/// its prerequisites up by name in the registry.
pub trait CostMetric: Metric {
    /// What the metric needs of the partial cost vector: every prerequisite
    /// the registry knows must already be computed.
    spec fn spec_deps_in(&self, costs_len: int, reg: Seq<(Seq<char>, bool)>) -> bool;

    spec fn spec_calc(&self, costs: Seq<u64>, reg: Seq<(Seq<char>, bool)>) -> Result<
        u64,
        MetricError,
    >;

    fn calc(&self, costs: &Vec<u64>, reg: &Registry) -> (r: Result<u64, MetricError>)
        requires
            self.spec_deps_in(costs@.len() as int, reg@),
        ensures
            r == self.spec_calc(costs@, reg@),
    ;
}

/// Whether `c` is a decimal digit.
pub open spec fn spec_is_digit(c: char) -> bool {
    48 <= c as u32 <= 57
}

/// The value of `c` as a decimal digit.
pub open spec fn spec_digit(c: char) -> int {
    c as u32 - 48
}

/// Horner evaluation of a decimal digit string onto `acc`: fails on the
/// first non-digit and on a value that exceeds the cost scale's range.
pub open spec fn spec_parse_u64_rec(s: Seq<char>, acc: int) -> Option<int>
    decreases s.len(),
{
    if s.len() == 0 {
        Some(acc)
    } else if !spec_is_digit(s[0]) {
        None
    } else if acc * 10 + spec_digit(s[0]) > u64::MAX {
        None
    } else {
        spec_parse_u64_rec(s.drop_first(), acc * 10 + spec_digit(s[0]))
    }
}

/// The numeric reading of a tag value: a nonempty all-digit string whose
/// value fits the scale.
pub open spec fn spec_parse_u64(s: Seq<char>) -> Option<int> {
    if s.len() == 0 {
        None
    } else {
        spec_parse_u64_rec(s, 0)
    }
}

/// Parses a nonempty decimal digit string.
pub fn parse_u64(s: &str) -> (r: Option<u64>)
    ensures
        match r {
            Some(n) => spec_parse_u64(s@) == Some(n as int),
            None => spec_parse_u64(s@) is None,
        },
{
    let len = s.unicode_len();
    if len == 0 {
        return None;
    }
    let mut acc: u64 = 0;
    proof {
        assert(s@.skip(0) =~= s@);
    }
    for i in 0..len
        invariant
            len == s@.len(),
            spec_parse_u64(s@) == spec_parse_u64_rec(s@.skip(i as int), acc as int),
    {
        let c = s.get_char(i);
        proof {
            assert(s@.skip(i as int)[0] == s@[i as int]);
            assert(s@.skip(i as int).drop_first() =~= s@.skip(i + 1));
        }
        let code = c as u32;
        if code < 48 || code > 57 {
            return None;
        }
        let d = (code - 48) as u64;
        if acc > (u64::MAX - d) / 10 {
            proof {
                vstd::arithmetic::div_mod::lemma_fundamental_div_mod(
                    (u64::MAX - d) as int,
                    10,
                );
            }
            return None;
        }
        proof {
            vstd::arithmetic::div_mod::lemma_fundamental_div_mod((u64::MAX - d) as int, 10);
        }
        acc = acc * 10 + d;
    }
    proof {
        assert(s@.skip(len as int) =~= Seq::<char>::empty());
    }
    Some(acc)
}

/// The speed a road class suggests, in kilometers per hour; an unmatched or
/// absent road class reads as 50.
pub open spec fn spec_street_speed(street: Option<Seq<char>>) -> int {
    match street {
        Option::None => 50,
        Option::Some(s) => if s == "motorway"@ || s == "trunk"@ {
            130
        } else if s == "primary"@ {
            100
        } else if s == "secondary"@ || s == "trunk_link"@ {
            80
        } else if s == "motorway_link"@ || s == "primary_link"@ || s == "secondary_link"@ || s
            == "tertiary"@ || s == "tertiary_link"@ {
            70
        } else if s == "service"@ {
            30
        } else if s == "living_street"@ {
            5
        } else {
            50
        },
    }
}

/// The car speed of a way: an explicit positive max-speed tag wins, else
/// the road class decides.
pub open spec fn spec_car_speed(t: Seq<(Seq<char>, Seq<char>)>) -> int {
    match spec_get(t, "maxspeed"@) {
        Option::Some(v) => match spec_parse_u64(v) {
            Option::Some(n) => if n > 0 {
                n
            } else {
                spec_street_speed(spec_get(t, "highway"@))
            },
            Option::None => spec_street_speed(spec_get(t, "highway"@)),
        },
        Option::None => spec_street_speed(spec_get(t, "highway"@)),
    }
}

/// Car speed by explicit max-speed tag or road class.
pub struct CarSpeed;

impl Metric for CarSpeed {
    open spec fn spec_name(&self) -> Seq<char> {
        "CarSpeed"@
    }

    fn name(&self) -> (r: &'static str) {
        "CarSpeed"
    }
}

impl TagMetric for CarSpeed {
    open spec fn spec_calc(&self, t: Seq<(Seq<char>, Seq<char>)>) -> Result<u64, MetricError> {
        Ok(spec_car_speed(t) as u64)
    }

    fn calc(&self, tags: &TagMap) -> (r: Result<u64, MetricError>) {
        let explicit = match tags.get("maxspeed") {
            Some(v) => match parse_u64(v.as_str()) {
                Some(n) => if n > 0 {
                    Some(n)
                } else {
                    None
                },
                None => None,
            },
            None => None,
        };
        let speed = match explicit {
            Some(n) => n,
            None => {
                match tags.get("highway") {
                    Some(v) => {
                        let s = v.as_str();
                        if str_eq(s, "motorway") || str_eq(s, "trunk") {
                            130
                        } else if str_eq(s, "primary") {
                            100
                        } else if str_eq(s, "secondary") || str_eq(s, "trunk_link") {
                            80
                        } else if str_eq(s, "motorway_link") || str_eq(s, "primary_link") || str_eq(
                            s,
                            "secondary_link",
                        ) || str_eq(s, "tertiary") || str_eq(s, "tertiary_link") {
                            70
                        } else if str_eq(s, "service") {
                            30
                        } else if str_eq(s, "living_street") {
                            5
                        } else {
                            50
                        }
                    },
                    None => 50,
                }
            },
        };
        Ok(speed)
    }
}

/// Geodesic distance between the endpoints. The computation itself is the
/// host's floating-point geodesy; the framework knows the metric by name
/// and receives its value as the resolved edge length.
pub struct Distance;

impl Metric for Distance {
    open spec fn spec_name(&self) -> Seq<char> {
        "distance"@
    }

    fn name(&self) -> (r: &'static str) {
        "distance"
    }
}

/// The exact travel time reading of a distance in millimeters and a speed
/// in kilometers per hour, in thousandths; a zero speed or a value beyond
/// the scale is reported with its operands.
pub open spec fn spec_travel_time(dist: u64, speed: u64) -> Result<u64, MetricError> {
    if speed == 0 {
        Err(MetricError::NonFiniteTime(dist, speed))
    } else if (dist * 360) as int / (speed as int) > u64::MAX {
        Err(MetricError::NonFiniteTime(dist, speed))
    } else {
        Ok(((dist * 360) as int / (speed as int)) as u64)
    }
}

/// Travel time derived from the computed distance and car speed.
pub struct TravelTime;

impl Metric for TravelTime {
    open spec fn spec_name(&self) -> Seq<char> {
        "TravelTime"@
    }

    fn name(&self) -> (r: &'static str) {
        "TravelTime"
    }
}

impl CostMetric for TravelTime {
    open spec fn spec_deps_in(&self, costs_len: int, reg: Seq<(Seq<char>, bool)>) -> bool {
        &&& (spec_index_of(reg, "distance"@) matches Some(i) ==> i < costs_len)
        &&& (spec_index_of(reg, "CarSpeed"@) matches Some(i) ==> i < costs_len)
    }

    open spec fn spec_calc(&self, costs: Seq<u64>, reg: Seq<(Seq<char>, bool)>) -> Result<
        u64,
        MetricError,
    > {
        match (spec_index_of(reg, "distance"@), spec_index_of(reg, "CarSpeed"@)) {
            (Option::Some(di), Option::Some(si)) => spec_travel_time(costs[di], costs[si]),
            _ => Err(MetricError::UnknownMetric),
        }
    }

    fn calc(&self, costs: &Vec<u64>, reg: &Registry) -> (r: Result<u64, MetricError>) {
        let di = match reg.index_of("distance") {
            Some(i) => i,
            None => {
                return Err(MetricError::UnknownMetric);
            },
        };
        let si = match reg.index_of("CarSpeed") {
            Some(i) => i,
            None => {
                return Err(MetricError::UnknownMetric);
            },
        };
        let dist = costs[di];
        let speed = costs[si];
        if speed == 0 {
            return Err(MetricError::NonFiniteTime(dist, speed));
        }
        let time: u128 = dist as u128 * 360 / speed as u128;
        if time > u64::MAX as u128 {
            Err(MetricError::NonFiniteTime(dist, speed))
        } else {
            Ok(time as u64)
        }
    }
}

/// Elevation ascent between the endpoints: the height climbed, zero when
/// descending.
pub struct HeightAscent;

impl Metric for HeightAscent {
    open spec fn spec_name(&self) -> Seq<char> {
        "HeightAscent"@
    }

    fn name(&self) -> (r: &'static str) {
        "HeightAscent"
    }
}

impl NodeMetric for HeightAscent {
    open spec fn spec_calc(&self, source: NodeInfo, target: NodeInfo) -> Result<u64, MetricError> {
        Ok(spec_gain(source, target) as u64)
    }

    fn calc(&self, source: &NodeInfo, target: &NodeInfo) -> (r: Result<u64, MetricError>) {
        let dh: i128 = target.height as i128 - source.height as i128;
        if dh > 0 {
            Ok(dh as u64)
        } else {
            Ok(0)
        }
    }
}

/// Cycling unsuitability scored from the way's tags, without any relation
/// discount.
pub struct BicycleUnsuitability;

impl Metric for BicycleUnsuitability {
    open spec fn spec_name(&self) -> Seq<char> {
        "BicycleUnsuitability"@
    }

    fn name(&self) -> (r: &'static str) {
        "BicycleUnsuitability"
    }
}

impl TagMetric for BicycleUnsuitability {
    open spec fn spec_calc(&self, t: Seq<(Seq<char>, Seq<char>)>) -> Result<u64, MetricError> {
        Ok(spec_base_unsuitability(t) as u64)
    }

    fn calc(&self, tags: &TagMap) -> (r: Result<u64, MetricError>) {
        let friendly = match tags.get("bicycle") {
            Some(v) => !str_eq(v.as_str(), "no"),
            None => false,
        };
        let score: u64 = if tags.contains_key("cycleway") || friendly {
            500
        } else if tags.contains("sidewalk", "yes") {
            1000
        } else {
            match tags.get("highway") {
                Some(v) => {
                    let s = v.as_str();
                    if str_eq(s, "primary") || str_eq(s, "primary_link") {
                        5000
                    } else if str_eq(s, "secondary") || str_eq(s, "secondary_link") {
                        4000
                    } else if str_eq(s, "tertiary") || str_eq(s, "tertiary_link") || str_eq(
                        s,
                        "road",
                    ) || str_eq(s, "bridleway") {
                        3000
                    } else if str_eq(s, "unclassified") || str_eq(s, "residential") || str_eq(
                        s,
                        "traffic_island",
                    ) {
                        2000
                    } else if str_eq(s, "living_street") || str_eq(s, "service") || str_eq(
                        s,
                        "track",
                    ) || str_eq(s, "platform") || str_eq(s, "pedestrian") || str_eq(s, "path")
                        || str_eq(s, "footway") {
                        1000
                    } else if str_eq(s, "cycleway") {
                        500
                    } else {
                        6000
                    }
                },
                None => 6000,
            }
        };
        Ok(score)
    }
}

/// The value of the metric named `name` for one edge: the resolved length
/// for distance, the tag-derived car speed, or the travel time derived from
/// the partial cost vector; an unknown name fails.
pub open spec fn spec_metric_value(
    reg: Seq<(Seq<char>, bool)>,
    t: Seq<(Seq<char>, Seq<char>)>,
    e: crate::pbf::EdgeInfo,
    costs: Seq<u64>,
    name: Seq<char>,
) -> Result<u64, MetricError> {
    if name == "distance"@ {
        Ok(e.length)
    } else if name == "CarSpeed"@ {
        Ok(spec_car_speed(t) as u64)
    } else if name == "TravelTime"@ {
        match (spec_index_of(reg, "distance"@), spec_index_of(reg, "CarSpeed"@)) {
            (Option::Some(di), Option::Some(si)) => spec_travel_time(costs[di], costs[si]),
            _ => Err(MetricError::UnknownMetric),
        }
    } else {
        Err(MetricError::UnknownMetric)
    }
}

/// The cost vector of the first `i` registered metrics, computed left to
/// right; the first failing metric fails the vector.
pub open spec fn spec_eval_prefix(
    reg: Seq<(Seq<char>, bool)>,
    t: Seq<(Seq<char>, Seq<char>)>,
    e: crate::pbf::EdgeInfo,
    i: int,
) -> Result<Seq<u64>, MetricError>
    decreases i,
{
    if i <= 0 {
        Ok(Seq::empty())
    } else {
        match spec_eval_prefix(reg, t, e, i - 1) {
            Result::Ok(cs) => match spec_metric_value(reg, t, e, cs, reg[i - 1].0) {
                Result::Ok(v) => Ok(cs.push(v)),
                Result::Err(er) => Err(er),
            },
            Result::Err(er) => Err(er),
        }
    }
}

/// The full cost vector of one edge under the registry's layout.
pub open spec fn spec_evaluate(
    reg: Seq<(Seq<char>, bool)>,
    t: Seq<(Seq<char>, Seq<char>)>,
    e: crate::pbf::EdgeInfo,
) -> Result<Seq<u64>, MetricError> {
    spec_eval_prefix(reg, t, e, reg.len() as int)
}

proof fn lemma_eval_prefix_err(
    reg: Seq<(Seq<char>, bool)>,
    t: Seq<(Seq<char>, Seq<char>)>,
    e: crate::pbf::EdgeInfo,
    i: int,
    j: int,
)
    requires
        0 <= i <= j,
        spec_eval_prefix(reg, t, e, i) is Err,
    ensures
        spec_eval_prefix(reg, t, e, j) == spec_eval_prefix(reg, t, e, i),
    decreases j - i,
{
    if i < j {
        lemma_eval_prefix_err(reg, t, e, i, j - 1);
    }
}

/// Computes the cost vector of one resolved edge in a single left-to-right
/// pass over the registry, relying on its invariant that a derived metric's
/// prerequisites stand at lower indices.
pub fn evaluate(reg: &Registry, tags: &TagMap, edge: &crate::pbf::EdgeInfo) -> (r: Result<
    Vec<u64>,
    MetricError,
>)
    requires
        crate::registry::spec_registry_wf(reg@),
    ensures
        match r {
            Ok(v) => spec_evaluate(reg@, tags@, *edge) == Ok::<_, MetricError>(v@) && v@.len()
                == reg@.len(),
            Err(er) => spec_evaluate(reg@, tags@, *edge) == Err::<Seq<u64>, _>(er),
        },
{
    let n = reg.entries.len();
    let mut costs: Vec<u64> = Vec::new();
    proof {
        assert(spec_eval_prefix(reg@, tags@, *edge, 0) == Ok::<_, MetricError>(costs@));
        assert(costs@ =~= Seq::<u64>::empty());
    }
    for i in 0..n
        invariant
            n == reg.entries@.len(),
            n == reg@.len(),
            costs@.len() == i,
            spec_eval_prefix(reg@, tags@, *edge, i as int) == Ok::<_, MetricError>(costs@),
            crate::registry::spec_registry_wf(reg@),
    {
        let name = reg.entries[i].0.as_str();
        proof {
            assert(reg@[i as int].0 == name@);
        }
        let value: u64 = if str_eq(name, "distance") {
            edge.length
        } else if str_eq(name, "CarSpeed") {
            match (CarSpeed).calc(tags) {
                Ok(v) => v,
                Err(er) => {
                    proof {
                        lemma_eval_prefix_err(reg@, tags@, *edge, i + 1, n as int);
                    }
                    return Err(er);
                },
            }
        } else if str_eq(name, "TravelTime") {
            proof {
                crate::registry::lemma_has_name_iff(reg@, "distance"@);
                crate::registry::lemma_has_name_iff(reg@, "CarSpeed"@);
                crate::registry::lemma_index_of_first(reg@, "distance"@);
                crate::registry::lemma_index_of_first(reg@, "CarSpeed"@);
            }
            match (TravelTime).calc(&costs, reg) {
                Ok(v) => v,
                Err(er) => {
                    proof {
                        lemma_eval_prefix_err(reg@, tags@, *edge, i + 1, n as int);
                    }
                    return Err(er);
                },
            }
        } else {
            proof {
                lemma_eval_prefix_err(reg@, tags@, *edge, i + 1, n as int);
            }
            return Err(MetricError::UnknownMetric);
        };
        costs.push(value);
    }
    Ok(costs)
}

} // verus!
