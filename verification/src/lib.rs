//! Extraction of a routable, multi-criteria weighted graph from decoded
//! street-map objects and raw elevation tiles.
//!
//! The pipeline turns decoded map objects (nodes, tagged ways, relations)
//! into directed edge candidates, resolves sparse external node identifiers
//! into dense indices, computes per-edge geometry and tag-derived scores,
//! and prunes duplicate and Pareto-dominated parallel edges.
//!
//! All quantities are carried as scaled integers: coordinates in
//! decimicro-degrees (ten-millionths of a degree), heights and lengths in
//! millimeters, and scores in thousandths. The host program converts
//! between these units and whatever its input and output formats use.

mod elevation;
mod filter;
mod metrics;
mod pbf;
mod registry;
mod resolve;
mod tags;

pub use tags::TagMap;
pub use tags::spec_get;
pub use tags::str_eq;

pub use elevation::decode_height_sample;
pub use elevation::interpolate;
pub use elevation::sample_offset;
pub use elevation::sample_plan;
pub use elevation::tile_cell;
pub use elevation::SamplePlan;
pub use filter::dedup_and_filter;
pub use filter::dedup_edges;
pub use filter::dominance_filter;
pub use filter::sort_edges;
pub use metrics::BicycleUnsuitability;
pub use metrics::CarSpeed;
pub use metrics::CostMetric;
pub use metrics::Distance;
pub use metrics::HeightAscent;
pub use metrics::Metric;
pub use metrics::MetricError;
pub use metrics::NodeMetric;
pub use metrics::TagMetric;
pub use metrics::TravelTime;
pub use metrics::parse_u64;
pub use metrics::evaluate;
pub use registry::build_registry;
pub use registry::ConfigError;
pub use registry::Registry;
pub use pbf::EdgeInfo;
pub use pbf::Loader;
pub use pbf::MapObject;
pub use pbf::MemberKind;
pub use pbf::NodeInfo;
pub use pbf::UnresolvedEdge;
pub use resolve::ExtractError;
