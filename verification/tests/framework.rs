use pbfextractor::build_registry;
use pbfextractor::evaluate;
use pbfextractor::parse_u64;
use pbfextractor::BicycleUnsuitability;
use pbfextractor::CarSpeed;
use pbfextractor::ConfigError;
use pbfextractor::CostMetric;
use pbfextractor::Distance;
use pbfextractor::EdgeInfo;
use pbfextractor::HeightAscent;
use pbfextractor::Metric;
use pbfextractor::MetricError;
use pbfextractor::NodeInfo;
use pbfextractor::NodeMetric;
use pbfextractor::TagMap;
use pbfextractor::TagMetric;
use pbfextractor::TravelTime;

fn tags(pairs: &[(&str, &str)]) -> TagMap {
    let mut t = TagMap::new();
    for (k, v) in pairs {
        t.push(k.to_string(), v.to_string());
    }
    t
}

fn names(list: &[&str]) -> Vec<String> {
    list.iter().map(|s| s.to_string()).collect()
}

#[test]
fn metric_names_are_stable() {
    assert_eq!(CarSpeed.name(), "CarSpeed");
    assert_eq!(Distance.name(), "distance");
    assert_eq!(TravelTime.name(), "TravelTime");
    assert_eq!(HeightAscent.name(), "HeightAscent");
    assert_eq!(BicycleUnsuitability.name(), "BicycleUnsuitability");
}

#[test]
fn parse_u64_reads_plain_decimals() {
    assert_eq!(parse_u64("50"), Some(50));
    assert_eq!(parse_u64("0"), Some(0));
    assert_eq!(parse_u64("18446744073709551615"), Some(u64::MAX));
    assert_eq!(parse_u64("18446744073709551616"), None);
    assert_eq!(parse_u64(""), None);
    assert_eq!(parse_u64("12a"), None);
    assert_eq!(parse_u64("-5"), None);
    assert_eq!(parse_u64("50 mph"), None);
}

#[test]
fn car_speed_prefers_explicit_maxspeed() {
    assert_eq!(CarSpeed.calc(&tags(&[("maxspeed", "30")])), Ok(30));
    // A zero or unreadable max speed falls back to the road class.
    assert_eq!(CarSpeed.calc(&tags(&[("maxspeed", "0"), ("highway", "motorway")])), Ok(130));
    assert_eq!(CarSpeed.calc(&tags(&[("maxspeed", "fast"), ("highway", "service")])), Ok(30));
}

#[test]
fn car_speed_by_road_class() {
    assert_eq!(CarSpeed.calc(&tags(&[("highway", "motorway")])), Ok(130));
    assert_eq!(CarSpeed.calc(&tags(&[("highway", "trunk")])), Ok(130));
    assert_eq!(CarSpeed.calc(&tags(&[("highway", "primary")])), Ok(100));
    assert_eq!(CarSpeed.calc(&tags(&[("highway", "secondary")])), Ok(80));
    assert_eq!(CarSpeed.calc(&tags(&[("highway", "tertiary")])), Ok(70));
    assert_eq!(CarSpeed.calc(&tags(&[("highway", "service")])), Ok(30));
    assert_eq!(CarSpeed.calc(&tags(&[("highway", "living_street")])), Ok(5));
    assert_eq!(CarSpeed.calc(&tags(&[("highway", "residential")])), Ok(50));
    assert_eq!(CarSpeed.calc(&tags(&[])), Ok(50));
}

#[test]
fn height_ascent_counts_only_climbing() {
    let low = NodeInfo::new(1, 0, 0, 0);
    let high = NodeInfo::new(2, 0, 0, 10_000);
    assert_eq!(HeightAscent.calc(&low, &high), Ok(10_000));
    assert_eq!(HeightAscent.calc(&high, &low), Ok(0));
}

#[test]
fn bicycle_unsuitability_metric_matches_scale() {
    assert_eq!(BicycleUnsuitability.calc(&tags(&[("highway", "residential")])), Ok(2000));
    assert_eq!(BicycleUnsuitability.calc(&tags(&[("cycleway", "lane")])), Ok(500));
    assert_eq!(BicycleUnsuitability.calc(&tags(&[])), Ok(6000));
}

#[test]
fn travel_time_requesting_auto_includes_dependencies() {
    let reg = build_registry(&names(&["time:car"]), &names(&[])).unwrap();
    assert_eq!(reg.index_of("distance"), Some(0));
    assert_eq!(reg.index_of("CarSpeed"), Some(1));
    assert_eq!(reg.index_of("TravelTime"), Some(2));
    // The auto-included prerequisites are internal-only.
    assert_eq!(reg.metric_count(), 1);
}

#[test]
fn explicit_selection_is_not_duplicated() {
    let reg = build_registry(&names(&["distance", "time:car", "speed:car"]), &names(&[])).unwrap();
    assert_eq!(reg.entries.len(), 3);
    assert_eq!(reg.index_of("distance"), Some(0));
    assert_eq!(reg.index_of("CarSpeed"), Some(1));
    assert_eq!(reg.index_of("TravelTime"), Some(2));
    // Everything was explicitly selected, so everything is serialized.
    assert_eq!(reg.metric_count(), 3);
}

#[test]
fn internal_request_is_excluded_from_output() {
    let reg = build_registry(&names(&["distance", "speed:car"]), &names(&["speed:car"])).unwrap();
    assert_eq!(reg.entries.len(), 2);
    assert_eq!(reg.metric_count(), 1);
}

#[test]
fn unknown_metric_name_is_a_configuration_error() {
    let r = build_registry(&names(&["distance", "gridx"]), &names(&[]));
    match r {
        Err(e) => assert_eq!(e, ConfigError::UnsupportedMetricName),
        Ok(_) => panic!("an unknown metric name must be rejected"),
    }
}

#[test]
fn evaluate_fills_the_cost_vector_in_layout_order() {
    let reg = build_registry(&names(&["time:car"]), &names(&[])).unwrap();
    let edge = EdgeInfo::new(0, 1, 10_000, 0, 2000);
    let costs = evaluate(&reg, &tags(&[("maxspeed", "36")]), &edge).unwrap();
    // 10 meters at 36 km/h: 10000 mm * 360 / 36.
    assert_eq!(costs, vec![10_000, 36, 100_000]);
}

#[test]
fn travel_time_with_zero_speed_is_non_finite() {
    let reg = build_registry(&names(&["distance", "speed:car"]), &names(&[])).unwrap();
    let costs = vec![5_000u64, 0u64];
    assert_eq!(
        TravelTime.calc(&costs, &reg),
        Err(MetricError::NonFiniteTime(5_000, 0))
    );
}

#[test]
fn travel_time_without_prerequisites_is_unknown_metric() {
    let reg = build_registry(&names(&["distance"]), &names(&[])).unwrap();
    let costs = vec![5_000u64];
    assert_eq!(TravelTime.calc(&costs, &reg), Err(MetricError::UnknownMetric));
}
