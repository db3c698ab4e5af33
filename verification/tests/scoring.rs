use pbfextractor::Loader;
use pbfextractor::TagMap;

fn tags(pairs: &[(&str, &str)]) -> TagMap {
    let mut t = TagMap::new();
    for (k, v) in pairs {
        t.push(k.to_string(), v.to_string());
    }
    t
}

fn loader() -> Loader {
    Loader::new(String::new(), String::new())
}

#[test]
fn unsuitability_of_road_classes() {
    let l = loader();
    assert_eq!(l.determine_unsuitability(&tags(&[("highway", "primary")]), false), 5000);
    assert_eq!(l.determine_unsuitability(&tags(&[("highway", "primary_link")]), false), 5000);
    assert_eq!(l.determine_unsuitability(&tags(&[("highway", "secondary")]), false), 4000);
    assert_eq!(l.determine_unsuitability(&tags(&[("highway", "tertiary")]), false), 3000);
    assert_eq!(l.determine_unsuitability(&tags(&[("highway", "road")]), false), 3000);
    assert_eq!(l.determine_unsuitability(&tags(&[("highway", "bridleway")]), false), 3000);
    assert_eq!(l.determine_unsuitability(&tags(&[("highway", "unclassified")]), false), 2000);
    assert_eq!(l.determine_unsuitability(&tags(&[("highway", "residential")]), false), 2000);
    assert_eq!(l.determine_unsuitability(&tags(&[("highway", "living_street")]), false), 1000);
    assert_eq!(l.determine_unsuitability(&tags(&[("highway", "footway")]), false), 1000);
    assert_eq!(l.determine_unsuitability(&tags(&[("highway", "cycleway")]), false), 500);
    assert_eq!(l.determine_unsuitability(&tags(&[("highway", "spaceport")]), false), 6000);
    assert_eq!(l.determine_unsuitability(&tags(&[]), false), 6000);
}

#[test]
fn unsuitability_of_bicycle_tags() {
    let l = loader();
    assert_eq!(l.determine_unsuitability(&tags(&[("cycleway", "lane")]), false), 500);
    assert_eq!(l.determine_unsuitability(&tags(&[("bicycle", "yes")]), false), 500);
    // An explicit denial falls through to the road class.
    assert_eq!(
        l.determine_unsuitability(&tags(&[("bicycle", "no"), ("highway", "primary")]), false),
        5000
    );
    assert_eq!(l.determine_unsuitability(&tags(&[("sidewalk", "yes")]), false), 1000);
    assert_eq!(
        l.determine_unsuitability(&tags(&[("sidewalk", "no"), ("highway", "residential")]), false),
        2000
    );
}

#[test]
fn relation_discount_halves_every_score() {
    let l = loader();
    let cases: Vec<Vec<(&str, &str)>> = vec![
        vec![("highway", "primary")],
        vec![("highway", "residential")],
        vec![("cycleway", "lane")],
        vec![("sidewalk", "yes")],
        vec![],
    ];
    for pairs in cases {
        let t = tags(&pairs);
        let plain = l.determine_unsuitability(&t, false);
        let discounted = l.determine_unsuitability(&t, true);
        assert_eq!(discounted * 2, plain);
        assert!([500u64, 1000, 2000, 3000, 4000, 5000, 6000].contains(&plain));
    }
}

#[test]
fn one_way_explicit_values() {
    let l = loader();
    assert!(l.is_one_way(&tags(&[("oneway", "yes")])));
    assert!(l.is_one_way(&tags(&[("oneway", "true")])));
    assert!(l.is_one_way(&tags(&[("oneway", "1")])));
    assert!(!l.is_one_way(&tags(&[("oneway", "no")])));
    assert!(!l.is_one_way(&tags(&[("oneway", "false")])));
    assert!(!l.is_one_way(&tags(&[("oneway", "0")])));
    // An explicit negative wins over the motorway default.
    assert!(!l.is_one_way(&tags(&[("oneway", "no"), ("highway", "motorway")])));
}

#[test]
fn one_way_inferred_from_road_class() {
    let l = loader();
    assert!(l.is_one_way(&tags(&[("highway", "motorway")])));
    assert!(!l.is_one_way(&tags(&[("highway", "residential")])));
    assert!(!l.is_one_way(&tags(&[])));
    // An unreadable oneway value falls back to the road class.
    assert!(l.is_one_way(&tags(&[("oneway", "sometimes"), ("highway", "motorway")])));
    assert!(!l.is_one_way(&tags(&[("oneway", "sometimes"), ("highway", "residential")])));
}

#[test]
fn bicycle_exclusion_rules() {
    let l = loader();
    assert!(l.is_not_for_bicycle(&tags(&[("bicycle", "no")])));
    assert!(l.is_not_for_bicycle(&tags(&[("highway", "motorway")])));
    assert!(l.is_not_for_bicycle(&tags(&[("highway", "trunk")])));
    assert!(l.is_not_for_bicycle(&tags(&[("highway", "steps")])));
    assert!(l.is_not_for_bicycle(&tags(&[("highway", "construction")])));
    assert!(!l.is_not_for_bicycle(&tags(&[("highway", "residential")])));
    assert!(!l.is_not_for_bicycle(&tags(&[("highway", "motorway"), ("cycleway", "lane")])));
    assert!(!l.is_not_for_bicycle(&tags(&[("highway", "trunk"), ("bicycle", "yes")])));
    assert!(!l.is_not_for_bicycle(&tags(&[("highway", "trunk"), ("sidewalk", "yes")])));
    assert!(l.is_not_for_bicycle(&tags(&[("highway", "trunk"), ("sidewalk", "no")])));
}

#[test]
fn tag_map_lookup() {
    let t = tags(&[("highway", "residential"), ("oneway", "yes")]);
    assert_eq!(t.len(), 2);
    assert_eq!(t.get("highway").map(String::as_str), Some("residential"));
    assert_eq!(t.get("oneway").map(String::as_str), Some("yes"));
    assert!(t.get("bicycle").is_none());
    assert!(t.contains("oneway", "yes"));
    assert!(!t.contains("oneway", "no"));
    assert!(t.contains_key("highway"));
    assert!(!t.contains_key("sidewalk"));
}
