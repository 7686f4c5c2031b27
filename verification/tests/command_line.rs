//! What the command line asks for.
use trka::cli::{
    bbox_argument, choose_osm_source, normalize_bbox, overpass_query, parse_bbox, parse_log_level, parse_osm_file,
    LogLevel, OsmSource, Reading, SelectedRegion, DEFAULT_BBOX,
};
use trka::text::split_commas;

fn args(words: &[&str]) -> Vec<String> {
    words.iter().map(|word| word.to_string()).collect()
}

fn readings(input: &str) -> Vec<Option<Reading>> {
    split_commas(input)
        .iter()
        .map(|part| part.parse::<f64>().ok().map(|x| Reading { bits: x.to_bits(), shown: x.to_string() }))
        .collect()
}

fn normalized(input: &str) -> Option<String> {
    normalize_bbox(input, &readings(input))
}

fn nowhere() -> SelectedRegion {
    SelectedRegion::default()
}

#[test]
fn levels_are_named() {
    for (word, level) in [
        ("none", None),
        ("info", Some(LogLevel::Info)),
        ("warning", Some(LogLevel::Warn)),
        ("error", Some(LogLevel::Error)),
        ("debug", Some(LogLevel::Debug)),
        ("trace", None),
        ("", None),
        ("INFO", None),
    ] {
        assert_eq!(parse_log_level(&args(&["trka", "--log-level", word])), level);
    }
}

#[test]
fn missing_or_last_flag_has_no_value() {
    assert_eq!(parse_log_level(&args(&["trka"])), None);
    assert_eq!(parse_log_level(&args(&["trka", "--log-level"])), None);
    assert_eq!(parse_osm_file(&args(&["trka", "--osm-file"])), None);
    assert_eq!(bbox_argument(&Vec::new()), None);
}

#[test]
fn first_flag_counts() {
    let both = args(&["trka", "--osm-file", "a.osm", "--osm-file", "b.osm"]);
    assert_eq!(parse_osm_file(&both), Some("a.osm".to_string()));
    let doubled = args(&["trka", "--osm-file", "--osm-file"]);
    assert_eq!(parse_osm_file(&doubled), Some("--osm-file".to_string()));
}

#[test]
fn overpass_order_is_kept_as_written() {
    let input = "40.748,-73.985,40.753,-73.978";
    assert_eq!(normalized(input), Some(input.to_string()));
    assert_eq!(normalized("90.0,0.10,1,2"), Some("90.0,0.10,1,2".to_string()));
    assert_eq!(normalized("NaN,1,2,3"), Some("NaN,1,2,3".to_string()));
}

#[test]
fn url_order_is_swapped() {
    assert_eq!(
        normalized("-122.420,37.770,-122.410,37.78"),
        Some("37.77,-122.42,37.78,-122.41".to_string())
    );
    assert_eq!(normalized("90.5,1,2,3"), Some("1,90.5,3,2".to_string()));
    assert_eq!(normalized("inf,1,2,3"), Some("1,inf,3,2".to_string()));
}

#[test]
fn third_number_tells_the_order_too() {
    assert_eq!(normalized("80,10,100,20"), Some("10,80,20,100".to_string()));
    assert_eq!(normalized("80,10,-90.5,20"), Some("10,80,20,-90.5".to_string()));
    assert_eq!(normalized("80,10,90,20"), Some("80,10,90,20".to_string()));
    assert_eq!(normalized("37,-122,100,-121"), Some("37,-122,100,-121".to_string()));
    assert_eq!(normalized("10,20,100,95"), Some("10,20,100,95".to_string()));
    assert_eq!(normalized("80,100,85,120"), Some("80,100,85,120".to_string()));
}

#[test]
fn normalized_boxes_stay_as_they_are() {
    for input in ["80,10,100,20", "-122,37,-121,100", "37,-122,100,-121", "-122.420,37.770,-122.410,37.78", "40.748,-73.985,40.753,-73.978", "inf,1,2,3"] {
        let once = normalized(input).unwrap();
        assert_eq!(normalized(&once), Some(once.clone()));
    }
}

#[test]
fn boxes_that_are_not_four_numbers_are_refused() {
    for input in ["", "1,2,3", "1,2,3,4,5", "1,2,x,4", " 1,2,3,4", "1,2,3,"] {
        assert_eq!(normalized(input), None, "{input:?}");
    }
}

#[test]
fn box_on_the_command_line_goes_first() {
    let region = SelectedRegion { bbox: Some("1,2,3,4".to_string()) };
    let swapped = args(&["trka", "--bbox", "-122.42,37.77,-122.41,37.78"]);
    assert_eq!(
        parse_bbox(&swapped, &readings("-122.42,37.77,-122.41,37.78"), &region),
        "37.77,-122.42,37.78,-122.41"
    );
    let odd = args(&["trka", "--bbox", "somewhere"]);
    assert_eq!(parse_bbox(&odd, &readings("somewhere"), &region), "somewhere");
    assert_eq!(parse_bbox(&args(&["trka"]), &Vec::new(), &region), "1,2,3,4");
    assert_eq!(parse_bbox(&args(&["trka"]), &Vec::new(), &nowhere()), DEFAULT_BBOX);
    assert_eq!(DEFAULT_BBOX, "40.748,-73.985,40.753,-73.978");
}

#[test]
fn file_goes_before_service() {
    let both = args(&["trka", "--bbox", "1,2,3,4", "--osm-file", "map.osm"]);
    let source = choose_osm_source(&both, &readings("1,2,3,4"), &nowhere());
    assert!(matches!(source, OsmSource::File(path) if path == "map.osm"));
    let service = choose_osm_source(&args(&["trka"]), &Vec::new(), &nowhere());
    assert!(matches!(service, OsmSource::Overpass(bbox) if bbox == DEFAULT_BBOX));
}

#[test]
fn query_asks_for_roads_and_buildings() {
    assert_eq!(
        overpass_query("1,2,3,4"),
        r#"[out:xml];
(
  way["highway"](1,2,3,4);
  way["building"](1,2,3,4);
);
(._;>;);
out body;"#
    );
}
