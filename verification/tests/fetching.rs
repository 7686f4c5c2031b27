//! Fetching files that are kept, and what is told where maps cannot be had.
use trka::fetch::{
    fetch_step, osm_failure, FetchAction, FetchPhase, OsmFailure, LAND_CACHE_FILE, NATURAL_EARTH_LAND_URL,
    NATURAL_EARTH_URBAN_URL, OVERPASS_URL, URBAN_CACHE_FILE,
};

fn well(text: &str) -> Result<String, String> {
    Ok(text.to_string())
}

fn badly(error: &str) -> Result<String, String> {
    Err(error.to_string())
}

fn step(phase: FetchPhase, result: Result<String, String>) -> (FetchPhase, FetchAction) {
    fetch_step(phase, result, "https://example.org/land", "land.geojson")
}

#[test]
fn kept_file_is_not_downloaded() {
    let (_, action) = step(FetchPhase::Looking, well("{}"));
    assert!(matches!(action, FetchAction::Done(text) if text == "{}"));
}

#[test]
fn missing_file_is_downloaded_kept_and_read() {
    let (phase, action) = step(FetchPhase::Looking, badly("not there"));
    assert!(matches!(action, FetchAction::Download));
    let (phase, action) = step(phase, well(""));
    assert!(matches!(action, FetchAction::Create));
    let (phase, action) = step(phase, well(""));
    assert!(matches!(action, FetchAction::Write));
    let (phase, action) = step(phase, well(""));
    assert!(matches!(action, FetchAction::ReadBack));
    let (_, action) = step(phase, well("land"));
    assert!(matches!(action, FetchAction::Done(text) if text == "land"));
}

#[test]
fn every_failure_is_told() {
    for (phase, message) in [
        (FetchPhase::Downloading, "Failed to download https://example.org/land: oh"),
        (FetchPhase::Creating, "Failed to create cache file land.geojson: oh"),
        (FetchPhase::Writing, "Failed to write cache file land.geojson: oh"),
        (FetchPhase::Reading, "Failed to read cached land.geojson: oh"),
    ] {
        let (_, action) = step(phase, badly("oh"));
        assert!(matches!(action, FetchAction::Fail(text) if text == message));
    }
}

#[test]
fn missing_maps_are_told() {
    assert_eq!(osm_failure(OsmFailure::File, "a.osm", "gone"), "Failed to read a.osm: gone");
    assert_eq!(osm_failure(OsmFailure::Request, "", "refused"), "Overpass request failed: refused");
    assert_eq!(osm_failure(OsmFailure::Response, "", "cut"), "Failed to read Overpass response: cut");
}

#[test]
fn addresses_and_files_belong_together() {
    assert!(NATURAL_EARTH_LAND_URL.ends_with(LAND_CACHE_FILE));
    assert!(NATURAL_EARTH_URBAN_URL.ends_with(URBAN_CACHE_FILE));
    assert!(OVERPASS_URL.starts_with("https://"));
}
