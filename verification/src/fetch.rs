//! Fetching maps: what is read, downloaded and kept, and what is told where that fails.
use vstd::prelude::*;
use vstd::string::*;

verus! {

/// Where the land is downloaded from.
pub const NATURAL_EARTH_LAND_URL: &'static str = "https://raw.githubusercontent.com/nvkelso/natural-earth-vector/master/geojson/ne_110m_land.geojson";

/// Where the urban areas are downloaded from.
pub const NATURAL_EARTH_URBAN_URL: &'static str = "https://raw.githubusercontent.com/nvkelso/natural-earth-vector/master/geojson/ne_50m_urban_areas.geojson";

/// The file that keeps the land.
pub const LAND_CACHE_FILE: &'static str = "ne_110m_land.geojson";

/// The file that keeps the urban areas.
pub const URBAN_CACHE_FILE: &'static str = "ne_50m_urban_areas.geojson";

/// The service that is asked for roads and buildings.
pub const OVERPASS_URL: &'static str = "https://overpass-api.de/api/interpreter";

/// How far the fetching of a file that is kept has come.
#[derive(Clone, Copy, Debug, PartialEq, Eq, Structural)]
pub enum FetchPhase {
    /// The kept file is looked for.
    Looking,
    /// The file is downloaded.
    Downloading,
    /// The kept file is created.
    Creating,
    /// What is downloaded is written to the kept file.
    Writing,
    /// The kept file is read back.
    Reading,
}

/// What is to be done next.
#[derive(Debug)]
pub enum FetchAction {
    /// Ask for the file at its address.
    Download,
    /// Create the kept file.
    Create,
    /// Write what comes to the kept file.
    Write,
    /// Read the kept file back.
    ReadBack,
    /// The text is there.
    Done(String),
    /// It could not be had.
    Fail(String),
}

/// What an action is.
pub enum FetchStep {
    Download,
    Create,
    Write,
    ReadBack,
    Done(Seq<char>),
    Fail(Seq<char>),
}

impl View for FetchAction {
    type V = FetchStep;

    open spec fn view(&self) -> FetchStep {
        match *self {
            FetchAction::Download => FetchStep::Download,
            FetchAction::Create => FetchStep::Create,
            FetchAction::Write => FetchStep::Write,
            FetchAction::ReadBack => FetchStep::ReadBack,
            FetchAction::Done(text) => FetchStep::Done(text@),
            FetchAction::Fail(message) => FetchStep::Fail(message@),
        }
    }
}

/// What came of the last action: a text, which only reading gives, or what is wrong.
pub open spec fn outcome(result: Result<String, String>) -> Result<Seq<char>, Seq<char>> {
    match result {
        Ok(text) => Ok(text@),
        Err(error) => Err(error@),
    }
}

/// A message on a failure: what failed, of what, and the error.
pub open spec fn failure(what: Seq<char>, of: Seq<char>, error: Seq<char>) -> Seq<char> {
    what + of + ": "@ + error
}

/// Where what came of the last action leads. A kept file that can be read is enough; else the
/// file is downloaded, kept and read back, and the first failure on that way is told.
pub open spec fn fetch_next(
    phase: FetchPhase,
    result: Result<Seq<char>, Seq<char>>,
    url: Seq<char>,
    cache_file: Seq<char>,
) -> (FetchPhase, FetchStep) {
    match phase {
        FetchPhase::Looking => match result {
            Ok(text) => (phase, FetchStep::Done(text)),
            Err(_) => (FetchPhase::Downloading, FetchStep::Download),
        },
        FetchPhase::Downloading => match result {
            Ok(_) => (FetchPhase::Creating, FetchStep::Create),
            Err(error) => (phase, FetchStep::Fail(failure("Failed to download "@, url, error))),
        },
        FetchPhase::Creating => match result {
            Ok(_) => (FetchPhase::Writing, FetchStep::Write),
            Err(error) => (
                phase,
                FetchStep::Fail(failure("Failed to create cache file "@, cache_file, error)),
            ),
        },
        FetchPhase::Writing => match result {
            Ok(_) => (FetchPhase::Reading, FetchStep::ReadBack),
            Err(error) => (
                phase,
                FetchStep::Fail(failure("Failed to write cache file "@, cache_file, error)),
            ),
        },
        FetchPhase::Reading => match result {
            Ok(text) => (phase, FetchStep::Done(text)),
            Err(error) => (
                phase,
                FetchStep::Fail(failure("Failed to read cached "@, cache_file, error)),
            ),
        },
    }
}

fn failure_text(what: &str, of: &str, error: &str) -> (r: String)
    ensures
        r@ == failure(what@, of@, error@),
{
    let mut r = what.to_owned();
    r.append(of);
    r.append(": ");
    r.append(error);
    r
}

/// Carries the fetching of a file that is kept on by what came of the last action.
pub fn fetch_step(
    phase: FetchPhase,
    result: Result<String, String>,
    url: &str,
    cache_file: &str,
) -> (r: (FetchPhase, FetchAction))
    ensures
        (r.0, r.1@) == fetch_next(phase, outcome(result), url@, cache_file@),
{
    match (phase, result) {
        (FetchPhase::Looking, Ok(text)) => (phase, FetchAction::Done(text)),
        (FetchPhase::Looking, Err(_)) => (FetchPhase::Downloading, FetchAction::Download),
        (FetchPhase::Downloading, Ok(_)) => (FetchPhase::Creating, FetchAction::Create),
        (FetchPhase::Downloading, Err(error)) => (
            phase,
            FetchAction::Fail(failure_text("Failed to download ", url, error.as_str())),
        ),
        (FetchPhase::Creating, Ok(_)) => (FetchPhase::Writing, FetchAction::Write),
        (FetchPhase::Creating, Err(error)) => (
            phase,
            FetchAction::Fail(
                failure_text("Failed to create cache file ", cache_file, error.as_str()),
            ),
        ),
        (FetchPhase::Writing, Ok(_)) => (FetchPhase::Reading, FetchAction::ReadBack),
        (FetchPhase::Writing, Err(error)) => (
            phase,
            FetchAction::Fail(
                failure_text("Failed to write cache file ", cache_file, error.as_str()),
            ),
        ),
        (FetchPhase::Reading, Ok(text)) => (phase, FetchAction::Done(text)),
        (FetchPhase::Reading, Err(error)) => (
            phase,
            FetchAction::Fail(failure_text("Failed to read cached ", cache_file, error.as_str())),
        ),
    }
}

/// A kept file that can be read is taken as it is: nothing is downloaded, and its address does
/// not matter.
pub proof fn kept_file_is_enough(text: Seq<char>, url: Seq<char>, cache_file: Seq<char>)
    ensures
        fetch_next(FetchPhase::Looking, Ok(text), url, cache_file).1 == FetchStep::Done(text),
{
}

/// Where there is no kept file, downloading, creating and writing it, if all go well, lead to
/// reading it back, and what is read then is the result.
pub proof fn download_is_kept_and_read(
    downloaded: Seq<char>,
    created: Seq<char>,
    written: Seq<char>,
    text: Seq<char>,
    missing: Seq<char>,
    url: Seq<char>,
    cache_file: Seq<char>,
)
    ensures
        ({
            let first = fetch_next(FetchPhase::Looking, Err(missing), url, cache_file);
            let second = fetch_next(first.0, Ok(downloaded), url, cache_file);
            let third = fetch_next(second.0, Ok(created), url, cache_file);
            let fourth = fetch_next(third.0, Ok(written), url, cache_file);
            &&& first.1 is Download
            &&& second.1 is Create
            &&& third.1 is Write
            &&& fourth.1 is ReadBack
            &&& fetch_next(fourth.0, Ok(text), url, cache_file).1 == FetchStep::Done(text)
        }),
{
}

/// Past the kept file, a failure is the end of it and is told with its error.
pub proof fn failures_are_told(
    phase: FetchPhase,
    error: Seq<char>,
    url: Seq<char>,
    cache_file: Seq<char>,
)
    requires
        phase != FetchPhase::Looking,
    ensures
        fetch_next(phase, Err(error), url, cache_file).1 is Fail,
        (fetch_next(phase, Err(error), url, cache_file).1->Fail_0).skip(
            (fetch_next(phase, Err(error), url, cache_file).1->Fail_0).len() - error.len(),
        ) == error,
{
}

/// Where a map could not be had from.
#[derive(Clone, Copy, Debug, PartialEq, Eq, Structural)]
pub enum OsmFailure {
    /// Its file could not be read.
    File,
    /// The service could not be asked.
    Request,
    /// The service's answer could not be read.
    Response,
}

/// What is told of a map that could not be had.
pub open spec fn osm_failure_text(failed: OsmFailure, path: Seq<char>, error: Seq<char>) -> Seq<
    char,
> {
    match failed {
        OsmFailure::File => failure("Failed to read "@, path, error),
        OsmFailure::Request => "Overpass request failed: "@ + error,
        OsmFailure::Response => "Failed to read Overpass response: "@ + error,
    }
}

/// What is told of a map that could not be had. The path is that of its file, if it has one.
pub fn osm_failure(failed: OsmFailure, path: &str, error: &str) -> (r: String)
    ensures
        r@ == osm_failure_text(failed, path@, error@),
{
    match failed {
        OsmFailure::File => failure_text("Failed to read ", path, error),
        OsmFailure::Request => {
            let mut r = "Overpass request failed: ".to_owned();
            r.append(error);
            r
        },
        OsmFailure::Response => {
            let mut r = "Failed to read Overpass response: ".to_owned();
            r.append(error);
            r
        },
    }
}

/// A failure names what failed: the address where the download did, the kept file where creating,
/// writing or reading it did, and the error behind it, each whole.
pub proof fn failures_name_what_failed(error: Seq<char>, url: Seq<char>, cache_file: Seq<char>)
    ensures
        fetch_next(FetchPhase::Downloading, Err(error), url, cache_file).1 == FetchStep::Fail(
            "Failed to download "@ + url + ": "@ + error,
        ),
        fetch_next(FetchPhase::Creating, Err(error), url, cache_file).1 == FetchStep::Fail(
            "Failed to create cache file "@ + cache_file + ": "@ + error,
        ),
        fetch_next(FetchPhase::Writing, Err(error), url, cache_file).1 == FetchStep::Fail(
            "Failed to write cache file "@ + cache_file + ": "@ + error,
        ),
        fetch_next(FetchPhase::Reading, Err(error), url, cache_file).1 == FetchStep::Fail(
            "Failed to read cached "@ + cache_file + ": "@ + error,
        ),
{
}

/// A map that could not be had is told with its error whole, and with its path exactly where it was
/// to come from a file.
pub proof fn missing_maps_are_told(path: Seq<char>, other: Seq<char>, error: Seq<char>)
    ensures
        osm_failure_text(OsmFailure::File, path, error) == "Failed to read "@ + path + ": "@ + error,
        osm_failure_text(OsmFailure::Request, path, error) == osm_failure_text(
            OsmFailure::Request,
            other,
            error,
        ),
        osm_failure_text(OsmFailure::Response, path, error) == osm_failure_text(
            OsmFailure::Response,
            other,
            error,
        ),
        osm_failure_text(OsmFailure::Request, path, error).skip(25) == error,
        osm_failure_text(OsmFailure::Response, path, error).skip(34) == error,
{
    reveal_strlit("Overpass request failed: ");
    reveal_strlit("Failed to read Overpass response: ");
    assert(osm_failure_text(OsmFailure::Request, path, error).skip(25) == error);
    assert(osm_failure_text(OsmFailure::Response, path, error).skip(34) == error);
}

} // verus!
