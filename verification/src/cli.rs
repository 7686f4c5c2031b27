//! The command line: what to log, and which map to load.
use crate::text::{comma_free, comma_parts, joined, joined_parts_split_back, texts};
use vstd::prelude::*;
use vstd::string::*;

verus! {

/// The map that is loaded where nothing else is asked for: latitude and longitude of its south
/// west corner, then of its north east corner.
pub const DEFAULT_BBOX: &'static str = "40.748,-73.985,40.753,-73.978";

/// How much is logged.
#[derive(Clone, Copy, Debug, PartialEq, Eq, Structural)]
pub enum LogLevel {
    Info,
    Warn,
    Error,
    Debug,
}

/// The word behind the first occurrence of a flag.
pub open spec fn flag_value(args: Seq<Seq<char>>, flag: Seq<char>) -> Option<Seq<char>>
    decreases args.len(),
{
    if args.len() == 0 {
        None
    } else if args.first() == flag {
        if args.len() > 1 {
            Some(args[1])
        } else {
            None
        }
    } else {
        flag_value(args.drop_first(), flag)
    }
}

/// What an optional text says.
pub open spec fn said(text: Option<String>) -> Option<Seq<char>> {
    match text {
        Some(text) => Some(text@),
        None => None,
    }
}

/// The word behind the first occurrence of a flag. A flag that comes last has none.
fn value_of(args: &Vec<String>, flag: &str) -> (r: Option<String>)
    ensures
        said(r) == flag_value(texts(args@), flag@),
{
    let wanted = flag.to_owned();
    let ghost words = texts(args@);
    let mut i: usize = 0;
    assert(words.skip(0) == words);
    while i < args.len()
        invariant
            words == texts(args@),
            wanted@ == flag@,
            i <= args@.len(),
            flag_value(words, flag@) == flag_value(words.skip(i as int), flag@),
        decreases args@.len() - i,
    {
        assert(words.skip(i as int).first() == args@[i as int]@);
        assert(words.skip(i as int).drop_first() == words.skip(i + 1));
        if args[i] == wanted {
            if i + 1 < args.len() {
                return Some(args[i + 1].clone());
            }
            return None;
        }
        i = i + 1;
    }
    None
}

/// The level that a word names.
pub open spec fn level_named(word: Seq<char>) -> Option<LogLevel> {
    if word == "info"@ {
        Some(LogLevel::Info)
    } else if word == "warning"@ {
        Some(LogLevel::Warn)
    } else if word == "error"@ {
        Some(LogLevel::Error)
    } else if word == "debug"@ {
        Some(LogLevel::Debug)
    } else {
        None
    }
}

/// What `--log-level` asks for. Nothing is logged without it, nor for `none` or a word that
/// names no level.
pub fn parse_log_level(args: &Vec<String>) -> (r: Option<LogLevel>)
    ensures
        r == match flag_value(texts(args@), "--log-level"@) {
            Some(word) => level_named(word),
            None => None,
        },
{
    match value_of(args, "--log-level") {
        Some(word) => if word == "info".to_owned() {
            Some(LogLevel::Info)
        } else if word == "warning".to_owned() {
            Some(LogLevel::Warn)
        } else if word == "error".to_owned() {
            Some(LogLevel::Error)
        } else if word == "debug".to_owned() {
            Some(LogLevel::Debug)
        } else {
            None
        },
        None => None,
    }
}

/// The file that `--osm-file` names.
pub fn parse_osm_file(args: &Vec<String>) -> (r: Option<String>)
    ensures
        said(r) == flag_value(texts(args@), "--osm-file"@),
{
    value_of(args, "--osm-file")
}

/// The box that `--bbox` names, as it is written.
pub fn bbox_argument(args: &Vec<String>) -> (r: Option<String>)
    ensures
        said(r) == flag_value(texts(args@), "--bbox"@),
{
    value_of(args, "--bbox")
}

/// A number that a text stands for.
#[derive(Debug)]
pub struct Reading {
    /// The double-precision number, as its bit pattern.
    pub bits: u64,
    /// The number, written out.
    pub shown: String,
}

/// The magnitude of a double-precision number: the bits below its sign.
pub open spec fn double_magnitude(bits: u64) -> int {
    if bits < 0x8000_0000_0000_0000 {
        bits as int
    } else {
        bits - 0x8000_0000_0000_0000
    }
}

/// The double-precision number is a longitude that can be no latitude: its magnitude is above
/// `90.0`, and it is not NaN.
pub open spec fn beyond_latitude(bits: u64) -> bool {
    0x4056_8000_0000_0000 < double_magnitude(bits) <= 0x7ff0_0000_0000_0000
}

fn is_beyond_latitude(bits: u64) -> (r: bool)
    ensures
        r == beyond_latitude(bits),
{
    let magnitude: u64 = if bits < 0x8000_0000_0000_0000 {
        bits
    } else {
        bits - 0x8000_0000_0000_0000
    };
    0x4056_8000_0000_0000 < magnitude && magnitude <= 0x7ff0_0000_0000_0000
}

/// The numbers are taken longitude first: the first can only be a longitude, or the third can
/// while the second and the fourth can be latitudes.
pub open spec fn longitude_first(readings: Seq<Option<Reading>>) -> bool {
    ||| beyond_latitude(readings[0]->0.bits)
    ||| beyond_latitude(readings[2]->0.bits) && !beyond_latitude(readings[1]->0.bits)
        && !beyond_latitude(readings[3]->0.bits)
}

/// The box `input` in the order latitude, longitude, latitude, longitude.
///
/// `readings` are the numbers that the parts of the box stand for. The box is refused unless it
/// is four numbers. It is kept as it is written unless its numbers are taken longitude first:
/// then each pair of numbers is swapped.
pub open spec fn normalized(input: Seq<char>, readings: Seq<Option<Reading>>) -> Option<Seq<char>> {
    if comma_parts(input).len() != 4 || exists|i: int|
        0 <= i < 4 && (#[trigger] readings[i]) is None {
        None
    } else if longitude_first(readings) {
        Some(
            joined(
                seq![
                    readings[1]->0.shown@,
                    readings[0]->0.shown@,
                    readings[3]->0.shown@,
                    readings[2]->0.shown@,
                ],
            ),
        )
    } else {
        Some(input)
    }
}

/// The box in the order `south,west,north,east`, whether it is written that way or
/// `west,south,east,north`.
///
/// `readings` holds, for each part between commas, the number that it stands for, or nothing
/// where it is no number.
pub fn normalize_bbox(input: &str, readings: &Vec<Option<Reading>>) -> (r: Option<String>)
    requires
        readings@.len() == comma_parts(input@).len(),
    ensures
        said(r) == normalized(input@, readings@),
{
    if readings.len() != 4 {
        return None;
    }
    match (&readings[0], &readings[1], &readings[2], &readings[3]) {
        (Some(a), Some(b), Some(c), Some(d)) => {
            assert(forall|i: int| 0 <= i < 4 ==> (#[trigger] readings@[i]) is Some);
            if is_beyond_latitude(a.bits) || (is_beyond_latitude(c.bits) && !is_beyond_latitude(
                b.bits,
            ) && !is_beyond_latitude(d.bits)) {
                let mut r = b.shown.clone();
                r.append(",");
                r.append(a.shown.as_str());
                r.append(",");
                r.append(d.shown.as_str());
                r.append(",");
                r.append(c.shown.as_str());
                proof {
                    reveal_strlit(",");
                    lemma_four_joined(b.shown@, a.shown@, d.shown@, c.shown@);
                    assert(","@ == seq![',']);
                }
                Some(r)
            } else {
                Some(input.to_owned())
            }
        },
        _ => None,
    }
}

proof fn lemma_four_joined(a: Seq<char>, b: Seq<char>, c: Seq<char>, d: Seq<char>)
    ensures
        joined(seq![a, b, c, d]) == a + seq![','] + b + seq![','] + c + seq![','] + d,
{
    reveal_with_fuel(joined, 4);
    assert(seq![a, b, c, d].drop_last() == seq![a, b, c]);
    assert(seq![a, b, c].drop_last() == seq![a, b]);
    assert(seq![a, b].drop_last() == seq![a]);
}

/// The region that was picked on the world map.
#[derive(Debug)]
pub struct SelectedRegion {
    pub bbox: Option<String>,
}

impl Default for SelectedRegion {
    fn default() -> (r: SelectedRegion)
        ensures
            r.bbox is None,
    {
        SelectedRegion { bbox: None }
    }
}

/// The box to load: the one on the command line, normalised where it can be; else the one
/// picked on the world map; else the default.
pub open spec fn chosen_bbox(
    args: Seq<Seq<char>>,
    readings: Seq<Option<Reading>>,
    region: Option<Seq<char>>,
) -> Seq<char> {
    match flag_value(args, "--bbox"@) {
        Some(input) => match normalized(input, readings) {
            Some(bbox) => bbox,
            None => input,
        },
        None => match region {
            Some(bbox) => bbox,
            None => DEFAULT_BBOX@,
        },
    }
}

/// The readings belong to the box on the command line, where there is one.
pub open spec fn readings_fit(args: Seq<Seq<char>>, readings: Seq<Option<Reading>>) -> bool {
    flag_value(args, "--bbox"@) matches Some(input) ==> readings.len() == comma_parts(input).len()
}

/// The box to load. `readings` are the numbers in the parts of [`bbox_argument`].
pub fn parse_bbox(
    args: &Vec<String>,
    readings: &Vec<Option<Reading>>,
    region: &SelectedRegion,
) -> (r: String)
    requires
        readings_fit(texts(args@), readings@),
    ensures
        r@ == chosen_bbox(texts(args@), readings@, said(region.bbox)),
{
    if let Some(input) = bbox_argument(args) {
        return match normalize_bbox(input.as_str(), readings) {
            Some(bbox) => bbox,
            None => input,
        };
    }
    match &region.bbox {
        Some(bbox) => bbox.clone(),
        None => DEFAULT_BBOX.to_owned(),
    }
}

/// Where the map comes from.
#[derive(Debug)]
pub enum OsmSource {
    /// A file.
    File(String),
    /// The Overpass service, for a box.
    Overpass(String),
}

/// Where the map comes from: a file if one is named on the command line, else the Overpass
/// service. `readings` are the numbers in the parts of [`bbox_argument`].
pub fn choose_osm_source(
    args: &Vec<String>,
    readings: &Vec<Option<Reading>>,
    region: &SelectedRegion,
) -> (r: OsmSource)
    requires
        readings_fit(texts(args@), readings@),
    ensures
        match flag_value(texts(args@), "--osm-file"@) {
            Some(path) => r matches OsmSource::File(file) && file@ == path,
            None => r matches OsmSource::Overpass(bbox) && bbox@ == chosen_bbox(
                texts(args@),
                readings@,
                said(region.bbox),
            ),
        },
{
    match parse_osm_file(args) {
        Some(path) => OsmSource::File(path),
        None => OsmSource::Overpass(parse_bbox(args, readings, region)),
    }
}

/// The Overpass query for the roads and buildings in a box.
pub open spec fn query_for(bbox: Seq<char>) -> Seq<char> {
    "[out:xml];\n(\n  way[\"highway\"]("@ + bbox + ");\n  way[\"building\"]("@ + bbox
        + ");\n);\n(._;>;);\nout body;"@
}

/// The Overpass query for the roads and buildings in a box.
pub fn overpass_query(bbox: &str) -> (r: String)
    ensures
        r@ == query_for(bbox@),
{
    let mut r = "[out:xml];\n(\n  way[\"highway\"](".to_owned();
    r.append(bbox);
    r.append(");\n  way[\"building\"](");
    r.append(bbox);
    r.append(");\n);\n(._;>;);\nout body;");
    r
}

/// A box that is written longitude first comes out as four numbers with each pair swapped.
pub proof fn url_order_is_swapped(input: Seq<char>, readings: Seq<Option<Reading>>)
    requires
        comma_parts(input).len() == 4,
        forall|i: int| 0 <= i < 4 ==> (#[trigger] readings[i]) is Some && comma_free(
            readings[i]->0.shown@,
        ),
        longitude_first(readings),
    ensures
        normalized(input, readings) is Some,
        comma_parts(normalized(input, readings)->0) == seq![
            readings[1]->0.shown@,
            readings[0]->0.shown@,
            readings[3]->0.shown@,
            readings[2]->0.shown@,
        ],
{
    let parts = seq![
        readings[1]->0.shown@,
        readings[0]->0.shown@,
        readings[3]->0.shown@,
        readings[2]->0.shown@,
    ];
    assert(readings[0] is Some && readings[1] is Some && readings[2] is Some && readings[3] is Some);
    joined_parts_split_back(parts);
}

/// A box whose numbers are not taken longitude first is taken as it is written.
pub proof fn overpass_order_is_kept(input: Seq<char>, readings: Seq<Option<Reading>>)
    requires
        comma_parts(input).len() == 4,
        forall|i: int| 0 <= i < 4 ==> (#[trigger] readings[i]) is Some,
        !longitude_first(readings),
    ensures
        normalized(input, readings) == Some(input),
{
}

/// The numbers of a normalised box, in its order.
pub open spec fn normalized_readings(readings: Seq<Option<Reading>>) -> Seq<Option<Reading>> {
    if longitude_first(readings) {
        seq![readings[1], readings[0], readings[3], readings[2]]
    } else {
        readings
    }
}

/// A normalised box is normalised to itself: `again` holds the numbers that its parts stand for.
/// Where pairs were swapped, the second number, which then came first, has to be able to be a
/// latitude.
pub proof fn normalized_box_stays(
    input: Seq<char>,
    readings: Seq<Option<Reading>>,
    again: Seq<Option<Reading>>,
)
    requires
        normalized(input, readings) is Some,
        forall|i: int| 0 <= i < 4 ==> comma_free((#[trigger] readings[i])->0.shown@),
        forall|i: int| 0 <= i < 4 ==> (#[trigger] again[i]) is Some && again[i]->0.bits
            == normalized_readings(readings)[i]->0.bits,
        longitude_first(readings) ==> !beyond_latitude(readings[1]->0.bits),
    ensures
        normalized(normalized(input, readings)->0, again) == normalized(input, readings),
{
    assert forall|i: int| 0 <= i < 4 implies (#[trigger] readings[i]) is Some by {}
    assert(again[0] is Some && again[1] is Some && again[2] is Some && again[3] is Some);
    if longitude_first(readings) {
        url_order_is_swapped(input, readings);
    }
}

/// A flag is found wherever it first stands, and the word behind it is its value.
pub proof fn flag_is_found(args: Seq<Seq<char>>, flag: Seq<char>, k: int)
    requires
        0 <= k < args.len() - 1,
        args[k] == flag,
        forall|i: int| 0 <= i < k ==> #[trigger] args[i] != flag,
    ensures
        flag_value(args, flag) == Some(args[k + 1]),
    decreases args.len(),
{
    if k > 0 {
        assert(args[0] != flag);
        let rest = args.drop_first();
        assert forall|i: int| 0 <= i < k - 1 implies #[trigger] rest[i] != flag by {
            assert(rest[i] == args[i + 1]);
        }
        flag_is_found(rest, flag, k - 1);
    }
}

/// A flag that is not there, or that only comes last, has no value.
pub proof fn flag_without_value(args: Seq<Seq<char>>, flag: Seq<char>)
    requires
        forall|i: int| 0 <= i < args.len() - 1 ==> #[trigger] args[i] != flag,
    ensures
        flag_value(args, flag) is None,
    decreases args.len(),
{
    if args.len() > 1 {
        assert(args[0] != flag);
        let rest = args.drop_first();
        assert forall|i: int| 0 <= i < rest.len() - 1 implies #[trigger] rest[i] != flag by {
            assert(rest[i] == args[i + 1]);
        }
        flag_without_value(rest, flag);
    } else if args.len() == 1 && args[0] != flag {
        assert(args.drop_first().len() == 0);
        reveal_with_fuel(flag_value, 2);
    }
}

/// Four words name a level each, and no other word names one.
pub proof fn four_words_name_levels(word: Seq<char>)
    ensures
        level_named("info"@) == Some(LogLevel::Info),
        level_named("warning"@) == Some(LogLevel::Warn),
        level_named("error"@) == Some(LogLevel::Error),
        level_named("debug"@) == Some(LogLevel::Debug),
        word != "info"@ && word != "warning"@ && word != "error"@ && word != "debug"@
            ==> level_named(word) is None,
{
    reveal_strlit("info");
    reveal_strlit("warning");
    reveal_strlit("error");
    reveal_strlit("debug");
    assert("info"@.len() == 4 && "warning"@.len() == 7 && "error"@.len() == 5);
    assert("debug"@[0] == 'd' && "error"@[0] == 'e');
}

/// A number is beyond latitude exactly where its size is above ninety: both signs alike, and NaN
/// never.
pub proof fn latitudes_end_at_ninety(bits: u64)
    ensures
        bits < 0x8000_0000_0000_0000 ==> (beyond_latitude(bits) <==> 0x4056_8000_0000_0000 < bits
            <= 0x7ff0_0000_0000_0000),
        bits >= 0x8000_0000_0000_0000 ==> (beyond_latitude(bits) <==> 0xc056_8000_0000_0000 < bits
            <= 0xfff0_0000_0000_0000),
{
}

/// What becomes of a box is told by its numbers: it is refused unless it is four of them; its pairs
/// are swapped where the first is beyond latitude, or where the third is and neither of the others
/// that would be latitudes then; else it stays as it is written.
pub proof fn box_follows_its_numbers(input: Seq<char>, readings: Seq<Option<Reading>>)
    ensures
        comma_parts(input).len() != 4 ==> normalized(input, readings) is None,
        readings[0] is None || readings[1] is None || readings[2] is None || readings[3] is None
            ==> normalized(input, readings) is None,
        comma_parts(input).len() == 4 && readings[0] is Some && readings[1] is Some
            && readings[2] is Some && readings[3] is Some ==> {
            let first = beyond_latitude(readings[0]->0.bits);
            let second = beyond_latitude(readings[1]->0.bits);
            let third = beyond_latitude(readings[2]->0.bits);
            let fourth = beyond_latitude(readings[3]->0.bits);
            let swapped = readings[1]->0.shown@ + seq![','] + readings[0]->0.shown@ + seq![',']
                + readings[3]->0.shown@ + seq![','] + readings[2]->0.shown@;
            &&& first ==> normalized(input, readings) == Some(swapped)
            &&& third && !second && !fourth ==> normalized(input, readings) == Some(swapped)
            &&& !first && !third ==> normalized(input, readings) == Some(input)
            &&& !first && (second || fourth) ==> normalized(input, readings) == Some(input)
        },
{
    if readings[0] is Some && readings[1] is Some && readings[2] is Some && readings[3] is Some {
        lemma_four_joined(
            readings[1]->0.shown@,
            readings[0]->0.shown@,
            readings[3]->0.shown@,
            readings[2]->0.shown@,
        );
        assert(forall|i: int| 0 <= i < 4 ==> (#[trigger] readings[i]) is Some);
    }
}

/// The box on the command line goes before the one that was picked, and that before the default; a
/// box on the command line that is refused is taken as it is written.
pub proof fn box_is_chosen_in_order(
    args: Seq<Seq<char>>,
    readings: Seq<Option<Reading>>,
    region: Option<Seq<char>>,
    input: Seq<char>,
)
    ensures
        flag_value(args, "--bbox"@) == Some(input) && normalized(input, readings) is Some
            ==> chosen_bbox(args, readings, region) == normalized(input, readings)->0,
        flag_value(args, "--bbox"@) == Some(input) && normalized(input, readings) is None
            ==> chosen_bbox(args, readings, region) == input,
        flag_value(args, "--bbox"@) is None && region is Some ==> chosen_bbox(args, readings, region)
            == region->0,
        flag_value(args, "--bbox"@) is None && region is None ==> chosen_bbox(args, readings, region)
            == "40.748,-73.985,40.753,-73.978"@,
{
}

/// A query names its box twice, for roads and for buildings, and is the same for every box but for
/// that.
pub proof fn query_names_its_box_twice(bbox: Seq<char>)
    ensures
        ({
            let n = bbox.len() as int;
            let query = query_for(bbox);
            let blank = query_for(Seq::empty());
            &&& query.len() == blank.len() + 2 * n
            &&& query.take(30) == "[out:xml];\n(\n  way[\"highway\"]("@
            &&& query.subrange(30, 30 + n) == bbox
            &&& query.subrange(30 + n, 51 + n) == ");\n  way[\"building\"]("@
            &&& query.subrange(51 + n, 51 + 2 * n) == bbox
            &&& query.skip(51 + 2 * n) == blank.skip(51)
        }),
{
    reveal_strlit("[out:xml];\n(\n  way[\"highway\"](");
    reveal_strlit(");\n  way[\"building\"](");
    let n = bbox.len() as int;
    let query = query_for(bbox);
    let blank = query_for(Seq::empty());
    assert("[out:xml];\n(\n  way[\"highway\"]("@.len() == 30);
    assert(");\n  way[\"building\"]("@.len() == 21);
    assert(query.take(30) == "[out:xml];\n(\n  way[\"highway\"]("@);
    assert(query.subrange(30, 30 + n) == bbox);
    assert(query.subrange(30 + n, 51 + n) == ");\n  way[\"building\"]("@);
    assert(query.subrange(51 + n, 51 + 2 * n) == bbox);
    assert(query.skip(51 + 2 * n) == blank.skip(51));
}

} // verus!
