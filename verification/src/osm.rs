//! OpenStreetMap data: from an XML document to roads and building footprints.
//!
//! A document is read in three steps. [`parse_osm`] notes what its elements say, with
//! coordinates and heights still as text. [`resolve_survey`] takes the numbers that those
//! texts stand for and tells roads from buildings. [`assemble`] takes the place of each node
//! in the local plane and lays the points out.
use crate::geometry::{drop_closing_point, opened, origin, pieces, polyline_pieces, vec3, Vec3};
use crate::single::{Single, INFINITY, ZERO};
use crate::text::{leading_number, number_text, parse_i64, parsed_i64};
use crate::xml::{
    read_xml, slot_view, slots_view, stops_at_last, xml_tokens, AttributeView, Token, XmlAttribute, XmlEvent,
};
use std::collections::HashMap;
use vstd::prelude::*;
use vstd::string::*;
use vstd::utf8::encode_utf8;

verus! {

broadcast use vstd::std_specs::hash::group_hash_axioms;

/// The height of a building of which none is given, in metres: `8.0`.
pub const DEFAULT_BUILDING_HEIGHT_M: u32 = 0x4100_0000;

/// The height of one building level, in metres: `3.0`.
pub const METERS_PER_LEVEL: u32 = 0x4040_0000;

/// A node as the document gives it.
#[derive(Debug)]
pub struct NodeText {
    pub id: i64,
    pub lat: String,
    pub lon: String,
}

/// A tag of a way that bears on what the way is.
#[derive(Debug)]
pub enum WayTag {
    /// The way is a road.
    Highway,
    /// The way is a building.
    Building,
    /// The height of a building in metres, as text.
    Height(String),
    /// The number of levels of a building, as text.
    Levels(String),
}

/// A way as the document gives it.
#[derive(Debug)]
pub struct WayText {
    pub id: i64,
    pub refs: Vec<i64>,
    pub tags: Vec<WayTag>,
}

/// What has been read of a document.
#[derive(Debug)]
pub struct OsmSurvey {
    pub nodes: Vec<NodeText>,
    pub ways: Vec<WayText>,
    /// The way whose end tag is still to come.
    pub open_way: Option<WayText>,
}

/// What a node says.
pub struct NodeView {
    pub id: i64,
    pub lat: Seq<char>,
    pub lon: Seq<char>,
}

/// What a way's tag says.
pub enum TagView {
    Highway,
    Building,
    Height(Seq<char>),
    Levels(Seq<char>),
}

/// What a way says.
pub struct WayView {
    pub id: i64,
    pub refs: Seq<i64>,
    pub tags: Seq<TagView>,
}

/// What a survey says.
pub struct SurveyView {
    pub nodes: Seq<NodeView>,
    pub ways: Seq<WayView>,
    pub open_way: Option<WayView>,
}

impl View for NodeText {
    type V = NodeView;

    open spec fn view(&self) -> NodeView {
        NodeView { id: self.id, lat: self.lat@, lon: self.lon@ }
    }
}

impl View for WayTag {
    type V = TagView;

    open spec fn view(&self) -> TagView {
        match *self {
            WayTag::Highway => TagView::Highway,
            WayTag::Building => TagView::Building,
            WayTag::Height(text) => TagView::Height(text@),
            WayTag::Levels(text) => TagView::Levels(text@),
        }
    }
}

impl View for WayText {
    type V = WayView;

    open spec fn view(&self) -> WayView {
        WayView {
            id: self.id,
            refs: self.refs@,
            tags: self.tags@.map_values(|tag: WayTag| tag@),
        }
    }
}

impl View for OsmSurvey {
    type V = SurveyView;

    open spec fn view(&self) -> SurveyView {
        SurveyView {
            nodes: self.nodes@.map_values(|node: NodeText| node@),
            ways: self.ways@.map_values(|way: WayText| way@),
            open_way: match self.open_way {
                Some(way) => Some(way@),
                None => None,
            },
        }
    }
}

/// The value of the first attribute of that name; nothing where there is none or where its
/// escapes do not resolve.
pub open spec fn first_value(attributes: Seq<Option<AttributeView>>, key: Seq<u8>) -> Option<
    Seq<char>,
>
    decreases attributes.len(),
{
    if attributes.len() == 0 {
        None
    } else {
        match attributes.first() {
            Some(attribute) if attribute.key == key => attribute.value,
            _ => first_value(attributes.drop_first(), key),
        }
    }
}

/// The value of the last attribute of that name; nothing where there is none or where its
/// escapes do not resolve.
pub open spec fn last_value(attributes: Seq<Option<AttributeView>>, key: Seq<u8>) -> Option<
    Seq<char>,
>
    decreases attributes.len(),
{
    if attributes.len() == 0 {
        None
    } else {
        match attributes.last() {
            Some(attribute) if attribute.key == key => attribute.value,
            _ => last_value(attributes.drop_last(), key),
        }
    }
}

/// The integer that a value writes.
pub open spec fn integer_value(value: Option<Seq<char>>) -> Option<i64> {
    match value {
        Some(text) => parsed_i64(text),
        None => None,
    }
}

/// The node that a `node` element describes, where it has an id and both coordinates.
pub open spec fn node_of(attributes: Seq<Option<AttributeView>>) -> Option<NodeView> {
    match (
        integer_value(last_value(attributes, encode_utf8("id"@))),
        last_value(attributes, encode_utf8("lat"@)),
        last_value(attributes, encode_utf8("lon"@)),
    ) {
        (Some(id), Some(lat), Some(lon)) => Some(NodeView { id, lat, lon }),
        _ => None,
    }
}

/// The way that a `way` element begins. Without a readable id it has id 0.
pub open spec fn way_of(attributes: Seq<Option<AttributeView>>) -> WayView {
    WayView {
        id: match integer_value(first_value(attributes, encode_utf8("id"@))) {
            Some(id) => id,
            None => 0,
        },
        refs: Seq::empty(),
        tags: Seq::empty(),
    }
}

/// What a `tag` element says of its way, where that bears on what the way is.
pub open spec fn tag_of(attributes: Seq<Option<AttributeView>>) -> Option<TagView> {
    let value = first_value(attributes, encode_utf8("v"@));
    match first_value(attributes, encode_utf8("k"@)) {
        Some(key) => if key == "highway"@ {
            Some(TagView::Highway)
        } else if key == "building"@ {
            Some(TagView::Building)
        } else if key == "height"@ {
            match value {
                Some(text) => Some(TagView::Height(leading_number(text))),
                None => None,
            }
        } else if key == "building:levels"@ {
            match value {
                Some(text) => Some(TagView::Levels(text)),
                None => None,
            }
        } else {
            None
        },
        None => None,
    }
}

/// The survey before anything is read.
pub open spec fn nothing_read() -> SurveyView {
    SurveyView { nodes: Seq::empty(), ways: Seq::empty(), open_way: None }
}

/// The survey after one more event.
pub open spec fn absorbed(survey: SurveyView, token: Token) -> SurveyView {
    match token {
        Token::Open { name, attributes } => {
            if name == encode_utf8("node"@) {
                match node_of(attributes) {
                    Some(node) => SurveyView { nodes: survey.nodes.push(node), ..survey },
                    None => survey,
                }
            } else if name == encode_utf8("way"@) {
                SurveyView { open_way: Some(way_of(attributes)), ..survey }
            } else if name == encode_utf8("nd"@) {
                match (
                    survey.open_way,
                    integer_value(first_value(attributes, encode_utf8("ref"@))),
                ) {
                    (Some(way), Some(id)) => SurveyView {
                        open_way: Some(WayView { refs: way.refs.push(id), ..way }),
                        ..survey
                    },
                    _ => survey,
                }
            } else if name == encode_utf8("tag"@) {
                match (survey.open_way, tag_of(attributes)) {
                    (Some(way), Some(tag)) => SurveyView {
                        open_way: Some(WayView { tags: way.tags.push(tag), ..way }),
                        ..survey
                    },
                    _ => survey,
                }
            } else {
                survey
            }
        },
        Token::Close { name } => {
            if name == encode_utf8("way"@) {
                match survey.open_way {
                    Some(way) => SurveyView {
                        ways: survey.ways.push(way),
                        open_way: None,
                        ..survey
                    },
                    None => survey,
                }
            } else {
                survey
            }
        },
        _ => survey,
    }
}

/// What is surveyed once the events have been read up to the end of the document, or the
/// error that comes first.
pub open spec fn surveyed_from(survey: SurveyView, tokens: Seq<Token>) -> Result<
    SurveyView,
    Seq<char>,
>
    decreases tokens.len(),
{
    if tokens.len() == 0 {
        Ok(survey)
    } else {
        match tokens.first() {
            Token::Eof => Ok(survey),
            Token::Failed { message } => Err("XML parse error: "@ + message),
            token => surveyed_from(absorbed(survey, token), tokens.drop_first()),
        }
    }
}

/// What a document's events say.
pub open spec fn surveyed(tokens: Seq<Token>) -> Result<SurveyView, Seq<char>> {
    surveyed_from(nothing_read(), tokens)
}

/// What events say, in order.
pub open spec fn tokens_of(events: Seq<XmlEvent>) -> Seq<Token> {
    events.map_values(|event: XmlEvent| event@)
}

/// What a survey or its error says.
pub open spec fn survey_result(r: Result<OsmSurvey, String>) -> Result<SurveyView, Seq<char>> {
    match r {
        Ok(survey) => Ok(survey@),
        Err(message) => Err(message@),
    }
}

/// What an optional text says.
pub open spec fn text_of(text: Option<&String>) -> Option<Seq<char>> {
    match text {
        Some(text) => Some(text@),
        None => None,
    }
}

/// Whether a name is that word.
fn is_word(name: &Vec<u8>, word: &str) -> (r: bool)
    ensures
        r == (name@ == encode_utf8(word@)),
{
    let bytes = word.as_bytes();
    if name.len() != bytes.len() {
        return false;
    }
    let mut i: usize = 0;
    while i < name.len()
        invariant
            bytes@ == encode_utf8(word@),
            name@.len() == bytes@.len(),
            i <= name@.len(),
            name@.take(i as int) == bytes@.take(i as int),
        decreases name@.len() - i,
    {
        if name[i] != bytes[i] {
            return false;
        }
        assert(name@.take(i + 1) == name@.take(i as int).push(name@[i as int]));
        assert(bytes@.take(i + 1) == bytes@.take(i as int).push(bytes@[i as int]));
        i = i + 1;
    }
    assert(name@.take(i as int) == name@);
    assert(bytes@.take(i as int) == bytes@);
    true
}

/// The value of the first attribute of that name.
fn find_first<'a>(attributes: &'a Vec<Option<XmlAttribute>>, key: &str) -> (r: Option<&'a String>)
    ensures
        text_of(r) == first_value(slots_view(attributes@), encode_utf8(key@)),
{
    let ghost slots = slots_view(attributes@);
    let mut i: usize = 0;
    assert(slots.skip(0) == slots);
    while i < attributes.len()
        invariant
            slots == slots_view(attributes@),
            i <= attributes@.len(),
            first_value(slots, encode_utf8(key@)) == first_value(
                slots.skip(i as int),
                encode_utf8(key@),
            ),
        decreases attributes@.len() - i,
    {
        assert(slots.skip(i as int).first() == slot_view(attributes@[i as int]));
        assert(slots.skip(i as int).drop_first() == slots.skip(i + 1));
        if let Some(attribute) = &attributes[i] {
            if is_word(&attribute.0, key) {
                return attribute.1.as_ref();
            }
        }
        i = i + 1;
    }
    None
}

/// The value of the last attribute of that name.
fn find_last<'a>(attributes: &'a Vec<Option<XmlAttribute>>, key: &str) -> (r: Option<&'a String>)
    ensures
        text_of(r) == last_value(slots_view(attributes@), encode_utf8(key@)),
{
    let ghost slots = slots_view(attributes@);
    let mut i: usize = attributes.len();
    assert(slots.take(i as int) == slots);
    while i > 0
        invariant
            slots == slots_view(attributes@),
            i <= attributes@.len(),
            last_value(slots, encode_utf8(key@)) == last_value(
                slots.take(i as int),
                encode_utf8(key@),
            ),
        decreases i,
    {
        assert(slots.take(i as int).last() == slot_view(attributes@[i - 1]));
        assert(slots.take(i as int).drop_last() == slots.take(i - 1));
        i = i - 1;
        if let Some(attribute) = &attributes[i] {
            if is_word(&attribute.0, key) {
                return attribute.1.as_ref();
            }
        }
    }
    None
}

/// The integer that a value writes.
fn integer(value: Option<&String>) -> (r: Option<i64>)
    ensures
        r == integer_value(text_of(value)),
{
    match value {
        Some(text) => parse_i64(text.as_str()),
        None => None,
    }
}

/// What a `tag` element says of its way.
fn read_tag(attributes: &Vec<Option<XmlAttribute>>) -> (r: Option<WayTag>)
    ensures
        tag_of(slots_view(attributes@)) == match r {
            Some(tag) => Some(tag@),
            None => None,
        },
{
    let value = find_first(attributes, "v");
    match find_first(attributes, "k") {
        Some(key) => {
            if *key == "highway".to_owned() {
                Some(WayTag::Highway)
            } else if *key == "building".to_owned() {
                Some(WayTag::Building)
            } else if *key == "height".to_owned() {
                match value {
                    Some(text) => Some(WayTag::Height(number_text(text.as_str()))),
                    None => None,
                }
            } else if *key == "building:levels".to_owned() {
                match value {
                    Some(text) => Some(WayTag::Levels(text.clone())),
                    None => None,
                }
            } else {
                None
            }
        },
        None => None,
    }
}

impl OsmSurvey {
    /// A survey of which nothing has been read.
    pub fn new() -> (r: OsmSurvey)
        ensures
            r@ == nothing_read(),
    {
        let r = OsmSurvey { nodes: Vec::new(), ways: Vec::new(), open_way: None };
        assert(r@.nodes == nothing_read().nodes);
        assert(r@.ways == nothing_read().ways);
        r
    }

    /// Notes what one more event says.
    pub fn absorb(&mut self, event: &XmlEvent)
        ensures
            final(self)@ == absorbed(old(self)@, event@),
    {
        let ghost before = self@;
        match event {
            XmlEvent::Open { name, attributes } => {
                if is_word(name, "node") {
                    self.absorb_node(attributes);
                } else if is_word(name, "way") {
                    let id = match integer(find_first(attributes, "id")) {
                        Some(id) => id,
                        None => 0,
                    };
                    let way = WayText { id, refs: Vec::new(), tags: Vec::new() };
                    assert(way@.refs == way_of(slots_view(attributes@)).refs);
                    assert(way@.tags == way_of(slots_view(attributes@)).tags);
                    self.open_way = Some(way);
                } else if is_word(name, "nd") {
                    let id = integer(find_first(attributes, "ref"));
                    if let Some(mut way) = self.open_way.take() {
                        if let Some(id) = id {
                            way.refs.push(id);
                        }
                        self.open_way = Some(way);
                    }
                } else if is_word(name, "tag") {
                    if let Some(mut way) = self.open_way.take() {
                        if let Some(tag) = read_tag(attributes) {
                            let ghost tags = way@.tags;
                            way.tags.push(tag);
                            assert(way@.tags == tags.push(tag@));
                        }
                        self.open_way = Some(way);
                    }
                }
            },
            XmlEvent::Close { name } => {
                if is_word(name, "way") {
                    if let Some(way) = self.open_way.take() {
                        self.ways.push(way);
                        assert(self@.ways == before.ways.push(way@));
                    }
                }
            },
            _ => {},
        }
    }

    fn absorb_node(&mut self, attributes: &Vec<Option<XmlAttribute>>)
        ensures
            final(self)@ == match node_of(slots_view(attributes@)) {
                Some(node) => SurveyView { nodes: old(self)@.nodes.push(node), ..old(self)@ },
                None => old(self)@,
            },
    {
        let ghost before = self@;
        let id = integer(find_last(attributes, "id"));
        let lat = find_last(attributes, "lat");
        let lon = find_last(attributes, "lon");
        if let (Some(id), Some(lat), Some(lon)) = (id, lat, lon) {
            let node = NodeText { id, lat: lat.clone(), lon: lon.clone() };
            self.nodes.push(node);
            assert(self@.nodes == before.nodes.push(node@));
        }
    }
}

/// Notes what a document's events say, up to the end of the document. The first error among
/// them is the result instead.
pub fn survey_events(events: &Vec<XmlEvent>) -> (r: Result<OsmSurvey, String>)
    ensures
        survey_result(r) == surveyed(tokens_of(events@)),
{
    let ghost tokens = tokens_of(events@);
    let mut survey = OsmSurvey::new();
    let mut i: usize = 0;
    assert(tokens.skip(0) == tokens);
    while i < events.len()
        invariant
            tokens == tokens_of(events@),
            i <= events@.len(),
            surveyed(tokens) == surveyed_from(survey@, tokens.skip(i as int)),
        decreases events@.len() - i,
    {
        assert(tokens.skip(i as int).first() == events@[i as int]@);
        assert(tokens.skip(i as int).drop_first() == tokens.skip(i + 1));
        match &events[i] {
            XmlEvent::Eof => {
                return Ok(survey);
            },
            XmlEvent::Failed { message } => {
                return Err("XML parse error: ".to_owned().concat(message.as_str()));
            },
            event => {
                survey.absorb(event);
            },
        }
        i = i + 1;
    }
    Ok(survey)
}

/// Notes what an OpenStreetMap document says of nodes and ways, or tells what is wrong with
/// its XML.
pub fn parse_osm(xml: &str) -> (r: Result<OsmSurvey, String>)
    ensures
        survey_result(r) == surveyed(xml_tokens(xml@)),
        stops_at_last(xml_tokens(xml@)),
{
    let events = read_xml(xml);
    survey_events(&events)
}

/// A building's outline by its nodes, and its height in metres.
#[derive(Debug)]
pub struct BuildingRefs {
    pub refs: Vec<i64>,
    pub height: Single,
}

/// A map with its numbers read: where the nodes are, and which nodes roads and buildings
/// run through.
#[derive(Debug)]
pub struct OsmMap {
    /// Latitude and longitude of each node, as bit patterns of double-precision degrees.
    pub nodes: HashMap<i64, (u64, u64)>,
    pub roads: Vec<Vec<i64>>,
    pub buildings: Vec<BuildingRefs>,
}

/// What a way is.
#[derive(Clone, Copy, Debug, PartialEq, Eq, Structural)]
pub enum WayKind {
    Highway,
    Building { height: Single },
}

/// Where the nodes are: of nodes with one id the last one that has coordinates counts.
pub open spec fn located(nodes: Seq<NodeView>, coordinates: Seq<Option<(u64, u64)>>) -> Map<
    i64,
    (u64, u64),
>
    decreases nodes.len(),
{
    if nodes.len() == 0 {
        Map::empty()
    } else {
        let before = located(nodes.drop_last(), coordinates);
        match coordinates[nodes.len() - 1] {
            Some(place) => before.insert(nodes.last().id, place),
            None => before,
        }
    }
}

/// What one more tag makes of a way. `number` is the height in metres that the tag's text
/// gives, or nothing where that is no number.
///
/// `height` only refines a building; `building:levels` makes a building of any way.
pub open spec fn retagged(kind: Option<WayKind>, tag: TagView, number: Option<Single>) -> Option<
    WayKind,
> {
    match tag {
        TagView::Highway => Some(WayKind::Highway),
        TagView::Building => Some(
            WayKind::Building { height: Single { bits: DEFAULT_BUILDING_HEIGHT_M } },
        ),
        TagView::Height(_) => match (kind, number) {
            (Some(WayKind::Building { .. }), Some(height)) => Some(WayKind::Building { height }),
            _ => kind,
        },
        TagView::Levels(_) => match number {
            Some(height) => Some(WayKind::Building { height }),
            None => kind,
        },
    }
}

/// What a way is by its tags, the first first.
pub open spec fn way_kind(tags: Seq<TagView>, numbers: Seq<Option<Single>>) -> Option<WayKind>
    decreases tags.len(),
{
    if tags.len() == 0 {
        None
    } else {
        retagged(way_kind(tags.drop_last(), numbers), tags.last(), numbers[tags.len() - 1])
    }
}

/// The roads among the ways: those of at least two nodes.
pub open spec fn road_refs(ways: Seq<WayView>, numbers: Seq<Seq<Option<Single>>>) -> Seq<Seq<i64>>
    decreases ways.len(),
{
    if ways.len() == 0 {
        Seq::empty()
    } else {
        let before = road_refs(ways.drop_last(), numbers);
        let way = ways.last();
        match way_kind(way.tags, numbers[ways.len() - 1]) {
            Some(WayKind::Highway) if way.refs.len() >= 2 => before.push(way.refs),
            _ => before,
        }
    }
}

/// The buildings among the ways: those of at least three nodes.
pub open spec fn building_refs(ways: Seq<WayView>, numbers: Seq<Seq<Option<Single>>>) -> Seq<
    (Seq<i64>, Single),
>
    decreases ways.len(),
{
    if ways.len() == 0 {
        Seq::empty()
    } else {
        let before = building_refs(ways.drop_last(), numbers);
        let way = ways.last();
        match way_kind(way.tags, numbers[ways.len() - 1]) {
            Some(WayKind::Building { height }) if way.refs.len() >= 3 => before.push(
                (way.refs, height),
            ),
            _ => before,
        }
    }
}

/// Lists of lists, as what they hold.
pub open spec fn lists<T>(v: Seq<Vec<T>>) -> Seq<Seq<T>> {
    v.map_values(|l: Vec<T>| l@)
}

/// Buildings, as what they say.
pub open spec fn outlines(v: Seq<BuildingRefs>) -> Seq<(Seq<i64>, Single)> {
    v.map_values(|b: BuildingRefs| (b.refs@, b.height))
}

/// The numbers belong to the texts of the survey: a pair for each node, and one for each tag
/// of each way.
pub open spec fn numbers_fit(
    survey: SurveyView,
    coordinates: Seq<Option<(u64, u64)>>,
    heights: Seq<Seq<Option<Single>>>,
) -> bool {
    &&& coordinates.len() == survey.nodes.len()
    &&& heights.len() == survey.ways.len()
    &&& forall|w: int| #![trigger heights[w]]
        0 <= w < heights.len() ==> heights[w].len() == survey.ways[w].tags.len()
}

fn kind_of(tags: &Vec<WayTag>, numbers: &Vec<Option<Single>>) -> (r: Option<WayKind>)
    requires
        tags@.len() == numbers@.len(),
    ensures
        r == way_kind(tags@.map_values(|tag: WayTag| tag@), numbers@),
{
    let ghost views = tags@.map_values(|tag: WayTag| tag@);
    let mut kind: Option<WayKind> = None;
    for i in 0..tags.len()
        invariant
            tags@.len() == numbers@.len(),
            views == tags@.map_values(|tag: WayTag| tag@),
            kind == way_kind(views.take(i as int), numbers@),
    {
        assert(views.take(i + 1).drop_last() == views.take(i as int));
        match &tags[i] {
            WayTag::Highway => {
                kind = Some(WayKind::Highway);
            },
            WayTag::Building => {
                kind = Some(
                    WayKind::Building { height: Single { bits: DEFAULT_BUILDING_HEIGHT_M } },
                );
            },
            WayTag::Height(_) => {
                if let Some(WayKind::Building { .. }) = kind {
                    if let Some(height) = numbers[i] {
                        kind = Some(WayKind::Building { height });
                    }
                }
            },
            WayTag::Levels(_) => {
                if let Some(height) = numbers[i] {
                    kind = Some(WayKind::Building { height });
                }
            },
        }
    }
    assert(views.take(tags@.len() as int) == views);
    kind
}

fn copy_refs(refs: &Vec<i64>) -> (r: Vec<i64>)
    ensures
        r@ == refs@,
{
    let mut r: Vec<i64> = Vec::new();
    for i in 0..refs.len()
        invariant
            r@ == refs@.take(i as int),
    {
        r.push(refs[i]);
    }
    r
}

fn locate(nodes: &Vec<NodeText>, coordinates: &Vec<Option<(u64, u64)>>) -> (r: HashMap<
    i64,
    (u64, u64),
>)
    requires
        nodes@.len() == coordinates@.len(),
    ensures
        r@ == located(nodes@.map_values(|node: NodeText| node@), coordinates@),
{
    let ghost views = nodes@.map_values(|node: NodeText| node@);
    let mut r: HashMap<i64, (u64, u64)> = HashMap::new();
    for i in 0..nodes.len()
        invariant
            nodes@.len() == coordinates@.len(),
            views == nodes@.map_values(|node: NodeText| node@),
            r@ == located(views.take(i as int), coordinates@),
    {
        assert(views.take(i + 1).drop_last() == views.take(i as int));
        if let Some(place) = coordinates[i] {
            r.insert(nodes[i].id, place);
        }
    }
    assert(views.take(nodes@.len() as int) == views);
    r
}

/// Tells where the nodes are and which ways are roads and buildings.
///
/// `coordinates` holds, for each node, its latitude and longitude in degrees as bit patterns,
/// or nothing where either text is no number. `heights` holds, for each tag of each way, the
/// height in metres that its text gives ([`METERS_PER_LEVEL`] times the number of levels), or
/// nothing where there is no number.
pub fn resolve_survey(
    survey: &OsmSurvey,
    coordinates: &Vec<Option<(u64, u64)>>,
    heights: &Vec<Vec<Option<Single>>>,
) -> (r: OsmMap)
    requires
        numbers_fit(survey@, coordinates@, lists(heights@)),
    ensures
        r.nodes@ == located(survey@.nodes, coordinates@),
        lists(r.roads@) == road_refs(survey@.ways, lists(heights@)),
        outlines(r.buildings@) == building_refs(survey@.ways, lists(heights@)),
{
    let ghost ways = survey@.ways;
    let ghost numbers = lists(heights@);
    let nodes = locate(&survey.nodes, coordinates);
    let mut roads: Vec<Vec<i64>> = Vec::new();
    let mut buildings: Vec<BuildingRefs> = Vec::new();
    assert(lists(roads@) == Seq::<Seq<i64>>::empty());
    assert(outlines(buildings@) == Seq::<(Seq<i64>, Single)>::empty());
    for w in 0..survey.ways.len()
        invariant
            numbers_fit(survey@, coordinates@, numbers),
            ways == survey@.ways,
            numbers == lists(heights@),
            lists(roads@) == road_refs(ways.take(w as int), numbers),
            outlines(buildings@) == building_refs(ways.take(w as int), numbers),
    {
        let way = &survey.ways[w];
        let ghost roads_before = lists(roads@);
        let ghost buildings_before = outlines(buildings@);
        assert(ways.take(w + 1).drop_last() == ways.take(w as int));
        assert(numbers[w as int] == heights@[w as int]@);
        match kind_of(&way.tags, &heights[w]) {
            Some(WayKind::Highway) => {
                if way.refs.len() >= 2 {
                    roads.push(copy_refs(&way.refs));
                    assert(lists(roads@) == roads_before.push(way.refs@));
                }
            },
            Some(WayKind::Building { height }) => {
                if way.refs.len() >= 3 {
                    buildings.push(BuildingRefs { refs: copy_refs(&way.refs), height });
                    assert(outlines(buildings@) == buildings_before.push((way.refs@, height)));
                }
            },
            None => {},
        }
    }
    assert(ways.take(survey.ways@.len() as int) == ways);
    OsmMap { nodes, roads, buildings }
}

/// A road: a polyline of at least two points.
#[derive(Clone, Debug)]
pub struct RoadSegment {
    pub points: Vec<Vec3>,
}

/// A building: a footprint of at least three points, and a height.
#[derive(Clone, Debug)]
pub struct Building {
    pub footprint: Vec<Vec3>,
    pub height: Single,
}

/// Roads and buildings laid out in the local plane.
#[derive(Debug)]
pub struct OsmData {
    pub roads: Vec<RoadSegment>,
    pub buildings: Vec<Building>,
}

/// Roads, as their points.
pub open spec fn road_points(roads: Seq<RoadSegment>) -> Seq<Seq<Vec3>> {
    roads.map_values(|road: RoadSegment| road.points@)
}

/// Buildings, as their footprints and heights.
pub open spec fn building_shapes(buildings: Seq<Building>) -> Seq<(Seq<Vec3>, Single)> {
    buildings.map_values(|building: Building| (building.footprint@, building.height))
}

/// The footprints of buildings.
pub open spec fn footprints(buildings: Seq<Building>) -> Seq<Seq<Vec3>> {
    buildings.map_values(|building: Building| building.footprint@)
}

/// The places of those of the nodes that have one, in order.
pub open spec fn places(refs: Seq<i64>, positions: Map<i64, Vec3>) -> Seq<Vec3>
    decreases refs.len(),
{
    if refs.len() == 0 {
        Seq::empty()
    } else {
        let before = places(refs.drop_last(), positions);
        if positions.contains_key(refs.last()) {
            before.push(positions[refs.last()])
        } else {
            before
        }
    }
}

/// The roads that keep at least two points.
pub open spec fn laid_roads(roads: Seq<Seq<i64>>, positions: Map<i64, Vec3>) -> Seq<Seq<Vec3>>
    decreases roads.len(),
{
    if roads.len() == 0 {
        Seq::empty()
    } else {
        let before = laid_roads(roads.drop_last(), positions);
        let points = places(roads.last(), positions);
        if points.len() >= 2 {
            before.push(points)
        } else {
            before
        }
    }
}

/// The buildings that keep at least three points, each without a repeated closing point.
pub open spec fn laid_buildings(
    buildings: Seq<(Seq<i64>, Single)>,
    positions: Map<i64, Vec3>,
) -> Seq<(Seq<Vec3>, Single)>
    decreases buildings.len(),
{
    if buildings.len() == 0 {
        Seq::empty()
    } else {
        let before = laid_buildings(buildings.drop_last(), positions);
        let (refs, height) = buildings.last();
        let footprint = opened(places(refs, positions));
        if footprint.len() >= 3 {
            before.push((footprint, height))
        } else {
            before
        }
    }
}

fn place_nodes(refs: &Vec<i64>, positions: &HashMap<i64, Vec3>) -> (r: Vec<Vec3>)
    ensures
        r@ == places(refs@, positions@),
{
    let mut r: Vec<Vec3> = Vec::new();
    for i in 0..refs.len()
        invariant
            r@ == places(refs@.take(i as int), positions@),
    {
        assert(refs@.take(i + 1).drop_last() == refs@.take(i as int));
        if let Some(place) = positions.get(&refs[i]) {
            r.push(*place);
        }
    }
    assert(refs@.take(refs@.len() as int) == refs@);
    r
}

/// Lays roads and buildings out: `positions` holds the place of each node in the local plane.
/// A node without one is left out of the roads and buildings that it is part of.
pub fn assemble(map: &OsmMap, positions: &HashMap<i64, Vec3>) -> (r: OsmData)
    ensures
        road_points(r.roads@) == laid_roads(lists(map.roads@), positions@),
        building_shapes(r.buildings@) == laid_buildings(outlines(map.buildings@), positions@),
{
    let ghost road_lists = lists(map.roads@);
    let ghost building_lists = outlines(map.buildings@);
    let mut roads: Vec<RoadSegment> = Vec::new();
    assert(road_points(roads@) == Seq::<Seq<Vec3>>::empty());
    for i in 0..map.roads.len()
        invariant
            road_lists == lists(map.roads@),
            road_points(roads@) == laid_roads(road_lists.take(i as int), positions@),
    {
        let ghost before = road_points(roads@);
        assert(road_lists.take(i + 1).drop_last() == road_lists.take(i as int));
        let points = place_nodes(&map.roads[i], positions);
        if points.len() >= 2 {
            let ghost added = points@;
            roads.push(RoadSegment { points });
            assert(road_points(roads@) == before.push(added));
        }
    }
    assert(road_lists.take(map.roads@.len() as int) == road_lists);
    let mut buildings: Vec<Building> = Vec::new();
    assert(building_shapes(buildings@) == Seq::<(Seq<Vec3>, Single)>::empty());
    for i in 0..map.buildings.len()
        invariant
            building_lists == outlines(map.buildings@),
            building_shapes(buildings@) == laid_buildings(building_lists.take(i as int), positions@),
    {
        let ghost before = building_shapes(buildings@);
        assert(building_lists.take(i + 1).drop_last() == building_lists.take(i as int));
        let footprint = drop_closing_point(place_nodes(&map.buildings[i].refs, positions));
        if footprint.len() >= 3 {
            let ghost added = footprint@;
            buildings.push(Building { footprint, height: map.buildings[i].height });
            assert(building_shapes(buildings@) == before.push(
                (added, map.buildings@[i as int].height),
            ));
        }
    }
    assert(building_lists.take(map.buildings@.len() as int) == building_lists);
    OsmData { roads, buildings }
}

/// The pieces of all roads, road by road.
pub open spec fn road_pieces(roads: Seq<Seq<Vec3>>) -> Seq<(Vec3, Vec3)>
    decreases roads.len(),
{
    if roads.len() == 0 {
        Seq::empty()
    } else {
        road_pieces(roads.drop_last()) + pieces(roads.last())
    }
}

/// The pieces of all roads, road by road.
pub fn segment_pieces(segments: &Vec<RoadSegment>) -> (r: Vec<(Vec3, Vec3)>)
    ensures
        r@ == road_pieces(road_points(segments@)),
{
    let ghost roads = road_points(segments@);
    let mut r: Vec<(Vec3, Vec3)> = Vec::new();
    for i in 0..segments.len()
        invariant
            roads == road_points(segments@),
            r@ == road_pieces(roads.take(i as int)),
    {
        assert(roads.take(i + 1).drop_last() == roads.take(i as int));
        let mut more = polyline_pieces(&segments[i].points);
        r.append(&mut more);
    }
    assert(roads.take(segments@.len() as int) == roads);
    r
}

/// The point of a piece of road that is nearest to a position, and the square of its distance
/// from it.
#[derive(Clone, Copy, Debug, PartialEq, Eq, Structural)]
pub struct Projection {
    pub point: Vec3,
    pub distance_squared: Single,
}

/// Whether a projection is at a distance at all: below infinity and not NaN.
pub open spec fn reachable(projection: Projection) -> bool {
    projection.distance_squared.less(Single { bits: INFINITY })
}

/// Projection `i` is the first of the nearest ones.
pub open spec fn nearest_at(projections: Seq<Projection>, i: int) -> bool {
    &&& 0 <= i < projections.len()
    &&& reachable(projections[i])
    &&& forall|j: int| #![trigger projections[j]]
        0 <= j < projections.len() ==> !projections[j].distance_squared.less(
            projections[i].distance_squared,
        )
    &&& forall|j: int| #![trigger projections[j]]
        0 <= j < i ==> !projections[j].distance_squared.equal(projections[i].distance_squared)
}

/// The point is the nearest projection, the first of them where several are as near; the
/// origin where no projection is at a distance.
pub open spec fn nearest_point(projections: Seq<Projection>, point: Vec3) -> bool {
    ||| exists|i: int| #[trigger] nearest_at(projections, i) && point == projections[i].point
    ||| (forall|i: int| 0 <= i < projections.len() ==> !reachable(#[trigger] projections[i]))
        && point == origin()
}

/// The nearest point on any piece of road: `projections` holds, for each piece in the order of
/// [`segment_pieces`], its point nearest to the position in question.
pub fn nearest_point_on_segments(segments: &Vec<RoadSegment>, projections: &Vec<Projection>) -> (r:
    Vec3)
    requires
        projections@.len() == road_pieces(road_points(segments@)).len(),
    ensures
        nearest_point(projections@, r),
{
    let mut best = vec3(ZERO, ZERO, ZERO);
    let mut best_dist_sq = Single { bits: INFINITY };
    let ghost mut found: int = -1;
    for i in 0..projections.len()
        invariant
            found == -1 ==> {
                &&& best == origin()
                &&& best_dist_sq == (Single { bits: INFINITY })
                &&& forall|j: int| 0 <= j < i ==> !reachable(#[trigger] projections@[j])
            },
            found != -1 ==> {
                &&& nearest_at(projections@.take(i as int), found)
                &&& best == projections@[found].point
                &&& best_dist_sq == projections@[found].distance_squared
            },
    {
        let projection = projections[i];
        let ghost seen = projections@.take(i as int);
        let ghost seeing = projections@.take(i + 1);
        assert(forall|j: int| 0 <= j < i ==> #[trigger] seeing[j] == seen[j]);
        assert(seeing[i as int] == projection);
        if projection.distance_squared.lt(best_dist_sq) {
            best_dist_sq = projection.distance_squared;
            best = projection.point;
            proof {
                assert forall|j: int| #![trigger seeing[j]] 0 <= j < i implies projection.distance_squared.less(
                    seeing[j].distance_squared) || seeing[j].distance_squared.nan() by {
                    assert(seeing[j] == projections@[j]);
                    if found == -1 {
                        assert(!reachable(projections@[j]));
                    } else {
                        assert(!seen[j].distance_squared.less(seen[found].distance_squared));
                    }
                }
                found = i as int;
                assert(nearest_at(seeing, found));
            }
        } else {
            proof {
                if found != -1 {
                    assert(nearest_at(seeing, found));
                }
            }
        }
    }
    assert(projections@.take(projections@.len() as int) == projections@);
    best
}

/// The nearest point is pinned down: no two points satisfy [`nearest_point`].
pub proof fn nearest_point_unique(projections: Seq<Projection>, p: Vec3, q: Vec3)
    requires
        nearest_point(projections, p),
        nearest_point(projections, q),
    ensures
        p == q,
{
    if exists|i: int| #[trigger] nearest_at(projections, i) {
        let i = choose|i: int| #[trigger] nearest_at(projections, i) && p == projections[i].point;
        let j = choose|j: int| #[trigger] nearest_at(projections, j) && q == projections[j].point;
        let a = projections[i].distance_squared;
        let b = projections[j].distance_squared;
        assert(reachable(projections[i]));
        assert(reachable(projections[j]));
        assert(!b.less(a) && !a.less(b));
        assert(a.equal(b) && b.equal(a));
        assert(i == j);
    }
}

/// A document is read without error exactly when reading it comes to its end rather than to a
/// fault in the XML.
pub proof fn survey_fails_on_bad_xml(survey: SurveyView, tokens: Seq<Token>)
    requires
        stops_at_last(tokens),
    ensures
        surveyed_from(survey, tokens) is Err <==> tokens.last() is Failed,
    decreases tokens.len(),
{
    if tokens.len() > 1 {
        assert(!tokens[0].ends());
        let rest = tokens.drop_first();
        assert(rest.last() == tokens.last());
        assert forall|i: int| 0 <= i < rest.len() - 1 implies !(#[trigger] rest[i]).ends() by {
            assert(rest[i] == tokens[i + 1]);
        }
        survey_fails_on_bad_xml(absorbed(survey, tokens.first()), rest);
    }
}

/// The node that an event refers a way to.
pub open spec fn token_ref(token: Token) -> Option<i64> {
    match token {
        Token::Open { name, attributes } if name == encode_utf8("nd"@) => integer_value(
            first_value(attributes, encode_utf8("ref"@)),
        ),
        _ => None,
    }
}

/// What an event says of a way.
pub open spec fn token_tag(token: Token) -> Option<TagView> {
    match token {
        Token::Open { name, attributes } if name == encode_utf8("tag"@) => tag_of(attributes),
        _ => None,
    }
}

/// The nodes that events refer a way to, in order.
pub open spec fn refs_in(tokens: Seq<Token>) -> Seq<i64>
    decreases tokens.len(),
{
    if tokens.len() == 0 {
        Seq::empty()
    } else {
        let before = refs_in(tokens.drop_last());
        match token_ref(tokens.last()) {
            Some(id) => before.push(id),
            None => before,
        }
    }
}

/// What events say of a way, in order.
pub open spec fn tags_in(tokens: Seq<Token>) -> Seq<TagView>
    decreases tokens.len(),
{
    if tokens.len() == 0 {
        Seq::empty()
    } else {
        let before = tags_in(tokens.drop_last());
        match token_tag(tokens.last()) {
            Some(tag) => before.push(tag),
            None => before,
        }
    }
}

/// The event is a `node` element.
pub open spec fn is_node(token: Token) -> bool {
    token matches Token::Open { name, .. } && name == encode_utf8("node"@)
}

/// The node that an event describes.
pub open spec fn token_node(token: Token) -> Option<NodeView> {
    match token {
        Token::Open { name, attributes } if name == encode_utf8("node"@) => node_of(attributes),
        _ => None,
    }
}

/// The nodes that events describe, in order.
pub open spec fn nodes_in(tokens: Seq<Token>) -> Seq<NodeView>
    decreases tokens.len(),
{
    if tokens.len() == 0 {
        Seq::empty()
    } else {
        let before = nodes_in(tokens.drop_last());
        match token_node(tokens.last()) {
            Some(node) => before.push(node),
            None => before,
        }
    }
}

/// The event begins or ends a way.
pub open spec fn bounds_way(token: Token) -> bool {
    match token {
        Token::Open { name, .. } => name == encode_utf8("way"@),
        Token::Close { name } => name == encode_utf8("way"@),
        _ => false,
    }
}

/// The survey after a run of events none of which ends the reading.
pub open spec fn absorbed_all(survey: SurveyView, tokens: Seq<Token>) -> SurveyView
    decreases tokens.len(),
{
    if tokens.len() == 0 {
        survey
    } else {
        absorbed(absorbed_all(survey, tokens.drop_last()), tokens.last())
    }
}

/// The survey of a document holds what each of its events says, one after the other.
pub proof fn survey_holds_all_events(survey: SurveyView, tokens: Seq<Token>)
    requires
        forall|i: int| 0 <= i < tokens.len() ==> !(#[trigger] tokens[i]).ends(),
    ensures
        surveyed_from(survey, tokens.push(Token::Eof)) == Ok::<SurveyView, Seq<char>>(
            absorbed_all(survey, tokens),
        ),
{
    lemma_survey_continues(survey, tokens, seq![Token::Eof]);
    assert(tokens + seq![Token::Eof] == tokens.push(Token::Eof));
}

proof fn lemma_survey_continues(survey: SurveyView, tokens: Seq<Token>, rest: Seq<Token>)
    requires
        forall|i: int| 0 <= i < tokens.len() ==> !(#[trigger] tokens[i]).ends(),
    ensures
        surveyed_from(survey, tokens + rest) == surveyed_from(absorbed_all(survey, tokens), rest),
    decreases tokens.len(),
{
    if tokens.len() == 0 {
        assert(tokens + rest == rest);
    } else {
        let before = tokens.drop_last();
        let onward = seq![tokens.last()] + rest;
        assert forall|i: int| 0 <= i < before.len() implies !(#[trigger] before[i]).ends() by {
            assert(before[i] == tokens[i]);
        }
        assert(!tokens[tokens.len() - 1].ends());
        lemma_survey_continues(survey, before, onward);
        assert(before + onward == tokens + rest);
        assert(onward.drop_first() == rest);
    }
}

/// A way element is recorded as it stands: its start tag, what is inside it and its end tag add
/// one way, which has the references and the tags that are inside, each in their order. Of nodes
/// they add those that are inside.
pub proof fn way_is_recorded(
    survey: SurveyView,
    attributes: Seq<Option<AttributeView>>,
    inside: Seq<Token>,
)
    requires
        forall|i: int| 0 <= i < inside.len() ==> !bounds_way(#[trigger] inside[i]),
    ensures
        ({
            let begun = absorbed(survey, Token::Open { name: encode_utf8("way"@), attributes });
            let ended = absorbed(
                absorbed_all(begun, inside),
                Token::Close { name: encode_utf8("way"@) },
            );
            &&& ended.ways == survey.ways.push(
                WayView {
                    id: way_of(attributes).id,
                    refs: refs_in(inside),
                    tags: tags_in(inside),
                },
            )
            &&& ended.open_way is None
            &&& ended.nodes == survey.nodes + nodes_in(inside)
        }),
{
    lemma_words_differ();
    nodes_and_ways_are_apart(
        absorbed(survey, Token::Open { name: encode_utf8("way"@), attributes }),
        inside,
    );
    let begun = absorbed(survey, Token::Open { name: encode_utf8("way"@), attributes });
    lemma_inside_way(begun, way_of(attributes), inside);
    assert(Seq::<i64>::empty() + refs_in(inside) == refs_in(inside));
    assert(Seq::<TagView>::empty() + tags_in(inside) == tags_in(inside));
}

proof fn lemma_inside_way(survey: SurveyView, way: WayView, inside: Seq<Token>)
    requires
        survey.open_way == Some(way),
        forall|i: int| 0 <= i < inside.len() ==> !bounds_way(#[trigger] inside[i]),
    ensures
        absorbed_all(survey, inside).ways == survey.ways,
        absorbed_all(survey, inside).open_way == Some(
            WayView {
                id: way.id,
                refs: way.refs + refs_in(inside),
                tags: way.tags + tags_in(inside),
            },
        ),
    decreases inside.len(),
{
    lemma_words_differ();
    if inside.len() == 0 {
        assert(way.refs + refs_in(inside) == way.refs);
        assert(way.tags + tags_in(inside) == way.tags);
    } else {
        let before = inside.drop_last();
        assert forall|i: int| 0 <= i < before.len() implies !bounds_way(#[trigger] before[i]) by {
            assert(before[i] == inside[i]);
        }
        assert(!bounds_way(inside[inside.len() - 1]));
        lemma_inside_way(survey, way, before);
        if let Some(id) = token_ref(inside.last()) {
            assert((way.refs + refs_in(before)).push(id) == way.refs + refs_in(inside));
        }
        if let Some(tag) = token_tag(inside.last()) {
            assert((way.tags + tags_in(before)).push(tag) == way.tags + tags_in(inside));
        }
    }
}

proof fn lemma_words_differ()
    ensures
        encode_utf8("way"@) != encode_utf8("node"@),
        encode_utf8("nd"@) != encode_utf8("node"@),
        encode_utf8("nd"@) != encode_utf8("way"@),
        encode_utf8("tag"@) != encode_utf8("node"@),
        encode_utf8("tag"@) != encode_utf8("way"@),
        encode_utf8("tag"@) != encode_utf8("nd"@),
{
    reveal_strlit("way");
    reveal_strlit("node");
    reveal_strlit("nd");
    reveal_strlit("tag");
    vstd::utf8::is_ascii_chars_encode_utf8("way"@);
    vstd::utf8::is_ascii_chars_encode_utf8("node"@);
    vstd::utf8::is_ascii_chars_encode_utf8("nd"@);
    vstd::utf8::is_ascii_chars_encode_utf8("tag"@);
    assert(encode_utf8("way"@).len() == 3);
    assert(encode_utf8("node"@).len() == 4);
    assert(encode_utf8("nd"@).len() == 2);
    assert(encode_utf8("tag"@)[0] == 't' as u8);
    assert(encode_utf8("way"@)[0] == 'w' as u8);
}

/// References and tags outside a way change nothing.
pub proof fn only_ways_hold_references_and_tags(
    survey: SurveyView,
    attributes: Seq<Option<AttributeView>>,
)
    requires
        survey.open_way is None,
    ensures
        absorbed(survey, Token::Open { name: encode_utf8("nd"@), attributes }) == survey,
        absorbed(survey, Token::Open { name: encode_utf8("tag"@), attributes }) == survey,
{
    lemma_words_differ();
}

/// Nodes and ways that have been noted stay noted, whatever follows.
pub proof fn survey_only_grows(survey: SurveyView, tokens: Seq<Token>)
    ensures
        survey.nodes.is_prefix_of(absorbed_all(survey, tokens).nodes),
        survey.ways.is_prefix_of(absorbed_all(survey, tokens).ways),
    decreases tokens.len(),
{
    if tokens.len() > 0 {
        survey_only_grows(survey, tokens.drop_last());
    }
}

/// Of the nodes with one id, the last that has coordinates tells where the node is.
pub proof fn last_node_wins(
    nodes: Seq<NodeView>,
    coordinates: Seq<Option<(u64, u64)>>,
    k: int,
)
    requires
        nodes.len() <= coordinates.len(),
        0 <= k < nodes.len(),
        coordinates[k] is Some,
        forall|j: int| k < j < nodes.len() && (#[trigger] nodes[j]).id == nodes[k].id
            ==> coordinates[j] is None,
    ensures
        located(nodes, coordinates).contains_key(nodes[k].id),
        located(nodes, coordinates)[nodes[k].id] == coordinates[k]->0,
    decreases nodes.len(),
{
    let rest = nodes.drop_last();
    if k < rest.len() {
        assert(nodes[nodes.len() - 1].id == nodes[k].id ==> coordinates[nodes.len() - 1] is None);
        assert forall|j: int| k < j < rest.len() && (#[trigger] rest[j]).id == rest[k].id implies
            coordinates[j] is None by {
            assert(rest[j] == nodes[j]);
        }
        last_node_wins(rest, coordinates, k);
    }
}

/// A node without coordinates is nowhere.
pub proof fn unplaced_nodes_are_nowhere(
    nodes: Seq<NodeView>,
    coordinates: Seq<Option<(u64, u64)>>,
    id: i64,
)
    requires
        nodes.len() <= coordinates.len(),
        forall|j: int| 0 <= j < nodes.len() && (#[trigger] nodes[j]).id == id
            ==> coordinates[j] is None,
    ensures
        !located(nodes, coordinates).contains_key(id),
    decreases nodes.len(),
{
    if nodes.len() > 0 {
        let rest = nodes.drop_last();
        assert(nodes[nodes.len() - 1].id == id ==> coordinates[nodes.len() - 1] is None);
        assert forall|j: int| 0 <= j < rest.len() && (#[trigger] rest[j]).id == id implies
            coordinates[j] is None by {
            assert(rest[j] == nodes[j]);
        }
        unplaced_nodes_are_nowhere(rest, coordinates, id);
    }
}

/// The nodes with that id, in order.
pub open spec fn with_id(nodes: Seq<NodeView>, id: i64) -> Seq<NodeView>
    decreases nodes.len(),
{
    if nodes.len() == 0 {
        Seq::empty()
    } else {
        let before = with_id(nodes.drop_last(), id);
        if nodes.last().id == id {
            before.push(nodes.last())
        } else {
            before
        }
    }
}

/// Where the nodes are, by the coordinates that `read` finds in each.
pub open spec fn located_by(
    nodes: Seq<NodeView>,
    read: spec_fn(NodeView) -> Option<(u64, u64)>,
) -> Map<i64, (u64, u64)> {
    located(nodes, nodes.map_values(read))
}

proof fn lemma_located_by_start(
    nodes: Seq<NodeView>,
    read: spec_fn(NodeView) -> Option<(u64, u64)>,
    coordinates: Seq<Option<(u64, u64)>>,
)
    requires
        nodes.len() <= coordinates.len(),
        forall|i: int| 0 <= i < nodes.len() ==> read(#[trigger] nodes[i]) == coordinates[i],
    ensures
        located(nodes, coordinates) == located_by(nodes, read),
    decreases nodes.len(),
{
    if nodes.len() > 0 {
        let rest = nodes.drop_last();
        assert forall|i: int| 0 <= i < rest.len() implies read(#[trigger] rest[i])
            == coordinates[i] && read(rest[i]) == nodes.map_values(read)[i] by {
            assert(rest[i] == nodes[i]);
        }
        lemma_located_by_start(rest, read, coordinates);
        lemma_located_by_start(rest, read, nodes.map_values(read));
        assert(read(nodes[nodes.len() - 1]) == coordinates[nodes.len() - 1]);
    }
}

/// One more node changes where nodes are by its own coordinates alone.
proof fn lemma_located_by_last(
    nodes: Seq<NodeView>,
    read: spec_fn(NodeView) -> Option<(u64, u64)>,
)
    requires
        nodes.len() > 0,
    ensures
        located_by(nodes, read) == match read(nodes.last()) {
            Some(place) => located_by(nodes.drop_last(), read).insert(nodes.last().id, place),
            None => located_by(nodes.drop_last(), read),
        },
{
    lemma_located_by_start(nodes.drop_last(), read, nodes.map_values(read));
}

/// Where a node is depends on the nodes with its id alone.
proof fn lemma_located_with_id(
    nodes: Seq<NodeView>,
    read: spec_fn(NodeView) -> Option<(u64, u64)>,
    id: i64,
)
    ensures
        located_by(nodes, read).contains_key(id) == located_by(
            with_id(nodes, id),
            read,
        ).contains_key(id),
        located_by(nodes, read).contains_key(id) ==> located_by(nodes, read)[id] == located_by(
            with_id(nodes, id),
            read,
        )[id],
    decreases nodes.len(),
{
    if nodes.len() > 0 {
        let rest = nodes.drop_last();
        lemma_located_with_id(rest, read, id);
        lemma_located_by_last(nodes, read);
        if nodes.last().id == id {
            lemma_located_by_last(with_id(nodes, id), read);
            assert(with_id(nodes, id).drop_last() == with_id(rest, id));
        }
    }
}

/// Both put the node with that id in the same place, or neither puts it anywhere.
spec fn agree_at(a: Map<i64, (u64, u64)>, b: Map<i64, (u64, u64)>, id: i64) -> bool {
    &&& a.contains_key(id) == b.contains_key(id)
    &&& a.contains_key(id) ==> a[id] == b[id]
}

proof fn lemma_agree_everywhere(a: Map<i64, (u64, u64)>, b: Map<i64, (u64, u64)>)
    requires
        forall|id: i64| #[trigger] agree_at(a, b, id),
    ensures
        a == b,
{
    assert forall|id: i64| #[trigger] a.dom().contains(id) == b.dom().contains(id) by {
        assert(agree_at(a, b, id));
    }
    assert(a.dom() =~= b.dom());
    assert forall|id: i64| #[trigger] a.dom().contains(id) implies a[id] == b[id] by {
        assert(agree_at(a, b, id));
    }
    assert(a =~= b);
}

/// The order of nodes with different ids does not matter: nodes are where they are as long as
/// those with one id keep their order.
pub proof fn order_among_ids_is_enough(
    nodes: Seq<NodeView>,
    moved: Seq<NodeView>,
    read: spec_fn(NodeView) -> Option<(u64, u64)>,
)
    requires
        forall|id: i64| #[trigger] with_id(nodes, id) == with_id(moved, id),
    ensures
        located_by(nodes, read) == located_by(moved, read),
{
    let before = located_by(nodes, read);
    let after = located_by(moved, read);
    assert forall|id: i64| #[trigger] agree_at(before, after, id) by {
        lemma_located_with_id(nodes, read, id);
        lemma_located_with_id(moved, read, id);
        assert(with_id(nodes, id) == with_id(moved, id));
    }
    lemma_agree_everywhere(before, after);
}

/// No two nodes that differ share an id.
pub open spec fn ids_distinct(nodes: Seq<NodeView>) -> bool {
    forall|i: int, j: int|
        0 <= i < nodes.len() && 0 <= j < nodes.len() && (#[trigger] nodes[i]).id == (
        #[trigger] nodes[j]).id ==> nodes[i] == nodes[j]
}

/// Both hold the same nodes.
pub open spec fn same_nodes(nodes: Seq<NodeView>, moved: Seq<NodeView>) -> bool {
    forall|node: NodeView| #[trigger] nodes.contains(node) <==> moved.contains(node)
}

/// The order of nodes does not matter where no two share an id.
pub proof fn distinct_nodes_may_move(
    nodes: Seq<NodeView>,
    moved: Seq<NodeView>,
    read: spec_fn(NodeView) -> Option<(u64, u64)>,
)
    requires
        ids_distinct(nodes),
        same_nodes(nodes, moved),
    ensures
        located_by(nodes, read) == located_by(moved, read),
{
    assert forall|i: int, j: int|
        0 <= i < moved.len() && 0 <= j < moved.len() && (#[trigger] moved[i]).id == (
        #[trigger] moved[j]).id implies moved[i] == moved[j] by {
        assert(moved.contains(moved[i]) && moved.contains(moved[j]));
        assert(nodes.contains(moved[i]) && nodes.contains(moved[j]));
    }
    let before = located_by(nodes, read);
    let after = located_by(moved, read);
    assert forall|id: i64| #[trigger] agree_at(before, after, id) by {
        if exists|k: int| 0 <= k < nodes.len() && (#[trigger] nodes[k]).id == id {
            let k = choose|k: int| 0 <= k < nodes.len() && (#[trigger] nodes[k]).id == id;
            assert(nodes.contains(nodes[k]));
            let m = choose|m: int| 0 <= m < moved.len() && moved[m] == nodes[k];
            lemma_located_distinct(nodes, read, k);
            lemma_located_distinct(moved, read, m);
        } else {
            assert forall|m: int| 0 <= m < moved.len() implies (#[trigger] moved[m]).id != id by {
                assert(moved.contains(moved[m]));
                assert(nodes.contains(moved[m]));
            }
            unplaced_nodes_are_nowhere(nodes, nodes.map_values(read), id);
            unplaced_nodes_are_nowhere(moved, moved.map_values(read), id);
        }
    }
    lemma_agree_everywhere(before, after);
}

/// A node whose id no other node has is where its own coordinates put it.
proof fn lemma_located_distinct(
    nodes: Seq<NodeView>,
    read: spec_fn(NodeView) -> Option<(u64, u64)>,
    k: int,
)
    requires
        0 <= k < nodes.len(),
        ids_distinct(nodes),
    ensures
        located_by(nodes, read).contains_key(nodes[k].id) == (read(nodes[k]) is Some),
        read(nodes[k]) matches Some(place) ==> located_by(nodes, read)[nodes[k].id] == place,
    decreases nodes.len(),
{
    let rest = nodes.drop_last();
    let id = nodes[k].id;
    lemma_located_by_last(nodes, read);
    if nodes.last().id == id {
        assert(nodes[nodes.len() - 1].id == nodes[k].id);
        assert(nodes.last() == nodes[k]);
        if read(nodes[k]) is None {
            assert forall|j: int| 0 <= j < nodes.len() && (#[trigger] nodes[j]).id == id implies
                nodes.map_values(read)[j] is None by {
                assert(nodes[j] == nodes[k]);
            }
            unplaced_nodes_are_nowhere(nodes, nodes.map_values(read), id);
        }
    } else {
        assert(rest[k] == nodes[k]);
        assert forall|i: int, j: int|
            0 <= i < rest.len() && 0 <= j < rest.len() && (#[trigger] rest[i]).id == (
            #[trigger] rest[j]).id implies rest[i] == rest[j] by {
            assert(rest[i] == nodes[i] && rest[j] == nodes[j]);
        }
        lemma_located_distinct(rest, read, k);
    }
}

/// The events that are not `node` elements, in order.
pub open spec fn without_nodes(tokens: Seq<Token>) -> Seq<Token>
    decreases tokens.len(),
{
    if tokens.len() == 0 {
        Seq::empty()
    } else {
        let before = without_nodes(tokens.drop_last());
        if is_node(tokens.last()) {
            before
        } else {
            before.push(tokens.last())
        }
    }
}

/// Nodes and ways are read apart: ways depend on what is not a `node` element alone, and nodes
/// on the `node` elements alone.
pub proof fn nodes_and_ways_are_apart(survey: SurveyView, tokens: Seq<Token>)
    ensures
        absorbed_all(survey, tokens).nodes == survey.nodes + nodes_in(tokens),
        absorbed_all(survey, tokens).ways == absorbed_all(survey, without_nodes(tokens)).ways,
        absorbed_all(survey, tokens).open_way == absorbed_all(
            survey,
            without_nodes(tokens),
        ).open_way,
    decreases tokens.len(),
{
    if tokens.len() == 0 {
        assert(survey.nodes + nodes_in(tokens) == survey.nodes);
    } else {
        let before = tokens.drop_last();
        nodes_and_ways_are_apart(survey, before);
        lemma_words_differ();
        if let Some(node) = token_node(tokens.last()) {
            assert((survey.nodes + nodes_in(before)).push(node) == survey.nodes + nodes_in(tokens));
        }
        if !is_node(tokens.last()) {
            assert(without_nodes(tokens).drop_last() == without_nodes(before));
        }
    }
}

/// Two documents, given by their events up to the end, give the same map: the same ways, the same
/// places of nodes by the coordinates that `read` finds in each, and the same roads and buildings,
/// whatever the heights and the places in the plane.
pub open spec fn same_map(
    tokens: Seq<Token>,
    moved: Seq<Token>,
    read: spec_fn(NodeView) -> Option<(u64, u64)>,
    numbers: Seq<Seq<Option<Single>>>,
    positions: Map<i64, Vec3>,
) -> bool {
    let first = surveyed(tokens.push(Token::Eof));
    let second = surveyed(moved.push(Token::Eof));
    &&& first is Ok && second is Ok
    &&& first->Ok_0.ways == second->Ok_0.ways
    &&& first->Ok_0.open_way == second->Ok_0.open_way
    &&& located_by(first->Ok_0.nodes, read) == located_by(second->Ok_0.nodes, read)
    &&& laid_roads(road_refs(first->Ok_0.ways, numbers), positions) == laid_roads(
        road_refs(second->Ok_0.ways, numbers),
        positions,
    )
    &&& laid_buildings(building_refs(first->Ok_0.ways, numbers), positions) == laid_buildings(
        building_refs(second->Ok_0.ways, numbers),
        positions,
    )
}

/// The tags that describe nodes may stand anywhere in a document, even inside ways or behind the
/// ways that refer to them: where the nodes' ids differ, moving such tags among the others changes
/// no way, no place, and so no road and no building.
pub proof fn nodes_may_stand_anywhere(
    tokens: Seq<Token>,
    moved: Seq<Token>,
    read: spec_fn(NodeView) -> Option<(u64, u64)>,
    numbers: Seq<Seq<Option<Single>>>,
    positions: Map<i64, Vec3>,
)
    requires
        forall|i: int| 0 <= i < tokens.len() ==> !(#[trigger] tokens[i]).ends(),
        forall|i: int| 0 <= i < moved.len() ==> !(#[trigger] moved[i]).ends(),
        without_nodes(tokens) == without_nodes(moved),
        same_nodes(nodes_in(tokens), nodes_in(moved)),
        ids_distinct(nodes_in(tokens)),
    ensures
        same_map(tokens, moved, read, numbers, positions),
{
    let start = nothing_read();
    survey_holds_all_events(start, tokens);
    survey_holds_all_events(start, moved);
    nodes_and_ways_are_apart(start, tokens);
    nodes_and_ways_are_apart(start, moved);
    assert(start.nodes + nodes_in(tokens) == nodes_in(tokens));
    assert(start.nodes + nodes_in(moved) == nodes_in(moved));
    distinct_nodes_may_move(nodes_in(tokens), nodes_in(moved), read);
}

/// No way is open once these events of a document have been read.
pub open spec fn between_ways(tokens: Seq<Token>) -> bool {
    absorbed_all(nothing_read(), tokens).open_way is None
}

/// `moved` is `tokens` with one stretch of events moved behind others, from a place between ways
/// to a place between ways. The stretch neither begins nor ends a way: it is a `node` element with
/// all that is inside it, or several.
pub open spec fn moves_back(tokens: Seq<Token>, moved: Seq<Token>) -> bool {
    exists|a: Seq<Token>, n: Seq<Token>, b: Seq<Token>, c: Seq<Token>|
        {
            &&& tokens == #[trigger] (a + n + b + c)
            &&& moved == #[trigger] (a + b + n + c)
            &&& forall|i: int| 0 <= i < n.len() ==> !bounds_way(#[trigger] n[i])
            &&& between_ways(a)
            &&& between_ways(a + b)
        }
}

/// One document is the other with `node` elements moved from one place between ways to another,
/// forward or back.
pub open spec fn moves(tokens: Seq<Token>, moved: Seq<Token>) -> bool {
    moves_back(tokens, moved) || moves_back(moved, tokens)
}

/// What is absorbed of two stretches is absorbed of one after the other.
proof fn lemma_absorbed_in_turn(survey: SurveyView, first: Seq<Token>, second: Seq<Token>)
    ensures
        absorbed_all(survey, first + second) == absorbed_all(absorbed_all(survey, first), second),
    decreases second.len(),
{
    if second.len() == 0 {
        assert(first + second == first);
    } else {
        assert((first + second).drop_last() == first + second.drop_last());
        lemma_absorbed_in_turn(survey, first, second.drop_last());
    }
}

/// Ways go on from ways alone, whatever nodes there were.
proof fn lemma_ways_go_on(one: SurveyView, other: SurveyView, tokens: Seq<Token>)
    requires
        one.ways == other.ways,
        one.open_way == other.open_way,
    ensures
        absorbed_all(one, tokens).ways == absorbed_all(other, tokens).ways,
        absorbed_all(one, tokens).open_way == absorbed_all(other, tokens).open_way,
    decreases tokens.len(),
{
    if tokens.len() > 0 {
        lemma_ways_go_on(one, other, tokens.drop_last());
    }
}

/// Between ways, what neither begins nor ends a way leaves the ways as they are.
proof fn lemma_quiet_between_ways(survey: SurveyView, tokens: Seq<Token>)
    requires
        survey.open_way is None,
        forall|i: int| 0 <= i < tokens.len() ==> !bounds_way(#[trigger] tokens[i]),
    ensures
        absorbed_all(survey, tokens).ways == survey.ways,
        absorbed_all(survey, tokens).open_way is None,
    decreases tokens.len(),
{
    if tokens.len() > 0 {
        let before = tokens.drop_last();
        assert forall|i: int| 0 <= i < before.len() implies !bounds_way(#[trigger] before[i]) by {
            assert(before[i] == tokens[i]);
        }
        assert(!bounds_way(tokens[tokens.len() - 1]));
        lemma_quiet_between_ways(survey, before);
    }
}

proof fn lemma_nodes_in_turn(first: Seq<Token>, second: Seq<Token>)
    ensures
        nodes_in(first + second) == nodes_in(first) + nodes_in(second),
    decreases second.len(),
{
    if second.len() == 0 {
        assert(first + second == first);
        assert(nodes_in(first) + nodes_in(second) == nodes_in(first));
    } else {
        assert((first + second).drop_last() == first + second.drop_last());
        lemma_nodes_in_turn(first, second.drop_last());
        if let Some(node) = token_node(second.last()) {
            assert(nodes_in(first) + nodes_in(second) == (nodes_in(first) + nodes_in(
                second.drop_last(),
            )).push(node));
        }
    }
}

/// A move keeps ways and nodes.
proof fn lemma_move_back(tokens: Seq<Token>, moved: Seq<Token>)
    requires
        moves_back(tokens, moved),
    ensures
        absorbed_all(nothing_read(), tokens).ways == absorbed_all(nothing_read(), moved).ways,
        absorbed_all(nothing_read(), tokens).open_way == absorbed_all(
            nothing_read(),
            moved,
        ).open_way,
        same_nodes(nodes_in(tokens), nodes_in(moved)),
{
    let (a, n, b, c) = choose|a: Seq<Token>, n: Seq<Token>, b: Seq<Token>, c: Seq<Token>|
        {
            &&& tokens == #[trigger] (a + n + b + c)
            &&& moved == #[trigger] (a + b + n + c)
            &&& forall|i: int| 0 <= i < n.len() ==> !bounds_way(#[trigger] n[i])
            &&& between_ways(a)
            &&& between_ways(a + b)
        };
    let start = nothing_read();
    let at_a = absorbed_all(start, a);
    let at_ab = absorbed_all(start, a + b);
    lemma_absorbed_in_turn(start, a, n);
    lemma_absorbed_in_turn(start, a + n, b);
    lemma_absorbed_in_turn(start, a + n + b, c);
    lemma_absorbed_in_turn(start, a, b);
    lemma_absorbed_in_turn(start, a + b, n);
    lemma_absorbed_in_turn(start, a + b + n, c);
    lemma_quiet_between_ways(at_a, n);
    lemma_quiet_between_ways(at_ab, n);
    lemma_ways_go_on(absorbed_all(at_a, n), at_a, b);
    lemma_ways_go_on(absorbed_all(start, a + n + b), absorbed_all(start, a + b + n), c);
    lemma_nodes_in_turn(a, n);
    lemma_nodes_in_turn(a + n, b);
    lemma_nodes_in_turn(a + n + b, c);
    lemma_nodes_in_turn(a, b);
    lemma_nodes_in_turn(a + b, n);
    lemma_nodes_in_turn(a + b + n, c);
    lemma_swapped_hold_the_same(nodes_in(a), nodes_in(n), nodes_in(b), nodes_in(c));
}

proof fn lemma_swapped_hold_the_same(
    a: Seq<NodeView>,
    n: Seq<NodeView>,
    b: Seq<NodeView>,
    c: Seq<NodeView>,
)
    ensures
        same_nodes(a + n + b + c, a + b + n + c),
{
    lemma_swap_keeps_nodes(a, n, b, c);
    lemma_swap_keeps_nodes(a, b, n, c);
}

proof fn lemma_swap_keeps_nodes(
    a: Seq<NodeView>,
    n: Seq<NodeView>,
    b: Seq<NodeView>,
    c: Seq<NodeView>,
)
    ensures
        forall|node: NodeView| #[trigger] (a + n + b + c).contains(node) ==> (a + b + n
            + c).contains(node),
{
    let before = a + n + b + c;
    let after = a + b + n + c;
    assert forall|node: NodeView| #[trigger] before.contains(node) implies after.contains(node) by {
        let i = choose|i: int| 0 <= i < before.len() && before[i] == node;
        if i < a.len() {
            assert(after[i] == node);
        } else if i < a.len() + n.len() {
            assert(after[i + b.len()] == node);
        } else if i < a.len() + n.len() + b.len() {
            assert(after[i - n.len()] == node);
        } else {
            assert(after[i] == node);
        }
    }
}

/// Nodes need not precede the ways that use them: where the nodes' ids differ, moving whole `node`
/// elements, with all that is inside them, from any place between ways to any other changes no
/// way, no place, and so no road and no building. `documents` are the document, what it is after
/// each move, and what it is in the end.
pub proof fn node_elements_may_move(
    documents: Seq<Seq<Token>>,
    read: spec_fn(NodeView) -> Option<(u64, u64)>,
    numbers: Seq<Seq<Option<Single>>>,
    positions: Map<i64, Vec3>,
)
    requires
        documents.len() > 0,
        forall|d: int| 0 <= d < documents.len() - 1 ==> moves(
            #[trigger] documents[d],
            documents[d + 1],
        ),
        forall|i: int| 0 <= i < documents.first().len() ==> !(#[trigger] documents.first()[i]).ends(),
        forall|i: int| 0 <= i < documents.last().len() ==> !(#[trigger] documents.last()[i]).ends(),
        ids_distinct(nodes_in(documents.first())),
    ensures
        same_map(documents.first(), documents.last(), read, numbers, positions),
{
    let start = nothing_read();
    let first = documents.first();
    let last = documents.last();
    lemma_moves_keep(documents);
    survey_holds_all_events(start, first);
    survey_holds_all_events(start, last);
    nodes_and_ways_are_apart(start, first);
    nodes_and_ways_are_apart(start, last);
    assert(start.nodes + nodes_in(first) == nodes_in(first));
    assert(start.nodes + nodes_in(last) == nodes_in(last));
    distinct_nodes_may_move(nodes_in(first), nodes_in(last), read);
}

proof fn lemma_moves_keep(documents: Seq<Seq<Token>>)
    requires
        documents.len() > 0,
        forall|d: int| 0 <= d < documents.len() - 1 ==> moves(
            #[trigger] documents[d],
            documents[d + 1],
        ),
    ensures
        absorbed_all(nothing_read(), documents.first()).ways == absorbed_all(
            nothing_read(),
            documents.last(),
        ).ways,
        absorbed_all(nothing_read(), documents.first()).open_way == absorbed_all(
            nothing_read(),
            documents.last(),
        ).open_way,
        same_nodes(nodes_in(documents.first()), nodes_in(documents.last())),
    decreases documents.len(),
{
    if documents.len() > 1 {
        let rest = documents.drop_last();
        assert forall|d: int| 0 <= d < rest.len() - 1 implies moves(
            #[trigger] rest[d],
            rest[d + 1],
        ) by {
            assert(rest[d] == documents[d] && rest[d + 1] == documents[d + 1]);
        }
        lemma_moves_keep(rest);
        let x = documents[documents.len() - 2];
        let y = documents[documents.len() - 1];
        assert(moves(x, y));
        if moves_back(x, y) {
            lemma_move_back(x, y);
        } else {
            lemma_move_back(y, x);
        }
        assert forall|node: NodeView| #[trigger] nodes_in(documents.first()).contains(node)
            <==> nodes_in(y).contains(node) by {
            assert(nodes_in(documents.first()).contains(node) <==> nodes_in(x).contains(node));
            assert(nodes_in(x).contains(node) <==> nodes_in(y).contains(node));
        }
    }
}

/// A way through nodes that all have a place goes through those places, in order.
pub proof fn placed_nodes_keep_order(refs: Seq<i64>, positions: Map<i64, Vec3>)
    requires
        forall|i: int| 0 <= i < refs.len() ==> positions.contains_key(#[trigger] refs[i]),
    ensures
        places(refs, positions) == refs.map_values(|id: i64| positions[id]),
    decreases refs.len(),
{
    if refs.len() > 0 {
        assert forall|i: int| 0 <= i < refs.drop_last().len() implies positions.contains_key(
            #[trigger] refs.drop_last()[i],
        ) by {
            assert(positions.contains_key(refs[i]));
        }
        assert(positions.contains_key(refs[refs.len() - 1]));
        placed_nodes_keep_order(refs.drop_last(), positions);
    }
}

/// Every road has at least two points and every building at least three.
pub proof fn laid_shapes_are_drawable(
    roads: Seq<Seq<i64>>,
    buildings: Seq<(Seq<i64>, Single)>,
    positions: Map<i64, Vec3>,
)
    ensures
        forall|i: int| 0 <= i < laid_roads(roads, positions).len()
            ==> (#[trigger] laid_roads(roads, positions)[i]).len() >= 2,
        forall|i: int| 0 <= i < laid_buildings(buildings, positions).len()
            ==> (#[trigger] laid_buildings(buildings, positions)[i]).0.len() >= 3,
    decreases roads.len() + buildings.len(),
{
    if roads.len() > 0 {
        laid_shapes_are_drawable(roads.drop_last(), buildings, positions);
        let before = laid_roads(roads.drop_last(), positions);
        assert forall|i: int| 0 <= i < laid_roads(roads, positions).len() implies (
        #[trigger] laid_roads(roads, positions)[i]).len() >= 2 by {
            if i < before.len() {
                assert(laid_roads(roads, positions)[i] == before[i]);
            }
        }
    }
    if buildings.len() > 0 {
        laid_shapes_are_drawable(roads, buildings.drop_last(), positions);
        let before = laid_buildings(buildings.drop_last(), positions);
        assert forall|i: int| 0 <= i < laid_buildings(buildings, positions).len() implies (
        #[trigger] laid_buildings(buildings, positions)[i]).0.len() >= 3 by {
            if i < before.len() {
                assert(laid_buildings(buildings, positions)[i] == before[i]);
            }
        }
    }
}

/// The way is a highway of at least two nodes.
pub open spec fn is_road(way: WayView, numbers: Seq<Option<Single>>) -> bool {
    way_kind(way.tags, numbers) == Some(WayKind::Highway) && way.refs.len() >= 2
}

/// The way is a building of that height, of at least three nodes.
pub open spec fn is_building(way: WayView, numbers: Seq<Option<Single>>, height: Single) -> bool {
    way_kind(way.tags, numbers) == Some(WayKind::Building { height }) && way.refs.len() >= 3
}

/// Every highway of at least two nodes is a road, and every road is one of those.
pub proof fn roads_are_highways(
    ways: Seq<WayView>,
    numbers: Seq<Seq<Option<Single>>>,
    refs: Seq<i64>,
)
    ensures
        road_refs(ways, numbers).contains(refs) <==> exists|k: int|
            0 <= k < ways.len() && is_road(#[trigger] ways[k], numbers[k]) && ways[k].refs == refs,
    decreases ways.len(),
{
    if ways.len() > 0 {
        let rest = ways.drop_last();
        let last = ways.len() - 1;
        let before = road_refs(rest, numbers);
        let after = road_refs(ways, numbers);
        roads_are_highways(rest, numbers, refs);
        if after.contains(refs) {
            let i = choose|i: int| 0 <= i < after.len() && after[i] == refs;
            if i < before.len() {
                assert(before[i] == refs);
                let k = choose|k: int|
                    0 <= k < rest.len() && is_road(#[trigger] rest[k], numbers[k]) && rest[k].refs
                        == refs;
                assert(ways[k] == rest[k]);
            } else {
                assert(is_road(ways[last], numbers[last]) && ways[last].refs == refs);
            }
        }
        if exists|k: int|
            0 <= k < ways.len() && is_road(#[trigger] ways[k], numbers[k]) && ways[k].refs == refs {
            let k = choose|k: int|
                0 <= k < ways.len() && is_road(#[trigger] ways[k], numbers[k]) && ways[k].refs
                    == refs;
            if k < last {
                assert(is_road(rest[k], numbers[k]) && rest[k].refs == refs);
                let i = choose|i: int| 0 <= i < before.len() && before[i] == refs;
                assert(after[i] == refs);
            } else {
                assert(after[after.len() - 1] == refs);
            }
        }
    }
}

/// Every building way of at least three nodes is a building of its height, and every building
/// is one of those.
pub proof fn buildings_are_building_ways(
    ways: Seq<WayView>,
    numbers: Seq<Seq<Option<Single>>>,
    refs: Seq<i64>,
    height: Single,
)
    ensures
        building_refs(ways, numbers).contains((refs, height)) <==> exists|k: int|
            0 <= k < ways.len() && is_building(#[trigger] ways[k], numbers[k], height)
                && ways[k].refs == refs,
    decreases ways.len(),
{
    if ways.len() > 0 {
        let rest = ways.drop_last();
        let last = ways.len() - 1;
        let before = building_refs(rest, numbers);
        let after = building_refs(ways, numbers);
        let found = (refs, height);
        buildings_are_building_ways(rest, numbers, refs, height);
        if after.contains(found) {
            let i = choose|i: int| 0 <= i < after.len() && after[i] == found;
            if i < before.len() {
                assert(before[i] == found);
                let k = choose|k: int|
                    0 <= k < rest.len() && is_building(#[trigger] rest[k], numbers[k], height)
                        && rest[k].refs == refs;
                assert(ways[k] == rest[k]);
            } else {
                assert(is_building(ways[last], numbers[last], height) && ways[last].refs == refs);
            }
        }
        if exists|k: int|
            0 <= k < ways.len() && is_building(#[trigger] ways[k], numbers[k], height)
                && ways[k].refs == refs {
            let k = choose|k: int|
                0 <= k < ways.len() && is_building(#[trigger] ways[k], numbers[k], height)
                    && ways[k].refs == refs;
            if k < last {
                assert(is_building(rest[k], numbers[k], height) && rest[k].refs == refs);
                let i = choose|i: int| 0 <= i < before.len() && before[i] == found;
                assert(after[i] == found);
            } else {
                assert(after[after.len() - 1] == found);
            }
        }
    }
}

/// A highway through at least two nodes that all have a place is laid out as a road through
/// those places, in order.
pub proof fn highway_becomes_road(
    ways: Seq<WayView>,
    numbers: Seq<Seq<Option<Single>>>,
    positions: Map<i64, Vec3>,
    k: int,
)
    requires
        0 <= k < ways.len(),
        is_road(ways[k], numbers[k]),
        forall|i: int| 0 <= i < ways[k].refs.len() ==> positions.contains_key(
            #[trigger] ways[k].refs[i],
        ),
    ensures
        laid_roads(road_refs(ways, numbers), positions).contains(
            ways[k].refs.map_values(|id: i64| positions[id]),
        ),
{
    let refs = ways[k].refs;
    let roads = road_refs(ways, numbers);
    roads_are_highways(ways, numbers, refs);
    let r = choose|r: int| 0 <= r < roads.len() && roads[r] == refs;
    placed_road_is_laid(roads, positions, r);
}

/// A building way through at least three nodes that all have a place is laid out as a building
/// of its height on those places, in order, without a repeated closing point.
pub proof fn building_way_becomes_building(
    ways: Seq<WayView>,
    numbers: Seq<Seq<Option<Single>>>,
    positions: Map<i64, Vec3>,
    k: int,
    height: Single,
)
    requires
        0 <= k < ways.len(),
        is_building(ways[k], numbers[k], height),
        forall|i: int| 0 <= i < ways[k].refs.len() ==> positions.contains_key(
            #[trigger] ways[k].refs[i],
        ),
    ensures
        laid_buildings(building_refs(ways, numbers), positions).contains(
            (opened(ways[k].refs.map_values(|id: i64| positions[id])), height),
        ),
{
    let refs = ways[k].refs;
    let buildings = building_refs(ways, numbers);
    buildings_are_building_ways(ways, numbers, refs, height);
    let b = choose|b: int| 0 <= b < buildings.len() && buildings[b] == (refs, height);
    placed_building_is_laid(buildings, positions, b);
}

/// A building of at least three nodes that all have a place is laid out, without a repeated
/// closing point.
pub proof fn placed_building_is_laid(
    buildings: Seq<(Seq<i64>, Single)>,
    positions: Map<i64, Vec3>,
    k: int,
)
    requires
        0 <= k < buildings.len(),
        buildings[k].0.len() >= 3,
        forall|i: int| 0 <= i < buildings[k].0.len() ==> positions.contains_key(
            #[trigger] buildings[k].0[i],
        ),
    ensures
        laid_buildings(buildings, positions).contains(
            (opened(buildings[k].0.map_values(|id: i64| positions[id])), buildings[k].1),
        ),
    decreases buildings.len(),
{
    placed_nodes_keep_order(buildings[k].0, positions);
    let points = buildings[k].0.map_values(|id: i64| positions[id]);
    let shape = (opened(points), buildings[k].1);
    let laid = laid_buildings(buildings, positions);
    let before = laid_buildings(buildings.drop_last(), positions);
    if k == buildings.len() - 1 {
        assert(laid[laid.len() - 1] == shape);
    } else {
        assert(buildings.drop_last()[k] == buildings[k]);
        placed_building_is_laid(buildings.drop_last(), positions, k);
        let i = choose|i: int| 0 <= i < before.len() && before[i] == shape;
        assert(laid[i] == shape);
    }
}

/// Nothing is laid out that the map does not have: every road goes through the places of a
/// road's nodes, in order.
pub proof fn laid_road_has_source(roads: Seq<Seq<i64>>, positions: Map<i64, Vec3>, i: int)
    requires
        0 <= i < laid_roads(roads, positions).len(),
    ensures
        exists|k: int|
            0 <= k < roads.len() && laid_roads(roads, positions)[i] == places(
                #[trigger] roads[k],
                positions,
            ),
    decreases roads.len(),
{
    let rest = roads.drop_last();
    let before = laid_roads(rest, positions);
    if i < before.len() {
        laid_road_has_source(rest, positions, i);
        let k = choose|k: int|
            0 <= k < rest.len() && before[i] == places(#[trigger] rest[k], positions);
        assert(roads[k] == rest[k]);
        assert(laid_roads(roads, positions)[i] == places(roads[k], positions));
    } else {
        assert(laid_roads(roads, positions)[i] == places(roads[roads.len() - 1], positions));
    }
}

/// Nothing is laid out that the map does not have: every building stands on the places of a
/// building's nodes and has its height.
pub proof fn laid_building_has_source(
    buildings: Seq<(Seq<i64>, Single)>,
    positions: Map<i64, Vec3>,
    i: int,
)
    requires
        0 <= i < laid_buildings(buildings, positions).len(),
    ensures
        exists|k: int|
            0 <= k < buildings.len() && laid_buildings(buildings, positions)[i] == (
                opened(places((#[trigger] buildings[k]).0, positions)),
                buildings[k].1,
            ),
    decreases buildings.len(),
{
    let rest = buildings.drop_last();
    let before = laid_buildings(rest, positions);
    let laid = laid_buildings(buildings, positions);
    if i < before.len() {
        laid_building_has_source(rest, positions, i);
        let k = choose|k: int|
            0 <= k < rest.len() && before[i] == (
                opened(places((#[trigger] rest[k]).0, positions)),
                rest[k].1,
            );
        assert(buildings[k] == rest[k]);
        assert(laid[i] == (opened(places(buildings[k].0, positions)), buildings[k].1));
    } else {
        let k = buildings.len() - 1;
        assert(laid[i] == (opened(places(buildings[k].0, positions)), buildings[k].1));
    }
}

/// A road of at least two nodes that all have a place is laid out.
pub proof fn placed_road_is_laid(roads: Seq<Seq<i64>>, positions: Map<i64, Vec3>, k: int)
    requires
        0 <= k < roads.len(),
        roads[k].len() >= 2,
        forall|i: int| 0 <= i < roads[k].len() ==> positions.contains_key(#[trigger] roads[k][i]),
    ensures
        laid_roads(roads, positions).contains(roads[k].map_values(|id: i64| positions[id])),
    decreases roads.len(),
{
    placed_nodes_keep_order(roads[k], positions);
    let points = roads[k].map_values(|id: i64| positions[id]);
    let laid = laid_roads(roads, positions);
    let before = laid_roads(roads.drop_last(), positions);
    if k == roads.len() - 1 {
        assert(laid[laid.len() - 1] == points);
    } else {
        assert(roads.drop_last()[k] == roads[k]);
        placed_road_is_laid(roads.drop_last(), positions, k);
        let i = choose|i: int| 0 <= i < before.len() && before[i] == points;
        assert(laid[i] == points);
    }
}

/// The attribute has that name.
pub open spec fn named(attribute: Option<AttributeView>, key: Seq<u8>) -> bool {
    attribute matches Some(found) && found.key == key
}

/// Of several attributes of one name the first counts, wherever it stands, and its value is taken
/// as it is.
pub proof fn first_attribute_counts(
    attributes: Seq<Option<AttributeView>>,
    key: Seq<u8>,
    k: int,
)
    requires
        0 <= k < attributes.len(),
        named(attributes[k], key),
        forall|j: int| 0 <= j < k ==> !named(#[trigger] attributes[j], key),
    ensures
        first_value(attributes, key) == attributes[k]->0.value,
    decreases attributes.len(),
{
    if k > 0 {
        assert(!named(attributes[0], key));
        let rest = attributes.drop_first();
        assert forall|j: int| 0 <= j < k - 1 implies !named(#[trigger] rest[j], key) by {
            assert(rest[j] == attributes[j + 1]);
        }
        first_attribute_counts(rest, key, k - 1);
    }
}

/// Of the attributes of a node the last of a name counts, wherever it stands, and its value is taken
/// as it is.
pub proof fn last_attribute_counts(
    attributes: Seq<Option<AttributeView>>,
    key: Seq<u8>,
    k: int,
)
    requires
        0 <= k < attributes.len(),
        named(attributes[k], key),
        forall|j: int| k < j < attributes.len() ==> !named(#[trigger] attributes[j], key),
    ensures
        last_value(attributes, key) == attributes[k]->0.value,
    decreases attributes.len(),
{
    if k < attributes.len() - 1 {
        assert(!named(attributes[attributes.len() - 1], key));
        let rest = attributes.drop_last();
        assert forall|j: int| k < j < rest.len() implies !named(#[trigger] rest[j], key) by {
            assert(rest[j] == attributes[j]);
        }
        last_attribute_counts(rest, key, k);
    }
}

/// An attribute that is not there has no value.
pub proof fn missing_attribute_has_no_value(
    attributes: Seq<Option<AttributeView>>,
    key: Seq<u8>,
)
    requires
        forall|j: int| 0 <= j < attributes.len() ==> !named(#[trigger] attributes[j], key),
    ensures
        first_value(attributes, key) is None,
        last_value(attributes, key) is None,
    decreases attributes.len(),
{
    if attributes.len() > 0 {
        assert(!named(attributes[0], key));
        assert(!named(attributes[attributes.len() - 1], key));
        let later = attributes.drop_first();
        assert forall|j: int| 0 <= j < later.len() implies !named(#[trigger] later[j], key) by {
            assert(later[j] == attributes[j + 1]);
        }
        missing_attribute_has_no_value(later, key);
        let earlier = attributes.drop_last();
        assert forall|j: int| 0 <= j < earlier.len() implies !named(#[trigger] earlier[j], key) by {
            assert(earlier[j] == attributes[j]);
        }
        missing_attribute_has_no_value(earlier, key);
    }
}

/// A node is read where it has an integer for an id and both coordinates, and it has exactly those;
/// without any one of them there is no node.
pub proof fn node_has_what_it_says(
    attributes: Seq<Option<AttributeView>>,
    id: Option<Seq<char>>,
    lat: Option<Seq<char>>,
    lon: Option<Seq<char>>,
)
    requires
        last_value(attributes, encode_utf8("id"@)) == id,
        last_value(attributes, encode_utf8("lat"@)) == lat,
        last_value(attributes, encode_utf8("lon"@)) == lon,
    ensures
        id is Some && parsed_i64(id->0) is Some && lat is Some && lon is Some ==> node_of(attributes)
            == Some(NodeView { id: parsed_i64(id->0)->0, lat: lat->0, lon: lon->0 }),
        id is None || parsed_i64(id->0) is None || lat is None || lon is None ==> node_of(
            attributes,
        ) is None,
{
}

/// A tag tells what its key says: two keys tell by themselves, whatever their value; a height tells
/// the number that its value leads with, a number of levels its whole value, and neither anything
/// without one. No other key tells anything.
pub proof fn tag_tells_by_its_key(
    attributes: Seq<Option<AttributeView>>,
    key: Option<Seq<char>>,
    value: Option<Seq<char>>,
)
    requires
        first_value(attributes, encode_utf8("k"@)) == key,
        first_value(attributes, encode_utf8("v"@)) == value,
    ensures
        key == Some("highway"@) ==> tag_of(attributes) == Some(TagView::Highway),
        key == Some("building"@) ==> tag_of(attributes) == Some(TagView::Building),
        key == Some("height"@) && value is Some ==> tag_of(attributes) == Some(
            TagView::Height(leading_number(value->0)),
        ),
        key == Some("building:levels"@) && value is Some ==> tag_of(attributes) == Some(
            TagView::Levels(value->0),
        ),
        (key == Some("height"@) || key == Some("building:levels"@)) && value is None ==> tag_of(
            attributes,
        ) is None,
        key != Some("highway"@) && key != Some("building"@) && key != Some("height"@) && key != Some(
            "building:levels"@,
        ) ==> tag_of(attributes) is None,
{
    lemma_keys_differ();
}

proof fn lemma_keys_differ()
    ensures
        "highway"@ != "building"@,
        "highway"@ != "height"@,
        "highway"@ != "building:levels"@,
        "building"@ != "height"@,
        "building"@ != "building:levels"@,
        "height"@ != "building:levels"@,
{
    reveal_strlit("highway");
    reveal_strlit("building");
    reveal_strlit("height");
    reveal_strlit("building:levels");
    assert("highway"@.len() == 7 && "building"@.len() == 8 && "height"@.len() == 6);
    assert("building:levels"@.len() == 15);
}

/// In an open way every reference to a node is noted behind those before, also where it repeats one,
/// and every telling tag behind the tags before. Nothing else of the survey changes.
pub proof fn open_way_notes_references_and_tags(
    survey: SurveyView,
    way: WayView,
    attributes: Seq<Option<AttributeView>>,
    text: Seq<char>,
)
    requires
        survey.open_way == Some(way),
    ensures
        ({
            let after = absorbed(survey, Token::Open { name: encode_utf8("nd"@), attributes });
            &&& after.nodes == survey.nodes && after.ways == survey.ways
            &&& after.open_way is Some && after.open_way->0.id == way.id && after.open_way->0.tags
                == way.tags
            &&& first_value(attributes, encode_utf8("ref"@)) == Some(text) && parsed_i64(
                text,
            ) is Some ==> after.open_way->0.refs == way.refs.push(parsed_i64(text)->0)
            &&& first_value(attributes, encode_utf8("ref"@)) is None ==> after.open_way->0.refs
                == way.refs
            &&& first_value(attributes, encode_utf8("ref"@)) == Some(text) && parsed_i64(
                text,
            ) is None ==> after.open_way->0.refs == way.refs
        }),
        ({
            let after = absorbed(survey, Token::Open { name: encode_utf8("tag"@), attributes });
            &&& after.nodes == survey.nodes && after.ways == survey.ways
            &&& after.open_way is Some && after.open_way->0.id == way.id && after.open_way->0.refs
                == way.refs
            &&& tag_of(attributes) is Some ==> after.open_way->0.tags == way.tags.push(
                tag_of(attributes)->0,
            )
            &&& tag_of(attributes) is None ==> after.open_way->0.tags == way.tags
        }),
{
    lemma_words_differ();
}

/// A way begins without references and tags and with the integer of its id, or with 0 where it has
/// none; one that was open is given up. Its end notes the open way behind the ways before, and
/// without an open way it notes nothing. Nodes are not touched by either.
pub proof fn ways_begin_and_end(
    survey: SurveyView,
    attributes: Seq<Option<AttributeView>>,
    text: Seq<char>,
)
    ensures
        ({
            let begun = absorbed(survey, Token::Open { name: encode_utf8("way"@), attributes });
            &&& begun.nodes == survey.nodes && begun.ways == survey.ways
            &&& begun.open_way is Some && begun.open_way->0.refs.len() == 0
                && begun.open_way->0.tags.len() == 0
            &&& first_value(attributes, encode_utf8("id"@)) == Some(text) && parsed_i64(
                text,
            ) is Some ==> begun.open_way->0.id == parsed_i64(text)->0
            &&& first_value(attributes, encode_utf8("id"@)) == Some(text) && parsed_i64(
                text,
            ) is None ==> begun.open_way->0.id == 0
            &&& first_value(attributes, encode_utf8("id"@)) is None ==> begun.open_way->0.id == 0
        }),
        ({
            let ended = absorbed(survey, Token::Close { name: encode_utf8("way"@) });
            &&& ended.nodes == survey.nodes && ended.open_way is None
            &&& survey.open_way is Some ==> ended.ways == survey.ways.push(survey.open_way->0)
            &&& survey.open_way is None ==> ended.ways == survey.ways
        }),
{
    lemma_words_differ();
}

/// A node is noted behind the nodes before and changes no way, whether one is open or not.
pub proof fn nodes_are_noted_in_order(
    survey: SurveyView,
    attributes: Seq<Option<AttributeView>>,
)
    ensures
        ({
            let after = absorbed(survey, Token::Open { name: encode_utf8("node"@), attributes });
            &&& after.ways == survey.ways && after.open_way == survey.open_way
            &&& node_of(attributes) is Some ==> after.nodes == survey.nodes.push(
                node_of(attributes)->0,
            )
            &&& node_of(attributes) is None ==> after.nodes == survey.nodes
        }),
{
}

/// No other event says anything of a map: no other tag, no other end tag, nothing between tags.
pub proof fn other_events_say_nothing(
    survey: SurveyView,
    name: Seq<u8>,
    attributes: Seq<Option<AttributeView>>,
)
    ensures
        name != encode_utf8("node"@) && name != encode_utf8("way"@) && name != encode_utf8("nd"@)
            && name != encode_utf8("tag"@) ==> absorbed(survey, Token::Open { name, attributes })
            == survey,
        name != encode_utf8("way"@) ==> absorbed(survey, Token::Close { name }) == survey,
        absorbed(survey, Token::Other) == survey,
{
}

/// A fault in the XML is told with its message, whatever was read before it.
pub proof fn faults_are_told(survey: SurveyView, tokens: Seq<Token>, message: Seq<char>)
    requires
        forall|i: int| 0 <= i < tokens.len() ==> !(#[trigger] tokens[i]).ends(),
    ensures
        surveyed_from(survey, tokens.push(Token::Failed { message })) == Err::<
            SurveyView,
            Seq<char>,
        >("XML parse error: "@ + message),
{
    lemma_survey_continues(survey, tokens, seq![Token::Failed { message }]);
    assert(tokens + seq![Token::Failed { message }] == tokens.push(Token::Failed { message }));
}

/// What the last tag makes of a way: `highway` a road, whatever it was before; `building` a building
/// of 8 metres; a readable number of levels a building of exactly that height, also where it is a
/// building already; a readable height a building of exactly that height where it is a building, and
/// nothing else where it is not. A text that is no number changes nothing.
pub proof fn last_tag_decides(tags: Seq<TagView>, numbers: Seq<Option<Single>>)
    requires
        tags.len() > 0,
        tags.len() == numbers.len(),
    ensures
        ({
            let before = way_kind(tags.drop_last(), numbers.drop_last());
            let after = way_kind(tags, numbers);
            &&& tags.last() is Highway ==> after == Some(WayKind::Highway)
            &&& tags.last() is Building ==> after == Some(
                WayKind::Building { height: Single { bits: 0x4100_0000 } },
            )
            &&& tags.last() is Levels && numbers.last() is Some ==> after == Some(
                WayKind::Building { height: numbers.last()->0 },
            )
            &&& tags.last() is Levels && numbers.last() is None ==> after == before
            &&& tags.last() is Height && numbers.last() is Some && before is Some
                && before->0 is Building ==> after == Some(
                WayKind::Building { height: numbers.last()->0 },
            )
            &&& tags.last() is Height && (numbers.last() is None || before is None
                || before->0 is Highway) ==> after == before
        }),
        way_kind(Seq::empty(), Seq::empty()) is None,
{
    lemma_kind_by_start(tags.drop_last(), numbers, numbers.drop_last());
}

proof fn lemma_kind_by_start(
    tags: Seq<TagView>,
    numbers: Seq<Option<Single>>,
    others: Seq<Option<Single>>,
)
    requires
        tags.len() <= numbers.len(),
        tags.len() <= others.len(),
        forall|i: int| 0 <= i < tags.len() ==> #[trigger] numbers[i] == others[i],
    ensures
        way_kind(tags, numbers) == way_kind(tags, others),
    decreases tags.len(),
{
    if tags.len() > 0 {
        lemma_kind_by_start(tags.drop_last(), numbers, others);
        assert(numbers[tags.len() - 1] == others[tags.len() - 1]);
    }
}

/// Whatever the tags of a way say so far, one more tag settles what it is: a readable number of
/// levels makes it a building of that height, `building` one of 8 metres, and `highway` a road.
pub proof fn one_more_tag_settles_a_way(
    tags: Seq<TagView>,
    numbers: Seq<Option<Single>>,
    text: Seq<char>,
    height: Single,
)
    requires
        tags.len() == numbers.len(),
    ensures
        way_kind(tags.push(TagView::Levels(text)), numbers.push(Some(height))) == Some(
            WayKind::Building { height },
        ),
        way_kind(tags.push(TagView::Building), numbers.push(None)) == Some(
            WayKind::Building { height: Single { bits: 0x4100_0000 } },
        ),
        way_kind(tags.push(TagView::Highway), numbers.push(None)) == Some(WayKind::Highway),
{
    last_tag_decides(tags.push(TagView::Levels(text)), numbers.push(Some(height)));
    last_tag_decides(tags.push(TagView::Building), numbers.push(None));
    last_tag_decides(tags.push(TagView::Highway), numbers.push(None));
}

/// Roads and buildings come in the order of their ways: one more way adds itself behind the others
/// where it is a highway of at least two nodes or a building of at least three, with all its
/// references and its height, and takes nothing away.
pub proof fn shapes_come_in_the_order_of_ways(
    ways: Seq<WayView>,
    way: WayView,
    numbers: Seq<Seq<Option<Single>>>,
    more: Seq<Option<Single>>,
)
    requires
        ways.len() == numbers.len(),
    ensures
        ({
            let roads = road_refs(ways, numbers);
            let buildings = building_refs(ways, numbers);
            let roads_after = road_refs(ways.push(way), numbers.push(more));
            let buildings_after = building_refs(ways.push(way), numbers.push(more));
            match way_kind(way.tags, more) {
                Some(WayKind::Highway) => {
                    &&& way.refs.len() >= 2 ==> roads_after == roads.push(way.refs)
                    &&& way.refs.len() < 2 ==> roads_after == roads
                    &&& buildings_after == buildings
                },
                Some(WayKind::Building { height }) => {
                    &&& way.refs.len() >= 3 ==> buildings_after == buildings.push(
                        (way.refs, height),
                    )
                    &&& way.refs.len() < 3 ==> buildings_after == buildings
                    &&& roads_after == roads
                },
                None => roads_after == roads && buildings_after == buildings,
            }
        }),
        road_refs(Seq::empty(), numbers).len() == 0,
        building_refs(Seq::empty(), numbers).len() == 0,
{
    assert(ways.push(way).drop_last() == ways);
    lemma_shapes_by_start(ways, numbers, numbers.push(more));
}

proof fn lemma_shapes_by_start(
    ways: Seq<WayView>,
    numbers: Seq<Seq<Option<Single>>>,
    others: Seq<Seq<Option<Single>>>,
)
    requires
        ways.len() <= numbers.len(),
        ways.len() <= others.len(),
        forall|i: int| 0 <= i < ways.len() ==> #[trigger] numbers[i] == others[i],
    ensures
        road_refs(ways, numbers) == road_refs(ways, others),
        building_refs(ways, numbers) == building_refs(ways, others),
    decreases ways.len(),
{
    if ways.len() > 0 {
        lemma_shapes_by_start(ways.drop_last(), numbers, others);
        assert(numbers[ways.len() - 1] == others[ways.len() - 1]);
    }
}

/// A way goes through the places of its nodes in order: one more node adds its place behind the
/// others where it has one, also where it repeats a node, and nothing where it has none.
pub proof fn places_follow_nodes(refs: Seq<i64>, id: i64, positions: Map<i64, Vec3>)
    ensures
        positions.contains_key(id) ==> places(refs.push(id), positions) == places(
            refs,
            positions,
        ).push(positions[id]),
        !positions.contains_key(id) ==> places(refs.push(id), positions) == places(refs, positions),
        places(Seq::empty(), positions).len() == 0,
{
    assert(refs.push(id).drop_last() == refs);
}

/// Roads and buildings are laid out in order: one more adds itself behind the others where it keeps
/// enough points, with all of them but a closing point and with its height, and takes nothing away.
pub proof fn shapes_are_laid_in_order(
    roads: Seq<Seq<i64>>,
    buildings: Seq<(Seq<i64>, Single)>,
    refs: Seq<i64>,
    height: Single,
    positions: Map<i64, Vec3>,
)
    ensures
        ({
            let points = places(refs, positions);
            let laid = laid_roads(roads, positions);
            &&& points.len() >= 2 ==> laid_roads(roads.push(refs), positions) == laid.push(points)
            &&& points.len() < 2 ==> laid_roads(roads.push(refs), positions) == laid
        }),
        ({
            let footprint = opened(places(refs, positions));
            let laid = laid_buildings(buildings, positions);
            &&& footprint.len() >= 3 ==> laid_buildings(buildings.push((refs, height)), positions)
                == laid.push((footprint, height))
            &&& footprint.len() < 3 ==> laid_buildings(buildings.push((refs, height)), positions)
                == laid
        }),
        laid_roads(Seq::empty(), positions).len() == 0,
        laid_buildings(Seq::empty(), positions).len() == 0,
{
    assert(roads.push(refs).drop_last() == roads);
    assert(buildings.push((refs, height)).drop_last() == buildings);
}

/// The pieces of roads come road by road: one more road adds, behind the others, a piece from each
/// of its points to the next, and none where it has fewer than two.
pub proof fn road_pieces_come_road_by_road(roads: Seq<Seq<Vec3>>, road: Seq<Vec3>, i: int)
    ensures
        ({
            let before = road_pieces(roads);
            let after = road_pieces(roads.push(road));
            &&& after.len() == before.len() + if road.len() == 0 { 0 } else { road.len() - 1 }
            &&& after.take(before.len() as int) == before
            &&& 0 <= i < road.len() - 1 ==> after[before.len() + i].0 == road[i] && after[before.len()
                + i].1 == road[i + 1]
        }),
        road_pieces(Seq::empty()).len() == 0,
{
    assert(roads.push(road).drop_last() == roads);
}

/// The nearest point is one of the projections; none is nearer, and none that stands before it is as
/// near. Where no projection is at a distance it is the origin.
pub proof fn nearest_point_is_nearest(projections: Seq<Projection>, point: Vec3)
    requires
        nearest_point(projections, point),
    ensures
        (forall|j: int| 0 <= j < projections.len() ==> !(#[trigger] projections[j]).distance_squared.less(
            Single { bits: 0x7f80_0000 },
        )) ==> point == crate::geometry::at(0, 0, 0),
        (exists|j: int| 0 <= j < projections.len() && (#[trigger] projections[j]).distance_squared.less(
            Single { bits: 0x7f80_0000 },
        )) ==> exists|i: int|
            {
                &&& 0 <= i < projections.len()
                &&& point == (#[trigger] projections[i]).point
                &&& projections[i].distance_squared.less(Single { bits: 0x7f80_0000 })
                &&& forall|j: int| 0 <= j < projections.len() && !(
                #[trigger] projections[j]).distance_squared.nan()
                    ==> projections[i].distance_squared.at_most(projections[j].distance_squared)
                &&& forall|j: int| 0 <= j < i && !(#[trigger] projections[j]).distance_squared.nan()
                    ==> projections[i].distance_squared.less(projections[j].distance_squared)
            },
{
    if exists|j: int| 0 <= j < projections.len() && (#[trigger] projections[j]).distance_squared.less(
        Single { bits: 0x7f80_0000 },
    ) {
        let j = choose|j: int| 0 <= j < projections.len() && (#[trigger] projections[j]).distance_squared.less(
            Single { bits: 0x7f80_0000 },
        );
        assert(reachable(projections[j]));
        let i = choose|i: int|
            #[trigger] nearest_at(projections, i) && point == projections[i].point;
        assert(nearest_at(projections, i));
        assert(projections[i].point == point);
        assert forall|j: int| 0 <= j < projections.len() && !(
        #[trigger] projections[j]).distance_squared.nan() implies projections[i].distance_squared.at_most(
            projections[j].distance_squared) by {
            assert(!projections[j].distance_squared.less(projections[i].distance_squared));
        }
        assert forall|j: int| 0 <= j < i && !(#[trigger] projections[j]).distance_squared.nan()
            implies projections[i].distance_squared.less(projections[j].distance_squared) by {
            assert(!projections[j].distance_squared.less(projections[i].distance_squared));
            assert(!projections[j].distance_squared.equal(projections[i].distance_squared));
        }
    } else {
        assert forall|i: int| !nearest_at(projections, i) by {
            if nearest_at(projections, i) {
                assert(projections[i].distance_squared.less(Single { bits: 0x7f80_0000 }));
            }
        }
    }
}

/// Contracts speak of all there is of roads and buildings: every one, in order, with all its points
/// and its height.
pub proof fn shapes_are_seen_whole(
    roads: Seq<RoadSegment>,
    buildings: Seq<Building>,
    refs: Seq<BuildingRefs>,
    events: Seq<XmlEvent>,
    i: int,
)
    ensures
        road_points(roads).len() == roads.len(),
        0 <= i < roads.len() ==> road_points(roads)[i] == roads[i].points@,
        building_shapes(buildings).len() == buildings.len(),
        0 <= i < buildings.len() ==> building_shapes(buildings)[i].0 == buildings[i].footprint@
            && building_shapes(buildings)[i].1 == buildings[i].height,
        footprints(buildings).len() == buildings.len(),
        0 <= i < buildings.len() ==> footprints(buildings)[i] == buildings[i].footprint@,
        outlines(refs).len() == refs.len(),
        0 <= i < refs.len() ==> outlines(refs)[i].0 == refs[i].refs@ && outlines(refs)[i].1
            == refs[i].height,
        tokens_of(events).len() == events.len(),
        0 <= i < events.len() ==> tokens_of(events)[i] == events[i]@,
{
}

} // verus!
