//! Reading a GeoJSON document with the `geojson` crate.
use geojson::{GeoJson, Geometry, LineStringType, PolygonType, Position, Value};
use vstd::float::FloatBitsProperties;
use vstd::prelude::*;

verus! {

/// The shape of a geometry.
#[derive(Debug)]
pub enum GeoShape {
    /// The rings of a polygon, the outer one first.
    Polygon(PolygonType),
    /// The rings of each of several polygons.
    MultiPolygon(Vec<PolygonType>),
    Point,
    MultiPoint,
    LineString,
    MultiLineString,
    GeometryCollection,
}

/// A GeoJSON document, as far as its shapes go.
#[derive(Debug)]
pub enum GeoDocument {
    /// The features of a collection, each with its shape where it has one.
    Collection(Vec<Option<GeoShape>>),
    /// One feature, with its shape where it has one.
    Feature(Option<GeoShape>),
    /// A bare geometry.
    Geometry(GeoShape),
}

/// What a shape is. Coordinates are bit patterns of double-precision numbers.
pub enum ShapeView {
    Polygon(Seq<Seq<Seq<u64>>>),
    MultiPolygon(Seq<Seq<Seq<Seq<u64>>>>),
    Point,
    MultiPoint,
    LineString,
    MultiLineString,
    GeometryCollection,
}

/// What a document holds.
pub enum DocumentView {
    Collection(Seq<Option<ShapeView>>),
    Feature(Option<ShapeView>),
    Geometry(ShapeView),
}

/// A position, as the bit patterns of its coordinates.
pub open spec fn position_view(position: Position) -> Seq<u64> {
    Seq::new(position@.len(), |i: int| position@[i].to_bits_spec())
}

/// A ring, as its positions.
pub open spec fn ring_view(ring: Seq<Position>) -> Seq<Seq<u64>> {
    ring.map_values(|position: Position| position_view(position))
}

/// A polygon, as its rings.
pub open spec fn rings_view(rings: Seq<LineStringType>) -> Seq<Seq<Seq<u64>>> {
    rings.map_values(|ring: LineStringType| ring_view(ring@))
}

impl View for GeoShape {
    type V = ShapeView;

    open spec fn view(&self) -> ShapeView {
        match *self {
            GeoShape::Polygon(rings) => ShapeView::Polygon(rings_view(rings@)),
            GeoShape::MultiPolygon(polygons) => ShapeView::MultiPolygon(
                polygons@.map_values(|rings: PolygonType| rings_view(rings@)),
            ),
            GeoShape::Point => ShapeView::Point,
            GeoShape::MultiPoint => ShapeView::MultiPoint,
            GeoShape::LineString => ShapeView::LineString,
            GeoShape::MultiLineString => ShapeView::MultiLineString,
            GeoShape::GeometryCollection => ShapeView::GeometryCollection,
        }
    }
}

/// The shape of a feature, where it has one.
pub open spec fn feature_view(shape: Option<GeoShape>) -> Option<ShapeView> {
    match shape {
        Some(shape) => Some(shape@),
        None => None,
    }
}

impl View for GeoDocument {
    type V = DocumentView;

    open spec fn view(&self) -> DocumentView {
        match *self {
            GeoDocument::Collection(features) => DocumentView::Collection(
                features@.map_values(|shape: Option<GeoShape>| feature_view(shape)),
            ),
            GeoDocument::Feature(shape) => DocumentView::Feature(feature_view(shape)),
            GeoDocument::Geometry(shape) => DocumentView::Geometry(shape@),
        }
    }
}

/// What a document or its error says.
pub open spec fn document_result(r: Result<GeoDocument, String>) -> Result<
    DocumentView,
    Seq<char>,
> {
    match r {
        Ok(document) => Ok(document@),
        Err(message) => Err(message@),
    }
}

/// The bit pattern of a coordinate, by `to_bits` of double-precision numbers.
///
/// Trusted: it is the bit pattern by which Verus tells such numbers apart.
#[verifier::external_body]
pub(crate) fn coordinate_bits(position: &Position, i: usize) -> (r: u64)
    requires
        i < position@.len(),
    ensures
        r == position_view(*position)[i as int],
{
    position[i].to_bits()
}

/// What the `geojson` crate reads from a text: a document, or the message of an error.
pub uninterp spec fn geojson_document(text: Seq<char>) -> Result<DocumentView, Seq<char>>;

/// `str::parse::<GeoJson>`, its value turned into plain values.
///
/// Trusted: the document, or the error's message, depends on the text alone.
#[verifier::external_body]
pub(crate) fn read_geojson(text: &str) -> (r: Result<GeoDocument, String>)
    ensures
        document_result(r) == geojson_document(text@),
{
    let shape = |geometry: Geometry| match geometry.value {
        Value::Polygon(rings) => GeoShape::Polygon(rings),
        Value::MultiPolygon(polygons) => GeoShape::MultiPolygon(polygons),
        Value::Point(_) => GeoShape::Point,
        Value::MultiPoint(_) => GeoShape::MultiPoint,
        Value::LineString(_) => GeoShape::LineString,
        Value::MultiLineString(_) => GeoShape::MultiLineString,
        Value::GeometryCollection(_) => GeoShape::GeometryCollection
    };
    text.parse().map(|document| match document {
        GeoJson::FeatureCollection(c) => GeoDocument::Collection(c.into_iter().map(|f| f.geometry.map(shape)).collect()),
        GeoJson::Feature(feature) => GeoDocument::Feature(feature.geometry.map(shape)),
        GeoJson::Geometry(geometry) => GeoDocument::Geometry(shape(geometry))
    }).map_err(|error| error.to_string())
}

/// Positions, rings and polygons are seen whole: every number of every position, bit for bit and in
/// order.
pub proof fn shapes_are_seen_whole(polygon: PolygonType, r: int, p: int, c: int)
    requires
        0 <= r < polygon@.len(),
        0 <= p < polygon@[r]@.len(),
        0 <= c < polygon@[r]@[p]@.len(),
    ensures
        rings_view(polygon@).len() == polygon@.len(),
        rings_view(polygon@)[r].len() == polygon@[r]@.len(),
        rings_view(polygon@)[r][p].len() == polygon@[r]@[p]@.len(),
        rings_view(polygon@)[r][p][c] == polygon@[r]@[p]@[c].to_bits_spec(),
        (GeoShape::Polygon(polygon))@ == ShapeView::Polygon(rings_view(polygon@)),
{
}

} // verus!
