//! The world map: land and urban areas as polygons.
use crate::geojson_text::{
    coordinate_bits, feature_view, geojson_document, position_view, read_geojson, ring_view, rings_view, DocumentView,
    GeoDocument, GeoShape, ShapeView,
};
use crate::geometry::{drop_closing_point, opened, origin, vec3, Vec3};
use crate::single::ZERO;
use geojson::{LineStringType, PolygonType};
use vstd::prelude::*;

verus! {

/// A position on the globe: longitude and latitude in degrees, as bit patterns of
/// double-precision numbers. A position that lacks either stands as `None`.
pub type LonLat = Option<(u64, u64)>;

/// An area of the world map, in the map's plane.
#[derive(Clone, Debug)]
pub struct ContinentPolygon {
    pub points: Vec<Vec3>,
}

/// The longitude and latitude that a position starts with.
pub open spec fn lon_lat(position: Seq<u64>) -> LonLat {
    if position.len() < 2 {
        None
    } else {
        Some((position[0], position[1]))
    }
}

/// A ring's longitudes and latitudes.
pub open spec fn ring_positions(ring: Seq<Seq<u64>>) -> Seq<LonLat> {
    ring.map_values(|position: Seq<u64>| lon_lat(position))
}

/// The outer ring of a polygon, where it has one.
pub open spec fn outer_ring(rings: Seq<Seq<Seq<u64>>>) -> Seq<Seq<LonLat>> {
    if rings.len() == 0 {
        Seq::empty()
    } else {
        seq![ring_positions(rings[0])]
    }
}

/// The outer rings of several polygons.
pub open spec fn outer_rings(polygons: Seq<Seq<Seq<Seq<u64>>>>) -> Seq<Seq<LonLat>>
    decreases polygons.len(),
{
    if polygons.len() == 0 {
        Seq::empty()
    } else {
        outer_rings(polygons.drop_last()) + outer_ring(polygons.last())
    }
}

/// The outer rings of a shape. Only polygons have any.
pub open spec fn shape_rings(shape: ShapeView) -> Seq<Seq<LonLat>> {
    match shape {
        ShapeView::Polygon(rings) => outer_ring(rings),
        ShapeView::MultiPolygon(polygons) => outer_rings(polygons),
        _ => Seq::empty(),
    }
}

/// The outer rings of a feature.
pub open spec fn feature_rings(shape: Option<ShapeView>) -> Seq<Seq<LonLat>> {
    match shape {
        Some(shape) => shape_rings(shape),
        None => Seq::empty(),
    }
}

/// The outer rings of features, feature by feature.
pub open spec fn collection_rings(features: Seq<Option<ShapeView>>) -> Seq<Seq<LonLat>>
    decreases features.len(),
{
    if features.len() == 0 {
        Seq::empty()
    } else {
        collection_rings(features.drop_last()) + feature_rings(features.last())
    }
}

/// The outer rings of all polygons of a document, in order.
pub open spec fn document_rings(document: DocumentView) -> Seq<Seq<LonLat>> {
    match document {
        DocumentView::Collection(features) => collection_rings(features),
        DocumentView::Feature(shape) => feature_rings(shape),
        DocumentView::Geometry(shape) => shape_rings(shape),
    }
}

/// Rings, as their positions.
pub open spec fn rings_of(rings: Seq<Vec<LonLat>>) -> Seq<Seq<LonLat>> {
    rings.map_values(|ring: Vec<LonLat>| ring@)
}

/// What the rings or an error say.
pub open spec fn rings_result(r: Result<Vec<Vec<LonLat>>, String>) -> Result<
    Seq<Seq<LonLat>>,
    Seq<char>,
> {
    match r {
        Ok(rings) => Ok(rings_of(rings@)),
        Err(message) => Err(message@),
    }
}

/// The outer rings of all polygons in a GeoJSON text, or what is wrong with it.
pub open spec fn land_rings(document: Result<DocumentView, Seq<char>>) -> Result<
    Seq<Seq<LonLat>>,
    Seq<char>,
> {
    match document {
        Ok(document) => Ok(document_rings(document)),
        Err(message) => Err(message),
    }
}

fn read_ring(ring: &LineStringType) -> (r: Vec<LonLat>)
    ensures
        r@ == ring_positions(ring_view(ring@)),
{
    let mut r: Vec<LonLat> = Vec::new();
    for i in 0..ring.len()
        invariant
            r@ == ring_positions(ring_view(ring@)).take(i as int),
    {
        let position = &ring[i];
        assert(ring_view(ring@)[i as int] == position_view(*position));
        r.push(
            if position.len() < 2 {
                None
            } else {
                Some((coordinate_bits(position, 0), coordinate_bits(position, 1)))
            },
        );
    }
    r
}

fn push_outer_ring(rings: &PolygonType, out: &mut Vec<Vec<LonLat>>)
    ensures
        rings_of(final(out)@) == rings_of(old(out)@) + outer_ring(rings_view(rings@)),
{
    let ghost before = rings_of(out@);
    if rings.len() > 0 {
        let ring = read_ring(&rings[0]);
        let ghost added = ring@;
        assert(rings_view(rings@)[0] == ring_view(rings@[0]@));
        out.push(ring);
        assert(rings_of(out@) == before + seq![added]);
    } else {
        assert(before + Seq::<Seq<LonLat>>::empty() == before);
    }
}

/// Appends the outer rings of a shape.
pub fn extract_polygons_from_geometry(shape: &GeoShape, out: &mut Vec<Vec<LonLat>>)
    ensures
        rings_of(final(out)@) == rings_of(old(out)@) + shape_rings(shape@),
{
    let ghost before = rings_of(out@);
    match shape {
        GeoShape::Polygon(rings) => push_outer_ring(rings, out),
        GeoShape::MultiPolygon(polygons) => {
            let ghost views = polygons@.map_values(|rings: PolygonType| rings_view(rings@));
            assert(before + outer_rings(views.take(0)) == before);
            for i in 0..polygons.len()
                invariant
                    views == polygons@.map_values(|rings: PolygonType| rings_view(rings@)),
                    rings_of(out@) == before + outer_rings(views.take(i as int)),
            {
                assert(views.take(i + 1).drop_last() == views.take(i as int));
                push_outer_ring(&polygons[i], out);
            }
            assert(views.take(polygons@.len() as int) == views);
        },
        _ => {
            assert(before + Seq::<Seq<LonLat>>::empty() == before);
        },
    }
}

/// The outer rings of all polygons of a document, in order. Holes are left out.
pub fn document_polygons(document: &GeoDocument) -> (r: Vec<Vec<LonLat>>)
    ensures
        rings_of(r@) == document_rings(document@),
{
    let mut out: Vec<Vec<LonLat>> = Vec::new();
    assert(rings_of(out@) == Seq::<Seq<LonLat>>::empty());
    match document {
        GeoDocument::Collection(features) => {
            let ghost views = features@.map_values(|shape: Option<GeoShape>| feature_view(shape));
            for i in 0..features.len()
                invariant
                    views == features@.map_values(|shape: Option<GeoShape>| feature_view(shape)),
                    rings_of(out@) == collection_rings(views.take(i as int)),
            {
                assert(views.take(i + 1).drop_last() == views.take(i as int));
                if let Some(shape) = &features[i] {
                    extract_polygons_from_geometry(shape, &mut out);
                }
            }
            assert(views.take(features@.len() as int) == views);
        },
        GeoDocument::Feature(shape) => {
            if let Some(shape) = shape {
                extract_polygons_from_geometry(shape, &mut out);
            }
        },
        GeoDocument::Geometry(shape) => extract_polygons_from_geometry(shape, &mut out),
    }
    out
}

/// The outer rings of all polygons in a GeoJSON text, or what is wrong with it.
pub fn parse_land_geojson(text: &str) -> (r: Result<Vec<Vec<LonLat>>, String>)
    ensures
        rings_result(r) == land_rings(geojson_document(text@)),
{
    match read_geojson(text) {
        Ok(document) => Ok(document_polygons(&document)),
        Err(message) => Err(message),
    }
}

/// A ring in the map's plane: `projected` gives the place of each position. A position that
/// lacks a longitude or a latitude is at the origin.
pub open spec fn projected_ring(ring: Seq<LonLat>, projected: Seq<Vec3>) -> Seq<Vec3> {
    Seq::new(ring.len(), |i: int| if ring[i] is Some { projected[i] } else { origin() })
}

/// The polygon that a ring outlines in the map's plane. A closing point that repeats the first
/// is dropped.
pub fn ring_to_polygon(ring: &Vec<LonLat>, projected: &Vec<Vec3>) -> (r: ContinentPolygon)
    requires
        projected@.len() == ring@.len(),
    ensures
        r.points@ == opened(projected_ring(ring@, projected@)),
{
    let mut points: Vec<Vec3> = Vec::new();
    for i in 0..ring.len()
        invariant
            projected@.len() == ring@.len(),
            points@ == projected_ring(ring@, projected@).take(i as int),
    {
        points.push(
            match ring[i] {
                Some(_) => projected[i],
                None => vec3(ZERO, ZERO, ZERO),
            },
        );
    }
    assert(projected_ring(ring@, projected@).take(ring@.len() as int) == projected_ring(
        ring@,
        projected@,
    ));
    ContinentPolygon { points: drop_closing_point(points) }
}

/// A document's polygons are those of its features, one after the other.
pub proof fn features_add_up(first: Seq<Option<ShapeView>>, more: Seq<Option<ShapeView>>)
    ensures
        collection_rings(first + more) == collection_rings(first) + collection_rings(more),
    decreases more.len(),
{
    if more.len() == 0 {
        assert(first + more == first);
        assert(collection_rings(first) + collection_rings(more) == collection_rings(first));
    } else {
        features_add_up(first, more.drop_last());
        assert((first + more).drop_last() == first + more.drop_last());
        assert((first + more).last() == more.last());
        assert(collection_rings(first + more) == collection_rings(first) + (collection_rings(
            more.drop_last(),
        ) + feature_rings(more.last())));
    }
}

/// Each polygon of a collection of polygons that have rings counts once.
pub proof fn every_polygon_counts(polygons: Seq<Seq<Seq<Seq<u64>>>>)
    requires
        forall|i: int| 0 <= i < polygons.len() ==> (#[trigger] polygons[i]).len() > 0,
    ensures
        outer_rings(polygons) == Seq::new(
            polygons.len(),
            |i: int| ring_positions(polygons[i][0]),
        ),
    decreases polygons.len(),
{
    if polygons.len() > 0 {
        let rest = polygons.drop_last();
        assert forall|i: int| 0 <= i < rest.len() implies (#[trigger] rest[i]).len() > 0 by {
            assert(rest[i] == polygons[i]);
        }
        assert(polygons[polygons.len() - 1].len() > 0);
        every_polygon_counts(rest);
    }
}

/// A ring keeps its positions in order, each by its first two numbers, bit for bit and the first
/// one first; a position of fewer numbers is none.
pub proof fn ring_keeps_its_positions(ring: Seq<Seq<u64>>, i: int)
    requires
        0 <= i < ring.len(),
    ensures
        ring_positions(ring).len() == ring.len(),
        ring[i].len() < 2 ==> ring_positions(ring)[i] is None,
        ring[i].len() >= 2 ==> ring_positions(ring)[i] == Some((ring[i][0], ring[i][1])),
{
}

/// A polygon gives its first ring and no other; one without rings gives none. Points, lines and
/// collections give none.
pub proof fn shapes_give_outer_rings(rings: Seq<Seq<Seq<u64>>>)
    ensures
        rings.len() > 0 ==> shape_rings(ShapeView::Polygon(rings)).len() == 1 && shape_rings(
            ShapeView::Polygon(rings),
        )[0] == ring_positions(rings[0]),
        rings.len() == 0 ==> shape_rings(ShapeView::Polygon(rings)).len() == 0,
        shape_rings(ShapeView::Point).len() == 0,
        shape_rings(ShapeView::MultiPoint).len() == 0,
        shape_rings(ShapeView::LineString).len() == 0,
        shape_rings(ShapeView::MultiLineString).len() == 0,
        shape_rings(ShapeView::GeometryCollection).len() == 0,
{
}

/// Several polygons give what each of them gives, one after the other.
pub proof fn polygons_add_up(
    first: Seq<Seq<Seq<Seq<u64>>>>,
    more: Seq<Seq<Seq<Seq<u64>>>>,
    one: Seq<Seq<Seq<u64>>>,
)
    ensures
        shape_rings(ShapeView::MultiPolygon(first + more)) == shape_rings(
            ShapeView::MultiPolygon(first),
        ) + shape_rings(ShapeView::MultiPolygon(more)),
        shape_rings(ShapeView::MultiPolygon(seq![one])) == shape_rings(ShapeView::Polygon(one)),
        shape_rings(ShapeView::MultiPolygon(Seq::empty())).len() == 0,
    decreases more.len(),
{
    reveal_with_fuel(outer_rings, 2);
    assert(seq![one].drop_last() == Seq::<Seq<Seq<Seq<u64>>>>::empty());
    assert(outer_rings(seq![one]) == outer_ring(one));
    if more.len() == 0 {
        assert(first + more == first);
        assert(outer_rings(first) + outer_rings(more) == outer_rings(first));
    } else {
        polygons_add_up(first, more.drop_last(), one);
        assert((first + more).drop_last() == first + more.drop_last());
        assert((first + more).last() == more.last());
        assert(outer_rings(first + more) == outer_rings(first) + (outer_rings(more.drop_last())
            + outer_ring(more.last())));
    }
}

/// A shape gives the same polygons bare, as a feature, and as the only feature of a collection; a
/// feature without a shape gives none. A text that is no GeoJSON gives its error and nothing else.
pub proof fn shapes_count_alike(shape: ShapeView, message: Seq<char>)
    ensures
        document_rings(DocumentView::Geometry(shape)) == shape_rings(shape),
        document_rings(DocumentView::Feature(Some(shape))) == shape_rings(shape),
        document_rings(DocumentView::Collection(seq![Some(shape)])) == shape_rings(shape),
        document_rings(DocumentView::Collection(seq![None])).len() == 0,
        document_rings(DocumentView::Collection(Seq::empty())).len() == 0,
        document_rings(DocumentView::Feature(None)).len() == 0,
        land_rings(Err(message)) == Err::<Seq<Seq<LonLat>>, Seq<char>>(message),
        land_rings(Ok(DocumentView::Geometry(shape))) == Ok::<Seq<Seq<LonLat>>, Seq<char>>(
            shape_rings(shape),
        ),
{
    reveal_with_fuel(collection_rings, 2);
    assert(seq![Some(shape)].drop_last() == Seq::<Option<ShapeView>>::empty());
    assert(seq![None::<ShapeView>].drop_last() == Seq::<Option<ShapeView>>::empty());
    assert(collection_rings(seq![Some(shape)]) == shape_rings(shape));
}

/// Every document is read as the features in it: the rings of a document are those of a collection.
pub proof fn documents_are_read_whole(document: DocumentView)
    ensures
        land_rings(Ok(document)) == Ok::<Seq<Seq<LonLat>>, Seq<char>>(document_rings(document)),
        document matches DocumentView::Collection(features) ==> document_rings(document)
            == collection_rings(features),
{
}

/// A position in the plane is where it was projected, bit for bit; one that lacks a longitude or a
/// latitude is at the origin.
pub proof fn positions_stay_where_projected(ring: Seq<LonLat>, projected: Seq<Vec3>, i: int)
    requires
        projected.len() == ring.len(),
        0 <= i < ring.len(),
    ensures
        projected_ring(ring, projected).len() == ring.len(),
        ring[i] is Some ==> projected_ring(ring, projected)[i] == projected[i],
        ring[i] is None ==> projected_ring(ring, projected)[i] == crate::geometry::at(0, 0, 0),
{
}

} // verus!
