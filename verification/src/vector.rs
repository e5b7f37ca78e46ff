//! Decoding of vector tiles into layers of features.

use vstd::prelude::*;
use crate::errors::VectorDecodeError;
use crate::raster::Feature;
use crate::raster::FeatureView;
use crate::raster::GeometryKind;
use crate::raster::Layer;
use crate::raster::LayerView;
use crate::raster::PaintOp;
use crate::raster::features_view;
use crate::raster::layers_view;
use crate::raster::paint_plan;
use crate::raster::plan_of;
use crate::raster::plan_view;
use geo::Geometry;

verus! {

/// `mvt_reader::Reader`, the decoded form of a tile. The proofs see nothing
/// of what is inside.
#[verifier::external_type_specification]
#[verifier::external_body]
pub struct ExReader(mvt_reader::Reader);

/// `mvt_reader::error::ParserError`, the reason for which a tile was
/// rejected. The proofs see nothing of what is inside.
#[verifier::external_type_specification]
#[verifier::external_body]
pub struct ExParserError(mvt_reader::error::ParserError);

/// The features of one layer as the tile reader hands them out, a list of
/// `mvt_reader::feature::Feature` with integer coordinates. The proofs see
/// nothing of what is inside: what the list holds goes by the name
/// [`listed_features`].
#[verifier::external_body]
pub struct FeatureList {
    inner: Vec<mvt_reader::feature::Feature<i32>>,
}

/// The bytes that a tile reader was made from.
pub uninterp spec fn reader_data(reader: mvt_reader::Reader) -> Seq<u8>;

/// The tile reader accepts `data` as the encoding of a tile.
pub uninterp spec fn tile_parses(data: Seq<u8>) -> bool;

/// The names of the layers of the tile encoded in `data`, in their order;
/// `None` where the reader rejects a layer.
pub uninterp spec fn tile_layer_names(data: Seq<u8>) -> Option<Seq<Seq<char>>>;

/// A feature as the tile reader hands it out: the kind of its geometry and
/// its shapes. A shape of a polygon or of a set of polygons is one polygon
/// with all its rings, the outer ring first. A shape of any other geometry
/// is a single run of points: a point, the two ends of a line, the vertices
/// of one line string, or the points of a point set.
pub struct ReadFeature {
    pub kind: GeometryKind,
    pub shapes: Seq<Seq<Seq<(i32, i32)>>>,
}

/// The features of layer number `layer` of the tile encoded in `data`;
/// `None` where the reader rejects one of them.
pub uninterp spec fn tile_layer_features(data: Seq<u8>, layer: nat) -> Option<Seq<ReadFeature>>;

/// The features that a list holds.
pub uninterp spec fn listed_features(list: FeatureList) -> Seq<ReadFeature>;

/// The kinds of geometry that are a single run of points.
pub open spec fn single_run(kind: GeometryKind) -> bool {
    kind == GeometryKind::Point || kind == GeometryKind::Line || kind == GeometryKind::LineString
        || kind == GeometryKind::MultiPoint
}

/// The kinds of geometry whose shapes are polygons with rings.
pub open spec fn has_rings(kind: GeometryKind) -> bool {
    kind == GeometryKind::Polygon || kind == GeometryKind::MultiPolygon
}

/// The first run of a shape: the outer ring of a polygon, the only run of
/// any other shape. A shape without runs gives no points.
pub open spec fn first_run(shape: Seq<Seq<(i32, i32)>>) -> Seq<(i32, i32)> {
    if shape.len() > 0 {
        shape[0]
    } else {
        Seq::empty()
    }
}

/// What is drawn of a feature: of each of its shapes the first run. Of a
/// polygon that is the outer ring; holes are not drawn.
pub open spec fn drawn_feature(read: ReadFeature) -> FeatureView {
    FeatureView {
        kind: read.kind,
        parts: Seq::new(read.shapes.len(), |j: int| first_run(read.shapes[j])),
    }
}

/// What is drawn of the features of a layer.
pub open spec fn drawn_features(read: Seq<ReadFeature>) -> Seq<FeatureView> {
    Seq::new(read.len(), |k: int| drawn_feature(read[k]))
}

/// Calls `mvt_reader::Reader::new` on a copy of the bytes, which decodes
/// them as a tile. The contract names whether the bytes are accepted, and
/// records which bytes the reader holds.
#[verifier::external_body]
fn read_tile(data: &Vec<u8>) -> (r: Result<mvt_reader::Reader, mvt_reader::error::ParserError>)
    ensures
        r.is_ok() == tile_parses(data@),
        match r {
            Ok(reader) => reader_data(reader) == data@,
            Err(_) => true,
        },
{
    mvt_reader::Reader::new(data.clone())
}

/// Calls `Reader::get_layer_names`, which lists the names of the layers or
/// fails on a layer of an unknown version. The contract names the outcome as
/// a function of the reader's bytes.
#[verifier::external_body]
fn reader_layer_names(reader: &mvt_reader::Reader) -> (r: Result<
    Vec<String>,
    mvt_reader::error::ParserError,
>)
    ensures
        match r {
            Ok(names) => tile_layer_names(reader_data(*reader)) == Some(
                names@.map_values(|s: String| s@),
            ),
            Err(_) => tile_layer_names(reader_data(*reader)).is_none(),
        },
{
    reader.get_layer_names()
}

/// Calls `Reader::get_features_as` for 32-bit integer coordinates, which
/// decodes the features of one layer or fails on a malformed one. The
/// contract names the outcome as a function of the reader's bytes and the
/// layer's number.
#[verifier::external_body]
fn reader_features(reader: &mvt_reader::Reader, layer: usize) -> (r: Result<
    FeatureList,
    mvt_reader::error::ParserError,
>)
    ensures
        match r {
            Ok(list) => tile_layer_features(reader_data(*reader), layer as nat) == Some(
                listed_features(list),
            ),
            Err(_) => tile_layer_features(reader_data(*reader), layer as nat).is_none(),
        },
{
    Ok(FeatureList { inner: reader.get_features_as::<i32>(layer)? })
}

/// The number of features in a list (`Vec::len`).
#[verifier::external_body]
fn feature_count(list: &FeatureList) -> (n: usize)
    ensures
        n == listed_features(*list).len(),
{
    list.inner.len()
}

/// Tells the variants of `geo::Geometry` apart for feature number `i`.
#[verifier::external_body]
fn feature_kind(list: &FeatureList, i: usize) -> (kind: GeometryKind)
    requires
        i < listed_features(*list).len(),
    ensures
        kind == listed_features(*list)[i as int].kind,
{
    match &list.inner[i].geometry {
        Geometry::Point(_) => GeometryKind::Point,
        Geometry::Line(_) => GeometryKind::Line,
        Geometry::LineString(_) => GeometryKind::LineString,
        Geometry::Polygon(_) => GeometryKind::Polygon,
        Geometry::MultiPolygon(_) => GeometryKind::MultiPolygon,
        Geometry::MultiPoint(_) => GeometryKind::MultiPoint,
        Geometry::MultiLineString(_) => GeometryKind::MultiLineString,
        _ => GeometryKind::Unsupported,
    }
}

/// Hands out the coordinates of feature number `i`, whose geometry is a
/// single run of points: the point itself, the two ends of a line, the
/// vertices of a line string, or the points of a point set.
#[verifier::external_body]
fn feature_points(list: &FeatureList, i: usize) -> (points: Vec<(i32, i32)>)
    requires
        i < listed_features(*list).len(),
        single_run(listed_features(*list)[i as int].kind),
    ensures
        listed_features(*list)[i as int].shapes == seq![seq![points@]],
{
    match &list.inner[i].geometry {
        Geometry::Point(p) => vec![(p.0.x, p.0.y)],
        Geometry::Line(l) => vec![(l.start.x, l.start.y), (l.end.x, l.end.y)],
        Geometry::LineString(s) => s.0.iter().map(|c| (c.x, c.y)).collect(),
        Geometry::MultiPoint(m) => m.0.iter().map(|p| (p.0.x, p.0.y)).collect(),
        _ => Vec::new(),
    }
}

/// Hands out the coordinates of feature number `i`, a set of line strings,
/// run by run: the vertices of each line string. A geometry that is not
/// drawn has no run.
#[verifier::external_body]
fn feature_lines(list: &FeatureList, i: usize) -> (runs: Vec<Vec<(i32, i32)>>)
    requires
        i < listed_features(*list).len(),
        !has_rings(listed_features(*list)[i as int].kind),
        !single_run(listed_features(*list)[i as int].kind),
    ensures
        listed_features(*list)[i as int].shapes == Seq::new(
            runs@.len(),
            |j: int| seq![runs@[j]@],
        ),
{
    match &list.inner[i].geometry {
        Geometry::MultiLineString(m) => m.0.iter().map(
            |s| s.0.iter().map(|c| (c.x, c.y)).collect(),
        ).collect(),
        _ => Vec::new(),
    }
}

/// Hands out the coordinates of feature number `i`, a polygon or a set of
/// polygons, polygon by polygon: of each polygon every ring, the outer ring
/// (`exterior`) first, then the inner ones (`interiors`) in their order.
#[verifier::external_body]
fn feature_polygons(list: &FeatureList, i: usize) -> (polygons: Vec<Vec<Vec<(i32, i32)>>>)
    requires
        i < listed_features(*list).len(),
        has_rings(listed_features(*list)[i as int].kind),
    ensures
        listed_features(*list)[i as int].shapes == Seq::new(
            polygons@.len(),
            |j: int| Seq::new(polygons@[j]@.len(), |k: int| polygons@[j]@[k]@),
        ),
{
    let polygons = match &list.inner[i].geometry {
        Geometry::Polygon(p) => std::slice::from_ref(p),
        Geometry::MultiPolygon(m) => &m.0[..],
        _ => &[],
    };
    polygons.iter().map(
        |p| std::iter::once(p.exterior()).chain(p.interiors()).map(
            |ring| ring.0.iter().map(|c| (c.x, c.y)).collect(),
        ).collect(),
    ).collect()
}

/// What decoding the bytes of a vector tile gives: the layers in their
/// order, each with its name and what is drawn of its features; `None`
/// where the bytes, a layer or a feature is rejected.
pub open spec fn decoded_tile(data: Seq<u8>) -> Option<Seq<LayerView>> {
    if !tile_parses(data) {
        None
    } else {
        match tile_layer_names(data) {
            None => None,
            Some(names) => if forall|i: int|
                0 <= i < names.len() ==> (#[trigger] tile_layer_features(data, i as nat)).is_some() {
                Some(
                    Seq::new(
                        names.len(),
                        |i: int|
                            LayerView {
                                name: names[i],
                                features: drawn_features(
                                    tile_layer_features(data, i as nat).unwrap(),
                                ),
                            },
                    ),
                )
            } else {
                None
            },
        }
    }
}

/// Makes a copy of a run of points.
fn copy_run(run: &Vec<(i32, i32)>) -> (copy: Vec<(i32, i32)>)
    ensures
        copy@ == run@,
{
    let mut copy: Vec<(i32, i32)> = Vec::new();
    let mut i: usize = 0;
    while i < run.len()
        invariant
            i <= run@.len(),
            copy@ == run@.take(i as int),
        decreases run@.len() - i,
    {
        copy.push(run[i]);
        assert(run@.take(i + 1) =~= run@.take(i as int).push(run@[i as int]));
        i = i + 1;
    }
    assert(run@.take(run@.len() as int) =~= run@);
    copy
}

/// Takes the outer ring of each polygon: the first of its rings.
fn outer_rings(polygons: &Vec<Vec<Vec<(i32, i32)>>>) -> (rings: Vec<Vec<(i32, i32)>>)
    ensures
        rings@.len() == polygons@.len(),
        forall|j: int|
            0 <= j < rings@.len() ==> (#[trigger] rings@[j])@ == first_run(
                Seq::new(polygons@[j]@.len(), |k: int| polygons@[j]@[k]@),
            ),
{
    let mut rings: Vec<Vec<(i32, i32)>> = Vec::new();
    let mut j: usize = 0;
    while j < polygons.len()
        invariant
            j <= polygons@.len(),
            rings@.len() == j,
            forall|m: int|
                0 <= m < j ==> (#[trigger] rings@[m])@ == first_run(
                    Seq::new(polygons@[m]@.len(), |k: int| polygons@[m]@[k]@),
                ),
        decreases polygons@.len() - j,
    {
        let polygon = &polygons[j];
        let ring: Vec<(i32, i32)> = if polygon.len() > 0 {
            copy_run(&polygon[0])
        } else {
            Vec::new()
        };
        rings.push(ring);
        j = j + 1;
    }
    rings
}

/// Copies what is drawn of the features of a list into values of this
/// library.
fn collect_features(list: &FeatureList) -> (features: Vec<Feature>)
    ensures
        features_view(features@) == drawn_features(listed_features(*list)),
{
    let n: usize = feature_count(list);
    let mut features: Vec<Feature> = Vec::new();
    let mut i: usize = 0;
    while i < n
        invariant
            i <= n,
            n == listed_features(*list).len(),
            features@.len() == i,
            forall|k: int|
                0 <= k < i ==> (#[trigger] features@[k])@ == drawn_feature(
                    listed_features(*list)[k],
                ),
        decreases n - i,
    {
        let kind = feature_kind(list, i);
        let ghost read = listed_features(*list)[i as int];
        let parts: Vec<Vec<(i32, i32)>> = if kind == GeometryKind::Polygon || kind
            == GeometryKind::MultiPolygon {
            let polygons = feature_polygons(list, i);
            outer_rings(&polygons)
        } else if kind == GeometryKind::Point || kind == GeometryKind::Line || kind
            == GeometryKind::LineString || kind == GeometryKind::MultiPoint {
            let points = feature_points(list, i);
            let mut one: Vec<Vec<(i32, i32)>> = Vec::new();
            one.push(points);
            one
        } else {
            feature_lines(list, i)
        };
        let feature = Feature { kind, parts };
        assert(feature@.parts =~= drawn_feature(read).parts);
        features.push(feature);
        i = i + 1;
    }
    assert(features_view(features@) =~= drawn_features(listed_features(*list)));
    features
}

/// Decodes the bytes of a vector tile into its layers. Malformed bytes, a
/// layer of an unknown version or a malformed feature fail the whole tile.
pub fn decode_layers(data: &Vec<u8>) -> (r: Result<Vec<Layer>, VectorDecodeError>)
    ensures
        match decoded_tile(data@) {
            Some(layers) => r.is_ok() && layers_view(r->Ok_0@) == layers,
            None => r.is_err(),
        },
{
    let ghost bytes = data@;
    let reader = match read_tile(data) {
        Ok(reader) => reader,
        Err(_) => {
            return Err(VectorDecodeError);
        },
    };
    let names = match reader_layer_names(&reader) {
        Ok(names) => names,
        Err(_) => {
            return Err(VectorDecodeError);
        },
    };
    let ghost name_views = names@.map_values(|s: String| s@);
    let mut layers: Vec<Layer> = Vec::new();
    let mut i: usize = 0;
    while i < names.len()
        invariant
            i <= names@.len(),
            bytes == data@,
            reader_data(reader) == bytes,
            tile_parses(bytes),
            tile_layer_names(bytes) == Some(name_views),
            name_views == names@.map_values(|s: String| s@),
            layers@.len() == i,
            forall|k: int|
                0 <= k < i ==> (#[trigger] tile_layer_features(bytes, k as nat)).is_some(),
            forall|k: int|
                0 <= k < i ==> (#[trigger] layers@[k])@ == (LayerView {
                    name: name_views[k],
                    features: drawn_features(tile_layer_features(bytes, k as nat).unwrap()),
                }),
        decreases names@.len() - i,
    {
        let list = match reader_features(&reader, i) {
            Ok(list) => list,
            Err(_) => {
                proof {
                    let k = i as int;
                    assert(0 <= k < name_views.len());
                    assert(tile_layer_features(bytes, k as nat).is_none());
                    assert(decoded_tile(bytes).is_none());
                }
                return Err(VectorDecodeError);
            },
        };
        let features = collect_features(&list);
        let layer = Layer { name: names[i].clone(), features };
        assert(layer@.name == name_views[i as int]);
        layers.push(layer);
        i = i + 1;
    }
    assert(layers_view(layers@) =~= decoded_tile(bytes).unwrap());
    Ok(layers)
}

/// Decodes a vector tile and builds its drawing plan at `zoom`. A payload
/// that does not decode fails as a whole.
pub fn vector_tile_plan(data: &Vec<u8>, zoom: u32) -> (r: Result<Vec<PaintOp>, VectorDecodeError>)
    ensures
        match decoded_tile(data@) {
            Some(layers) => r.is_ok() && plan_view(r->Ok_0@) == plan_of(layers, zoom),
            None => r.is_err(),
        },
{
    match decode_layers(data) {
        Ok(layers) => Ok(paint_plan(&layers, zoom)),
        Err(e) => Err(e),
    }
}

} // verus!
