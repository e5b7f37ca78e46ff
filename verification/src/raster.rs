//! The drawing plan of a vector tile: which layers are painted and how, and
//! the outline that each feature contributes, in the tile's own integer
//! coordinates. Painting a plan onto a surface is left to the caller.

use vstd::prelude::*;
use vstd::string::StringExecFns;
use crate::text::contains;
use crate::text::occurs_in;

verus! {

/// Zoom level from which point features are drawn.
pub const POINT_MARKER_MIN_ZOOM: u32 = 15;

/// Width of the line with which outlined layers are stroked.
pub const OUTLINE_WIDTH: u32 = 10;

/// Opacity of filled layers, in percent.
pub const FILL_OPACITY_PERCENT: u8 = 50;

/// The shape of a feature's geometry.
#[derive(Debug, Clone, Copy, PartialEq, Eq, Structural)]
pub enum GeometryKind {
    Point,
    Line,
    LineString,
    Polygon,
    MultiPolygon,
    MultiPoint,
    MultiLineString,
    /// Collections, rectangles and triangles, which are not drawn.
    Unsupported,
}

/// A feature of a vector tile: the shape of its geometry and its coordinates.
/// Every part is a run of points: the points of a point set, the vertices of
/// a line string, or the outer ring of a polygon.
#[derive(Debug, Clone, PartialEq, Eq)]
pub struct Feature {
    pub kind: GeometryKind,
    pub parts: Vec<Vec<(i32, i32)>>,
}

/// A named layer of a vector tile.
#[derive(Debug, Clone, PartialEq, Eq)]
pub struct Layer {
    pub name: String,
    pub features: Vec<Feature>,
}

/// One step of an outline.
#[derive(Debug, Clone, Copy, PartialEq, Eq, Structural)]
pub enum PathCmd {
    MoveTo(i64, i64),
    LineTo(i64, i64),
}

/// A colour as the drawing surface takes it.
#[derive(Debug, Clone, Copy, PartialEq, Eq, Structural)]
pub struct Rgba {
    pub r: u8,
    pub g: u8,
    pub b: u8,
    pub a: u8,
}

/// How the features of a layer are painted.
#[derive(Debug, Clone, Copy, PartialEq, Eq, Structural)]
pub enum LayerStyle {
    /// Filled in translucent white.
    Building,
    /// Filled in translucent green.
    Park,
    /// Filled in translucent blue.
    Water,
    /// Not painted at all.
    Suppressed,
    /// Stroked with a white line of fixed width.
    Outline,
}

/// One painting step: an outline and the style to paint it in.
#[derive(Debug, Clone, PartialEq, Eq)]
pub struct PaintOp {
    pub style: LayerStyle,
    pub path: Vec<PathCmd>,
}

/// A feature as a mathematical value.
pub struct FeatureView {
    pub kind: GeometryKind,
    pub parts: Seq<Seq<(i32, i32)>>,
}

/// A layer as a mathematical value.
pub struct LayerView {
    pub name: Seq<char>,
    pub features: Seq<FeatureView>,
}

/// A painting step as a mathematical value.
pub struct PaintOpView {
    pub style: LayerStyle,
    pub path: Seq<PathCmd>,
}

impl View for Feature {
    type V = FeatureView;

    open spec fn view(&self) -> FeatureView {
        FeatureView { kind: self.kind, parts: self.parts@.map_values(|p: Vec<(i32, i32)>| p@) }
    }
}

impl View for Layer {
    type V = LayerView;

    open spec fn view(&self) -> LayerView {
        LayerView { name: self.name@, features: features_view(self.features@) }
    }
}

impl View for PaintOp {
    type V = PaintOpView;

    open spec fn view(&self) -> PaintOpView {
        PaintOpView { style: self.style, path: self.path@ }
    }
}

/// The features of a list as mathematical values.
pub open spec fn features_view(features: Seq<Feature>) -> Seq<FeatureView> {
    features.map_values(|f: Feature| f@)
}

/// The layers of a list as mathematical values.
pub open spec fn layers_view(layers: Seq<Layer>) -> Seq<LayerView> {
    layers.map_values(|l: Layer| l@)
}

/// The painting steps of a list as mathematical values.
pub open spec fn plan_view(plan: Seq<PaintOp>) -> Seq<PaintOpView> {
    plan.map_values(|op: PaintOp| op@)
}

impl LayerStyle {
    /// The colour in which the style fills or strokes, in the surface's own
    /// channel order; `None` for a layer that is not painted. The surface
    /// stores red and blue the other way round than the finished pixel
    /// buffer, so water is given as red here and comes out blue.
    pub open spec fn spec_color(&self) -> Option<Rgba> {
        match self {
            LayerStyle::Building => Some(Rgba { r: 0xff, g: 0xff, b: 0xff, a: 0xff }),
            LayerStyle::Park => Some(Rgba { r: 0x00, g: 0xff, b: 0x00, a: 0xff }),
            LayerStyle::Water => Some(Rgba { r: 0xff, g: 0x00, b: 0x00, a: 0xff }),
            LayerStyle::Suppressed => None,
            LayerStyle::Outline => Some(Rgba { r: 0xff, g: 0xff, b: 0xff, a: 0xff }),
        }
    }

    /// The style fills its outlines (at [`FILL_OPACITY_PERCENT`]) rather
    /// than stroking them.
    pub open spec fn spec_is_fill(&self) -> bool {
        *self == LayerStyle::Building || *self == LayerStyle::Park || *self == LayerStyle::Water
    }

    #[verifier::when_used_as_spec(spec_color)]
    pub fn color(&self) -> (c: Option<Rgba>)
        ensures
            c == self.spec_color(),
    {
        match self {
            LayerStyle::Building => Some(Rgba { r: 0xff, g: 0xff, b: 0xff, a: 0xff }),
            LayerStyle::Park => Some(Rgba { r: 0x00, g: 0xff, b: 0x00, a: 0xff }),
            LayerStyle::Water => Some(Rgba { r: 0xff, g: 0x00, b: 0x00, a: 0xff }),
            LayerStyle::Suppressed => None,
            LayerStyle::Outline => Some(Rgba { r: 0xff, g: 0xff, b: 0xff, a: 0xff }),
        }
    }

    #[verifier::when_used_as_spec(spec_is_fill)]
    pub fn is_fill(&self) -> (fill: bool)
        ensures
            fill == self.spec_is_fill(),
    {
        match self {
            LayerStyle::Building => true,
            LayerStyle::Park => true,
            LayerStyle::Water => true,
            LayerStyle::Suppressed => false,
            LayerStyle::Outline => false,
        }
    }
}

/// The style of a layer, by its name. Layers named `building`, `park` and
/// `water` are filled; any other layer whose name holds `water`, `mountain`
/// or `land` is left out; every other layer is outlined.
pub open spec fn style_of(name: Seq<char>) -> LayerStyle {
    if name == "building"@ {
        LayerStyle::Building
    } else if name == "park"@ {
        LayerStyle::Park
    } else if name == "water"@ {
        LayerStyle::Water
    } else if occurs_in("water"@, name) || occurs_in("mountain"@, name) || occurs_in(
        "land"@,
        name,
    ) {
        LayerStyle::Suppressed
    } else {
        LayerStyle::Outline
    }
}

/// Chooses the style of a layer by its name.
pub fn layer_style(name: &str) -> (style: LayerStyle)
    ensures
        style == style_of(name@),
{
    let owned = String::from_str(name);
    if owned == String::from_str("building") {
        LayerStyle::Building
    } else if owned == String::from_str("park") {
        LayerStyle::Park
    } else if owned == String::from_str("water") {
        LayerStyle::Water
    } else if contains(name, "water") || contains(name, "mountain") || contains(name, "land") {
        LayerStyle::Suppressed
    } else {
        LayerStyle::Outline
    }
}

/// The marker of each point in turn: a small quad, one unit wide, that
/// starts at the point.
pub open spec fn marker_path(points: Seq<(i32, i32)>) -> Seq<PathCmd> {
    Seq::new(
        4 * points.len(),
        |k: int|
            {
                let p = points[k / 4];
                if k % 4 == 0 {
                    PathCmd::MoveTo(p.0 as i64, p.1 as i64)
                } else if k % 4 == 1 {
                    PathCmd::LineTo((p.0 + 1) as i64, (p.1 + 1) as i64)
                } else if k % 4 == 2 {
                    PathCmd::LineTo((p.0 + 1) as i64, p.1 as i64)
                } else {
                    PathCmd::LineTo(p.0 as i64, (p.1 + 1) as i64)
                }
            },
    )
}

/// The outline of a line string, segment by segment: a move to the first
/// vertex and a line to the second, then for each further segment a line to
/// its start and a line to its end. Fewer than two vertices give no outline.
pub open spec fn segments_path(points: Seq<(i32, i32)>) -> Seq<PathCmd> {
    if points.len() < 2 {
        Seq::empty()
    } else {
        Seq::new(
            2 * (points.len() - 1) as nat,
            |k: int|
                if k == 0 {
                    PathCmd::MoveTo(points[0].0 as i64, points[0].1 as i64)
                } else {
                    PathCmd::LineTo(points[(k + 1) / 2].0 as i64, points[(k + 1) / 2].1 as i64)
                },
        )
    }
}

/// The outline of a ring, vertex by vertex: a move to the first vertex and a
/// line to it, then two lines to each further vertex.
pub open spec fn ring_path(points: Seq<(i32, i32)>) -> Seq<PathCmd> {
    Seq::new(
        2 * points.len(),
        |k: int|
            if k == 0 {
                PathCmd::MoveTo(points[0].0 as i64, points[0].1 as i64)
            } else {
                PathCmd::LineTo(points[k / 2].0 as i64, points[k / 2].1 as i64)
            },
    )
}

/// The outline of one part of a geometry of the given kind. Points are drawn
/// only from zoom level [`POINT_MARKER_MIN_ZOOM`] on.
pub open spec fn part_path(kind: GeometryKind, zoom: u32, points: Seq<(i32, i32)>) -> Seq<
    PathCmd,
> {
    match kind {
        GeometryKind::Point | GeometryKind::MultiPoint => if zoom >= POINT_MARKER_MIN_ZOOM {
            marker_path(points)
        } else {
            Seq::empty()
        },
        GeometryKind::Line | GeometryKind::LineString | GeometryKind::MultiLineString => segments_path(
            points,
        ),
        GeometryKind::Polygon | GeometryKind::MultiPolygon => ring_path(points),
        GeometryKind::Unsupported => Seq::empty(),
    }
}

/// The outlines of the first `n` parts of a feature, one after the other.
pub open spec fn joined_paths(feature: FeatureView, zoom: u32, n: nat) -> Seq<PathCmd>
    recommends
        n <= feature.parts.len(),
    decreases n,
{
    if n == 0 {
        Seq::empty()
    } else {
        joined_paths(feature, zoom, (n - 1) as nat) + part_path(
            feature.kind,
            zoom,
            feature.parts[n - 1],
        )
    }
}

/// The outline of a feature: the outlines of all its parts.
pub open spec fn feature_path_of(feature: FeatureView, zoom: u32) -> Seq<PathCmd> {
    joined_paths(feature, zoom, feature.parts.len())
}

/// The painting steps for the first `n` features of a layer painted in
/// `style`: one step for each feature with a non-empty outline, none at all
/// in a suppressed layer.
pub open spec fn layer_ops(style: LayerStyle, features: Seq<FeatureView>, zoom: u32, n: nat) -> Seq<
    PaintOpView,
>
    recommends
        n <= features.len(),
    decreases n,
{
    if n == 0 {
        Seq::empty()
    } else {
        let before = layer_ops(style, features, zoom, (n - 1) as nat);
        let path = feature_path_of(features[n - 1], zoom);
        if style == LayerStyle::Suppressed || path.len() == 0 {
            before
        } else {
            before.push(PaintOpView { style, path })
        }
    }
}

/// The painting steps for the first `n` layers of a tile, layer after layer.
pub open spec fn plan_ops(layers: Seq<LayerView>, zoom: u32, n: nat) -> Seq<PaintOpView>
    recommends
        n <= layers.len(),
    decreases n,
{
    if n == 0 {
        Seq::empty()
    } else {
        plan_ops(layers, zoom, (n - 1) as nat) + layer_ops(
            style_of(layers[n - 1].name),
            layers[n - 1].features,
            zoom,
            layers[n - 1].features.len(),
        )
    }
}

/// The drawing plan of a tile at `zoom`.
pub open spec fn plan_of(layers: Seq<LayerView>, zoom: u32) -> Seq<PaintOpView> {
    plan_ops(layers, zoom, layers.len())
}

fn push_markers(path: &mut Vec<PathCmd>, points: &Vec<(i32, i32)>)
    ensures
        final(path)@ == old(path)@ + marker_path(points@),
{
    let ghost base = path@;
    let mut i: usize = 0;
    while i < points.len()
        invariant
            i <= points@.len(),
            path@.len() == base.len() + 4 * i,
            forall|k: int| 0 <= k < base.len() ==> path@[k] == base[k],
            forall|k: int| 0 <= k < 4 * i ==> path@[base.len() + k] == marker_path(points@)[k],
        decreases points@.len() - i,
    {
        let (x, y): (i32, i32) = points[i];
        let x0: i64 = x as i64;
        let y0: i64 = y as i64;
        path.push(PathCmd::MoveTo(x0, y0));
        path.push(PathCmd::LineTo(x0 + 1, y0 + 1));
        path.push(PathCmd::LineTo(x0 + 1, y0));
        path.push(PathCmd::LineTo(x0, y0 + 1));
        i = i + 1;
    }
    assert(path@ =~= base + marker_path(points@));
}

fn push_segments(path: &mut Vec<PathCmd>, points: &Vec<(i32, i32)>)
    ensures
        final(path)@ == old(path)@ + segments_path(points@),
{
    let ghost base = path@;
    if points.len() < 2 {
        assert(path@ =~= base + segments_path(points@));
        return ;
    }
    path.push(PathCmd::MoveTo(points[0].0 as i64, points[0].1 as i64));
    path.push(PathCmd::LineTo(points[1].0 as i64, points[1].1 as i64));
    let last: usize = points.len() - 1;
    let mut j: usize = 1;
    while j < last
        invariant
            1 <= j <= last,
            last + 1 == points@.len(),
            path@.len() == base.len() + 2 * j,
            forall|k: int| 0 <= k < base.len() ==> path@[k] == base[k],
            forall|k: int| 0 <= k < 2 * j ==> path@[base.len() + k] == segments_path(points@)[k],
        decreases last - j,
    {
        path.push(PathCmd::LineTo(points[j].0 as i64, points[j].1 as i64));
        path.push(PathCmd::LineTo(points[j + 1].0 as i64, points[j + 1].1 as i64));
        j = j + 1;
    }
    assert(path@ =~= base + segments_path(points@));
}

fn push_ring(path: &mut Vec<PathCmd>, points: &Vec<(i32, i32)>)
    ensures
        final(path)@ == old(path)@ + ring_path(points@),
{
    let ghost base = path@;
    let mut j: usize = 0;
    while j < points.len()
        invariant
            j <= points@.len(),
            path@.len() == base.len() + 2 * j,
            forall|k: int| 0 <= k < base.len() ==> path@[k] == base[k],
            forall|k: int| 0 <= k < 2 * j ==> path@[base.len() + k] == ring_path(points@)[k],
        decreases points@.len() - j,
    {
        let (x, y): (i32, i32) = points[j];
        if j == 0 {
            path.push(PathCmd::MoveTo(x as i64, y as i64));
        } else {
            path.push(PathCmd::LineTo(x as i64, y as i64));
        }
        path.push(PathCmd::LineTo(x as i64, y as i64));
        j = j + 1;
    }
    assert(path@ =~= base + ring_path(points@));
}

/// Builds the outline of a feature at `zoom`.
pub fn feature_path(feature: &Feature, zoom: u32) -> (path: Vec<PathCmd>)
    ensures
        path@ == feature_path_of(feature@, zoom),
{
    let mut path: Vec<PathCmd> = Vec::new();
    let mut i: usize = 0;
    while i < feature.parts.len()
        invariant
            i <= feature.parts@.len(),
            feature@.parts.len() == feature.parts@.len(),
            path@ == joined_paths(feature@, zoom, i as nat),
        decreases feature.parts@.len() - i,
    {
        let points = &feature.parts[i];
        assert(feature@.parts[i as int] == points@);
        match feature.kind {
            GeometryKind::Point | GeometryKind::MultiPoint => {
                if zoom >= POINT_MARKER_MIN_ZOOM {
                    push_markers(&mut path, points);
                } else {
                    assert(path@ + Seq::<PathCmd>::empty() =~= path@);
                }
            },
            GeometryKind::Line | GeometryKind::LineString | GeometryKind::MultiLineString => {
                push_segments(&mut path, points);
            },
            GeometryKind::Polygon | GeometryKind::MultiPolygon => {
                push_ring(&mut path, points);
            },
            GeometryKind::Unsupported => {
                assert(path@ + Seq::<PathCmd>::empty() =~= path@);
            },
        }
        i = i + 1;
    }
    path
}

/// Builds the drawing plan of a tile at `zoom`: for each layer that is not
/// suppressed, one painting step for each feature that has an outline.
pub fn paint_plan(layers: &Vec<Layer>, zoom: u32) -> (plan: Vec<PaintOp>)
    ensures
        plan_view(plan@) == plan_of(layers_view(layers@), zoom),
{
    let mut plan: Vec<PaintOp> = Vec::new();
    let ghost tile = layers_view(layers@);
    let mut i: usize = 0;
    assert(plan_view(plan@) =~= plan_ops(tile, zoom, 0));
    while i < layers.len()
        invariant
            i <= layers@.len(),
            tile == layers_view(layers@),
            plan_view(plan@) == plan_ops(tile, zoom, i as nat),
        decreases layers@.len() - i,
    {
        let layer = &layers[i];
        let style = layer_style(layer.name.as_str());
        let ghost before = plan_view(plan@);
        let ghost features = features_view(layer.features@);
        assert(tile[i as int] == layer@);
        let mut j: usize = 0;
        assert(plan_view(plan@) =~= before + layer_ops(style, features, zoom, 0));
        while j < layer.features.len()
            invariant
                j <= layer.features@.len(),
                features == features_view(layer.features@),
                plan_view(plan@) == before + layer_ops(style, features, zoom, j as nat),
            decreases layer.features@.len() - j,
        {
            let feature = &layer.features[j];
            assert(features[j as int] == feature@);
            let path = feature_path(feature, zoom);
            let ghost sofar = plan_view(plan@);
            if style != LayerStyle::Suppressed && path.len() > 0 {
                plan.push(PaintOp { style, path });
                assert(plan_view(plan@) =~= sofar.push(PaintOpView { style, path: path@ }));
                assert(sofar.push(PaintOpView { style, path: path@ }) =~= before + layer_ops(
                    style,
                    features,
                    zoom,
                    (j + 1) as nat,
                ));
            }
            j = j + 1;
        }
        i = i + 1;
    }
    plan
}

} // verus!
