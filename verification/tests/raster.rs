use map_viewer::raster::feature_path;
use map_viewer::raster::layer_style;
use map_viewer::raster::paint_plan;
use map_viewer::raster::Feature;
use map_viewer::raster::GeometryKind;
use map_viewer::raster::Layer;
use map_viewer::raster::LayerStyle;
use map_viewer::raster::PaintOp;
use map_viewer::raster::PathCmd;
use map_viewer::raster::PathCmd::LineTo;
use map_viewer::raster::PathCmd::MoveTo;
use map_viewer::raster::Rgba;

fn feature(kind: GeometryKind, parts: Vec<Vec<(i32, i32)>>) -> Feature {
    Feature { kind, parts }
}

#[test]
fn styles_by_layer_name() {
    assert_eq!(layer_style("building"), LayerStyle::Building);
    assert_eq!(layer_style("park"), LayerStyle::Park);
    assert_eq!(layer_style("water"), LayerStyle::Water);
    assert_eq!(layer_style("waterway"), LayerStyle::Suppressed);
    assert_eq!(layer_style("water_name"), LayerStyle::Suppressed);
    assert_eq!(layer_style("mountain_peak"), LayerStyle::Suppressed);
    assert_eq!(layer_style("landcover"), LayerStyle::Suppressed);
    assert_eq!(layer_style("landuse"), LayerStyle::Suppressed);
    assert_eq!(layer_style("transportation"), LayerStyle::Outline);
    assert_eq!(layer_style("boundary"), LayerStyle::Outline);
    assert_eq!(layer_style("buildings"), LayerStyle::Outline);
    assert_eq!(layer_style("Water"), LayerStyle::Outline);
    assert_eq!(layer_style(""), LayerStyle::Outline);
}

#[test]
fn colours_of_the_styles() {
    let white = Rgba { r: 0xff, g: 0xff, b: 0xff, a: 0xff };
    assert_eq!(LayerStyle::Building.color(), Some(white));
    assert_eq!(LayerStyle::Park.color(), Some(Rgba { r: 0, g: 0xff, b: 0, a: 0xff }));
    assert_eq!(LayerStyle::Water.color(), Some(Rgba { r: 0xff, g: 0, b: 0, a: 0xff }));
    assert_eq!(LayerStyle::Outline.color(), Some(white));
    assert_eq!(LayerStyle::Suppressed.color(), None);
    assert!(LayerStyle::Building.is_fill());
    assert!(LayerStyle::Park.is_fill());
    assert!(LayerStyle::Water.is_fill());
    assert!(!LayerStyle::Outline.is_fill());
    assert!(!LayerStyle::Suppressed.is_fill());
}

#[test]
fn points_are_drawn_from_zoom_fifteen_on() {
    let point = feature(GeometryKind::Point, vec![vec![(5, 7)]]);
    assert_eq!(feature_path(&point, 14), Vec::<PathCmd>::new());
    assert_eq!(
        feature_path(&point, 15),
        vec![MoveTo(5, 7), LineTo(6, 8), LineTo(6, 7), LineTo(5, 8)]
    );
    assert_eq!(feature_path(&point, 20).len(), 4);
    let points = feature(GeometryKind::MultiPoint, vec![vec![(0, 0), (-3, 9)]]);
    assert_eq!(feature_path(&points, 3), Vec::<PathCmd>::new());
    assert_eq!(
        feature_path(&points, 15),
        vec![
            MoveTo(0, 0),
            LineTo(1, 1),
            LineTo(1, 0),
            LineTo(0, 1),
            MoveTo(-3, 9),
            LineTo(-2, 10),
            LineTo(-2, 9),
            LineTo(-3, 10)
        ]
    );
}

#[test]
fn marker_at_the_edge_of_the_coordinate_range() {
    let point = feature(GeometryKind::Point, vec![vec![(i32::MAX, i32::MAX)]]);
    let top = i32::MAX as i64;
    assert_eq!(
        feature_path(&point, 15),
        vec![MoveTo(top, top), LineTo(top + 1, top + 1), LineTo(top + 1, top), LineTo(top, top + 1)]
    );
}

#[test]
fn lines_and_line_strings() {
    let line = feature(GeometryKind::Line, vec![vec![(1, 2), (3, 4)]]);
    assert_eq!(feature_path(&line, 3), vec![MoveTo(1, 2), LineTo(3, 4)]);
    let string = feature(GeometryKind::LineString, vec![vec![(2, 2), (2, 10), (10, 10), (12, 0)]]);
    assert_eq!(
        feature_path(&string, 3),
        vec![
            MoveTo(2, 2),
            LineTo(2, 10),
            LineTo(2, 10),
            LineTo(10, 10),
            LineTo(10, 10),
            LineTo(12, 0)
        ]
    );
    let short = feature(GeometryKind::LineString, vec![vec![(2, 2)]]);
    assert_eq!(feature_path(&short, 3), Vec::<PathCmd>::new());
    let none = feature(GeometryKind::LineString, vec![vec![]]);
    assert_eq!(feature_path(&none, 3), Vec::<PathCmd>::new());
    let many = feature(
        GeometryKind::MultiLineString,
        vec![vec![(0, 0), (1, 1)], vec![(5, 5)], vec![(7, 7), (8, 8), (9, 9)]],
    );
    assert_eq!(
        feature_path(&many, 20),
        vec![
            MoveTo(0, 0),
            LineTo(1, 1),
            MoveTo(7, 7),
            LineTo(8, 8),
            LineTo(8, 8),
            LineTo(9, 9)
        ]
    );
}

#[test]
fn polygons() {
    let square = vec![(0, 0), (10, 0), (10, 10), (0, 0)];
    let polygon = feature(GeometryKind::Polygon, vec![square.clone()]);
    let outline = vec![
        MoveTo(0, 0),
        LineTo(0, 0),
        LineTo(10, 0),
        LineTo(10, 0),
        LineTo(10, 10),
        LineTo(10, 10),
        LineTo(0, 0),
        LineTo(0, 0),
    ];
    assert_eq!(feature_path(&polygon, 3), outline);
    let two = feature(GeometryKind::MultiPolygon, vec![square, vec![(-1, -1)]]);
    let mut both = outline.clone();
    both.push(MoveTo(-1, -1));
    both.push(LineTo(-1, -1));
    assert_eq!(feature_path(&two, 3), both);
    let empty = feature(GeometryKind::Polygon, vec![vec![]]);
    assert_eq!(feature_path(&empty, 3), Vec::<PathCmd>::new());
}

#[test]
fn unsupported_geometry_has_no_outline() {
    let other = feature(GeometryKind::Unsupported, vec![vec![(1, 1), (2, 2)]]);
    assert_eq!(feature_path(&other, 20), Vec::<PathCmd>::new());
    let nothing = feature(GeometryKind::Unsupported, vec![]);
    assert_eq!(feature_path(&nothing, 20), Vec::<PathCmd>::new());
}

fn sample_layers() -> Vec<Layer> {
    vec![
        Layer {
            name: "water".to_string(),
            features: vec![feature(GeometryKind::Polygon, vec![vec![(0, 0), (4, 0), (4, 4)]])],
        },
        Layer {
            name: "landcover".to_string(),
            features: vec![feature(GeometryKind::Polygon, vec![vec![(0, 0), (9, 0), (9, 9)]])],
        },
        Layer {
            name: "poi".to_string(),
            features: vec![
                feature(GeometryKind::Point, vec![vec![(5, 7)]]),
                feature(GeometryKind::Unsupported, vec![]),
                feature(GeometryKind::Line, vec![vec![(1, 2), (3, 4)]]),
            ],
        },
        Layer { name: "park".to_string(), features: vec![] },
        Layer {
            name: "building".to_string(),
            features: vec![feature(GeometryKind::MultiPolygon, vec![vec![(1, 1)], vec![(2, 2)]])],
        },
    ]
}

#[test]
fn plan_of_a_tile_below_the_point_zoom() {
    let plan = paint_plan(&sample_layers(), 14);
    assert_eq!(
        plan,
        vec![
            PaintOp {
                style: LayerStyle::Water,
                path: vec![
                    MoveTo(0, 0),
                    LineTo(0, 0),
                    LineTo(4, 0),
                    LineTo(4, 0),
                    LineTo(4, 4),
                    LineTo(4, 4)
                ],
            },
            PaintOp { style: LayerStyle::Outline, path: vec![MoveTo(1, 2), LineTo(3, 4)] },
            PaintOp {
                style: LayerStyle::Building,
                path: vec![MoveTo(1, 1), LineTo(1, 1), MoveTo(2, 2), LineTo(2, 2)],
            },
        ]
    );
}

#[test]
fn plan_of_a_tile_at_the_point_zoom() {
    let plan = paint_plan(&sample_layers(), 15);
    assert_eq!(plan.len(), 4);
    assert_eq!(
        plan[1],
        PaintOp {
            style: LayerStyle::Outline,
            path: vec![MoveTo(5, 7), LineTo(6, 8), LineTo(6, 7), LineTo(5, 8)],
        }
    );
    assert_eq!(plan[2], PaintOp { style: LayerStyle::Outline, path: vec![MoveTo(1, 2), LineTo(3, 4)] });
}

#[test]
fn plan_of_an_empty_tile_is_empty() {
    assert_eq!(paint_plan(&Vec::new(), 14), Vec::<PaintOp>::new());
}
