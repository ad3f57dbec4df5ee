use osmwater::geometry::{Geometry, GeometryCollection, LineString, Point, Polygon};
use osmwater::rings::{to_geo, PolygonRing};
use osmwater::source::{open_shapefile, postgis_data, GeomRow, ShapeRecord};
use std::io::Cursor;
use wkt::TryFromWkt;

fn pt(x: f64, y: f64) -> Point {
    Point { x: x.to_bits(), y: y.to_bits() }
}

fn clockwise(x: f64, y: f64, side: f64) -> Vec<(f64, f64)> {
    vec![(x, y), (x, y + side), (x + side, y + side), (x + side, y), (x, y)]
}

fn counter_clockwise(x: f64, y: f64, side: f64) -> Vec<(f64, f64)> {
    vec![(x, y), (x + side, y), (x + side, y + side), (x, y + side), (x, y)]
}

fn file_points(ring: &[(f64, f64)]) -> Vec<shapefile::Point> {
    ring.iter().map(|(x, y)| shapefile::Point::new(*x, *y)).collect()
}

fn own_points(ring: &[(f64, f64)]) -> Vec<Point> {
    ring.iter().map(|(x, y)| pt(*x, *y)).collect()
}

fn rings_of(polygon: &shapefile::Polygon) -> Vec<PolygonRing> {
    let points = |ps: &Vec<shapefile::Point>| -> Vec<Point> { ps.iter().map(|p| pt(p.x, p.y)).collect() };
    polygon
        .rings()
        .iter()
        .map(|ring| match ring {
            shapefile::PolygonRing::Outer(ps) => PolygonRing::Outer(points(ps)),
            shapefile::PolygonRing::Inner(ps) => PolygonRing::Inner(points(ps)),
        })
        .collect()
}

fn written<S: shapefile::record::EsriShape>(shapes: &[S]) -> (Vec<u8>, Vec<u8>) {
    let mut shp = Cursor::new(Vec::new());
    let mut shx = Cursor::new(Vec::new());
    {
        let mut writer = shapefile::ShapeWriter::with_shx(&mut shp, &mut shx);
        for shape in shapes {
            writer.write_shape(shape).expect("the shape is written");
        }
        writer.finalize().expect("the file is finished");
    }
    (shp.into_inner(), shx.into_inner())
}

fn records_of(file: (Vec<u8>, Vec<u8>)) -> Vec<ShapeRecord> {
    let mut reader = shapefile::ShapeReader::with_shx(Cursor::new(file.0), Cursor::new(file.1))
        .expect("the bytes are a shapefile");
    reader
        .iter_shapes_as::<shapefile::Polygon>()
        .map(|outcome| match outcome {
            Ok(polygon) => ShapeRecord::Polygon(rings_of(&polygon)),
            Err(shapefile::Error::MismatchShapeType { .. }) => ShapeRecord::Other,
            Err(_) => ShapeRecord::Unreadable,
        })
        .collect()
}

fn own_line(line: &geo_types::LineString<f64>) -> LineString {
    LineString(line.0.iter().map(|c| pt(c.x, c.y)).collect())
}

fn own_geometry(geometry: &geo_types::Geometry<f64>) -> Geometry {
    match geometry {
        geo_types::Geometry::Point(p) => Geometry::Point(pt(p.x(), p.y())),
        geo_types::Geometry::LineString(l) => Geometry::LineString(own_line(l)),
        geo_types::Geometry::Polygon(p) => Geometry::Polygon(Polygon {
            exterior: own_line(p.exterior()),
            interiors: p.interiors().iter().map(own_line).collect(),
        }),
        other => panic!("no test reads {:?}", other),
    }
}

fn row_of(text: &str) -> GeomRow {
    match geo_types::Geometry::<f64>::try_from_wkt_str(text) {
        Ok(geometry) => GeomRow::Parsed(own_geometry(&geometry)),
        Err(_) => GeomRow::Unparseable,
    }
}

#[test]
fn a_shapefile_record_with_two_outer_rings_and_a_hole_is_one_polygon() {
    let first = clockwise(0.0, 0.0, 10.0);
    let second = clockwise(20.0, 20.0, 5.0);
    let hole = counter_clockwise(2.0, 2.0, 1.0);
    let polygon = shapefile::Polygon::with_rings(vec![
        shapefile::PolygonRing::Outer(file_points(&first)),
        shapefile::PolygonRing::Outer(file_points(&second)),
        shapefile::PolygonRing::Inner(file_points(&hole)),
    ]);
    let records = records_of(written(&[polygon]));
    assert_eq!(records.len(), 1);

    let mut exterior = own_points(&first);
    exterior.extend(own_points(&second));
    let expected = Geometry::Polygon(Polygon {
        exterior: LineString(exterior),
        interiors: vec![LineString(own_points(&hole))],
    });
    assert_eq!(open_shapefile(records), GeometryCollection::new_from(vec![expected]));
}

#[test]
fn the_rings_of_a_record_keep_their_tags_and_order() {
    let outer = clockwise(0.0, 0.0, 10.0);
    let first_hole = counter_clockwise(1.0, 1.0, 1.0);
    let second_hole = counter_clockwise(5.0, 5.0, 2.0);
    let polygon = shapefile::Polygon::with_rings(vec![
        shapefile::PolygonRing::Inner(file_points(&first_hole)),
        shapefile::PolygonRing::Outer(file_points(&outer)),
        shapefile::PolygonRing::Inner(file_points(&second_hole)),
    ]);
    let rings = rings_of(&polygon);
    assert_eq!(
        rings,
        vec![
            PolygonRing::Inner(own_points(&first_hole)),
            PolygonRing::Outer(own_points(&outer)),
            PolygonRing::Inner(own_points(&second_hole)),
        ]
    );
    assert_eq!(
        to_geo(&rings),
        Geometry::Polygon(Polygon {
            exterior: LineString(own_points(&outer)),
            interiors: vec![LineString(own_points(&first_hole)), LineString(own_points(&second_hole))],
        })
    );
}

#[test]
fn a_shapefile_of_points_holds_no_polygon() {
    let points = [shapefile::Point::new(1.0, 2.0), shapefile::Point::new(3.0, 4.0)];
    let records = records_of(written(&points));
    assert_eq!(records, vec![ShapeRecord::Other, ShapeRecord::Other]);
    assert!(open_shapefile(records).is_empty());
}

#[test]
fn several_polygon_records_are_read_in_order() {
    let squares = [clockwise(0.0, 0.0, 1.0), clockwise(5.0, 5.0, 2.0), clockwise(-3.0, 7.0, 0.5)];
    let polygons: Vec<shapefile::Polygon> = squares
        .iter()
        .map(|square| shapefile::Polygon::new(shapefile::PolygonRing::Outer(file_points(square))))
        .collect();
    let read = open_shapefile(records_of(written(&polygons)));
    let expected: Vec<Geometry> = squares
        .iter()
        .map(|square| {
            Geometry::Polygon(Polygon { exterior: LineString(own_points(square)), interiors: Vec::new() })
        })
        .collect();
    assert_eq!(read, GeometryCollection::new_from(expected));
}

#[test]
fn rows_of_well_known_text_are_read_and_the_rest_skipped() {
    let rows = vec![
        row_of("POINT(1 2)"),
        row_of("this is no geometry"),
        row_of("POLYGON((0 0,4 0,4 4,0 4,0 0),(1 1,2 1,2 2,1 2,1 1))"),
        row_of("POLYGON((0 0,4 0"),
        row_of(""),
        row_of("LINESTRING(0 0,1.5 -2.25)"),
    ];
    assert_eq!(rows[1], GeomRow::Unparseable);
    assert_eq!(rows[3], GeomRow::Unparseable);
    assert_eq!(rows[4], GeomRow::Unparseable);
    let expected = vec![
        Geometry::Point(pt(1.0, 2.0)),
        Geometry::Polygon(Polygon {
            exterior: LineString(vec![pt(0.0, 0.0), pt(4.0, 0.0), pt(4.0, 4.0), pt(0.0, 4.0), pt(0.0, 0.0)]),
            interiors: vec![LineString(vec![
                pt(1.0, 1.0),
                pt(2.0, 1.0),
                pt(2.0, 2.0),
                pt(1.0, 2.0),
                pt(1.0, 1.0),
            ])],
        }),
        Geometry::LineString(LineString(vec![pt(0.0, 0.0), pt(1.5, -2.25)])),
    ];
    assert_eq!(postgis_data(rows), GeometryCollection::new_from(expected));
}
