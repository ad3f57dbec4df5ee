use osmwater::geometry::{Geometry, GeometryCollection, LineString, Point, Polygon};
use osmwater::rings::PolygonRing;
use osmwater::source::{
    check_provided_output, open_input, open_shapefile, open_target, postgis_data, water_source,
    ConfigError, GeomRow, Reader, ShapeRecord, WaterSource,
};

fn pt(x: f64, y: f64) -> Point {
    Point { x: x.to_bits(), y: y.to_bits() }
}

fn square(x: f64, y: f64, side: f64) -> Vec<Point> {
    vec![pt(x, y), pt(x, y + side), pt(x + side, y + side), pt(x + side, y), pt(x, y)]
}

#[test]
fn a_target_is_read_by_its_extension() {
    assert_eq!(open_target("targets.geojson", None), Ok(Reader::TextGeometry));
    assert_eq!(open_target("data/targets.shp", None), Ok(Reader::VectorBinary));
    assert_eq!(open_target("query.sql", Some("host=localhost user=gis")), Ok(Reader::Query));
}

#[test]
fn a_connection_string_changes_nothing_for_a_file() {
    assert_eq!(open_target("targets.geojson", Some("host=localhost")), Ok(Reader::TextGeometry));
    assert_eq!(open_target("targets.shp", Some("")), Ok(Reader::VectorBinary));
}

#[test]
fn a_query_needs_a_connection_string() {
    assert_eq!(open_target("query.sql", None), Err(ConfigError::MissingConnection));
    assert_eq!(open_target("query.sql", Some("")), Ok(Reader::Query));
}

#[test]
fn a_target_with_another_extension_is_refused() {
    assert_eq!(open_target("targets.json", None), Err(ConfigError::UnrecognizedExtension));
    assert_eq!(open_target("targets.gpkg", Some("host=localhost")), Err(ConfigError::UnrecognizedExtension));
    assert_eq!(open_target("targets.GEOJSON", None), Err(ConfigError::UnrecognizedExtension));
    assert_eq!(open_target("targets.geojson.bak", None), Err(ConfigError::UnrecognizedExtension));
    assert_eq!(open_target("targets.", None), Err(ConfigError::UnrecognizedExtension));
}

#[test]
fn a_target_without_an_extension_is_refused() {
    assert_eq!(open_target("targets", None), Err(ConfigError::MissingExtension));
    assert_eq!(open_target("", None), Err(ConfigError::MissingExtension));
    assert_eq!(open_target("dir.geojson/targets", None), Err(ConfigError::MissingExtension));
    assert_eq!(open_target(".geojson", None), Err(ConfigError::MissingExtension));
}

#[test]
fn water_is_read_from_a_shapefile_only() {
    assert_eq!(open_input("water.shp"), Ok(Reader::VectorBinary));
    assert_eq!(open_input("a/b/water_polygons.shp"), Ok(Reader::VectorBinary));
    assert_eq!(open_input("water.sql"), Err(ConfigError::UnrecognizedExtension));
    assert_eq!(open_input("water.geojson"), Err(ConfigError::UnrecognizedExtension));
    assert_eq!(open_input("water.SHP"), Err(ConfigError::UnrecognizedExtension));
    assert_eq!(open_input("water"), Err(ConfigError::MissingExtension));
}

#[test]
fn the_output_must_be_geojson() {
    assert_eq!(check_provided_output("out.geojson"), Ok(true));
    assert_eq!(check_provided_output("results/out.geojson"), Ok(true));
    assert_eq!(check_provided_output("out.json"), Err(ConfigError::UnrecognizedExtension));
    assert_eq!(check_provided_output("out.GeoJson"), Err(ConfigError::UnrecognizedExtension));
    assert_eq!(check_provided_output("out.shp"), Err(ConfigError::UnrecognizedExtension));
    assert_eq!(check_provided_output("out"), Err(ConfigError::MissingExtension));
}

#[test]
fn dispatching_twice_gives_the_same_reader() {
    for path in ["a.geojson", "a.shp", "a.sql", "a.txt", "a"] {
        assert_eq!(open_target(path, None), open_target(path, None));
        assert_eq!(open_target(path, Some("c")), open_target(path, Some("c")));
        assert_eq!(open_input(path), open_input(path));
    }
}

#[test]
fn a_download_comes_before_a_file() {
    assert_eq!(water_source(true, None), Ok(WaterSource::Download));
    assert_eq!(water_source(true, Some(String::from("water.shp"))), Ok(WaterSource::Download));
}

#[test]
fn without_a_download_the_file_is_read() {
    assert_eq!(
        water_source(false, Some(String::from("water.shp"))),
        Ok(WaterSource::File(String::from("water.shp")))
    );
}

#[test]
fn without_download_or_file_there_is_no_water() {
    assert_eq!(water_source(false, None), Err(ConfigError::MissingWater));
}

#[test]
fn polygon_records_are_assembled_and_the_others_skipped() {
    let outer = square(0.0, 0.0, 10.0);
    let hole = square(1.0, 1.0, 2.0);
    let second = square(20.0, 20.0, 1.0);
    let records = vec![
        ShapeRecord::Other,
        ShapeRecord::Polygon(vec![PolygonRing::Outer(outer.clone()), PolygonRing::Inner(hole.clone())]),
        ShapeRecord::Unreadable,
        ShapeRecord::Polygon(vec![PolygonRing::Outer(second.clone())]),
        ShapeRecord::Other,
    ];
    let expected = GeometryCollection::new_from(vec![
        Geometry::Polygon(Polygon { exterior: LineString(outer), interiors: vec![LineString(hole)] }),
        Geometry::Polygon(Polygon { exterior: LineString(second), interiors: Vec::new() }),
    ]);
    assert_eq!(open_shapefile(records), expected);
}

#[test]
fn a_shapefile_without_a_polygon_gives_an_empty_collection() {
    assert_eq!(open_shapefile(Vec::new()), GeometryCollection::new_from(Vec::new()));
    let records = vec![ShapeRecord::Unreadable, ShapeRecord::Other];
    assert!(open_shapefile(records).is_empty());
}

#[test]
fn a_record_with_two_outer_rings_becomes_one_polygon() {
    let first = square(0.0, 0.0, 10.0);
    let second = square(20.0, 20.0, 5.0);
    let hole = square(2.0, 2.0, 1.0);
    let records = vec![ShapeRecord::Polygon(vec![
        PolygonRing::Outer(first.clone()),
        PolygonRing::Outer(second.clone()),
        PolygonRing::Inner(hole.clone()),
    ])];
    let read = open_shapefile(records);
    assert_eq!(read.len(), 1);
    let mut exterior = first;
    exterior.extend(second);
    assert_eq!(
        read.0[0],
        Geometry::Polygon(Polygon { exterior: LineString(exterior), interiors: vec![LineString(hole)] })
    );
}

#[test]
fn reading_the_same_records_twice_gives_the_same_collection() {
    let records = vec![
        ShapeRecord::Polygon(vec![PolygonRing::Outer(square(0.0, 0.0, 1.0))]),
        ShapeRecord::Unreadable,
        ShapeRecord::Polygon(vec![PolygonRing::Inner(square(3.0, 3.0, 1.0))]),
    ];
    assert_eq!(open_shapefile(records.clone()), open_shapefile(records));
}

#[test]
fn rows_that_did_not_parse_are_skipped() {
    let point = Geometry::Point(pt(1.0, 2.0));
    let polygon =
        Geometry::Polygon(Polygon { exterior: LineString(square(0.0, 0.0, 1.0)), interiors: Vec::new() });
    let rows = vec![
        GeomRow::Unparseable,
        GeomRow::Parsed(point.clone()),
        GeomRow::Unparseable,
        GeomRow::Unparseable,
        GeomRow::Parsed(polygon.clone()),
        GeomRow::Parsed(point.clone()),
    ];
    assert_eq!(postgis_data(rows), GeometryCollection::new_from(vec![point.clone(), polygon, point]));
}

#[test]
fn no_row_gives_an_empty_collection() {
    assert!(postgis_data(Vec::new()).is_empty());
    assert!(postgis_data(vec![GeomRow::Unparseable]).is_empty());
}
