//! Where geometries come from: the choice of a reader by the extension of a
//! path, and what each reader keeps of the records it was given.
//!
//! Reading a file and decoding its coordinates happen outside this library.
//! A reader here takes the records as they were decoded, each one marked
//! where it could not be used, and returns the collection of those that
//! count.
use crate::geometry::{views, Geometry, GeometryCollection, GeometryView};
use crate::path::{extension, extension_of, same_text};
use crate::rings::{assembled, to_geo, PolygonRing, RingView};
use vstd::prelude::*;

verus! {

/// The readers that a path can select.
#[derive(Clone, Copy, Debug, PartialEq, Eq, Structural, Hash)]
pub enum Reader {
    /// GeoJSON text.
    TextGeometry,
    /// A shapefile.
    VectorBinary,
    /// A file holding the text of a query for a spatial database.
    Query,
}

/// Why a path or a combination of settings is refused.
#[derive(Clone, Copy, Debug, PartialEq, Eq, Structural, Hash)]
pub enum ConfigError {
    /// The path has no extension.
    MissingExtension,
    /// The path has an extension that selects no reader.
    UnrecognizedExtension,
    /// The path selects a query, and no connection string came with it.
    MissingConnection,
    /// Water is neither to be downloaded nor given as a file.
    MissingWater,
}

/// The reader that a target path with extension `ext` selects.
pub open spec fn target_reader(ext: Option<Seq<char>>, connected: bool) -> Result<
    Reader,
    ConfigError,
> {
    match ext {
        None => Err(ConfigError::MissingExtension),
        Some(e) => if e == "geojson"@ {
            Ok(Reader::TextGeometry)
        } else if e == "shp"@ {
            Ok(Reader::VectorBinary)
        } else if e == "sql"@ {
            if connected {
                Ok(Reader::Query)
            } else {
                Err(ConfigError::MissingConnection)
            }
        } else {
            Err(ConfigError::UnrecognizedExtension)
        },
    }
}

/// Selects the reader for the target geometries at `filepath`: `geojson`
/// selects GeoJSON text, `shp` a shapefile, `sql` a query, which needs a
/// connection string beside it. Extensions are compared as written.
pub fn open_target(filepath: &str, connection: Option<&str>) -> (r: Result<Reader, ConfigError>)
    ensures
        r == target_reader(extension_of(filepath@), connection.is_some()),
{
    match extension(filepath) {
        None => Err(ConfigError::MissingExtension),
        Some(ext) => {
            if same_text(ext.as_str(), "geojson") {
                Ok(Reader::TextGeometry)
            } else if same_text(ext.as_str(), "shp") {
                Ok(Reader::VectorBinary)
            } else if same_text(ext.as_str(), "sql") {
                if connection.is_some() {
                    Ok(Reader::Query)
                } else {
                    Err(ConfigError::MissingConnection)
                }
            } else {
                Err(ConfigError::UnrecognizedExtension)
            }
        },
    }
}

/// The reader that a water path with extension `ext` selects.
pub open spec fn input_reader(ext: Option<Seq<char>>) -> Result<Reader, ConfigError> {
    match ext {
        None => Err(ConfigError::MissingExtension),
        Some(e) => if e == "shp"@ {
            Ok(Reader::VectorBinary)
        } else {
            Err(ConfigError::UnrecognizedExtension)
        },
    }
}

/// Selects the reader for the water geometries at `filepath`: only a
/// shapefile will do.
pub fn open_input(filepath: &str) -> (r: Result<Reader, ConfigError>)
    ensures
        r == input_reader(extension_of(filepath@)),
{
    match extension(filepath) {
        None => Err(ConfigError::MissingExtension),
        Some(ext) => {
            if same_text(ext.as_str(), "shp") {
                Ok(Reader::VectorBinary)
            } else {
                Err(ConfigError::UnrecognizedExtension)
            }
        },
    }
}

/// Whether the result can be written to `filepath`: it must have the
/// extension `geojson`. The answer is never `Ok(false)`.
pub fn check_provided_output(filepath: &str) -> (r: Result<bool, ConfigError>)
    ensures
        r == match extension_of(filepath@) {
            None => Err::<bool, ConfigError>(ConfigError::MissingExtension),
            Some(e) => if e == "geojson"@ {
                Ok(true)
            } else {
                Err(ConfigError::UnrecognizedExtension)
            },
        },
{
    match extension(filepath) {
        None => Err(ConfigError::MissingExtension),
        Some(ext) => {
            if same_text(ext.as_str(), "geojson") {
                Ok(true)
            } else {
                Err(ConfigError::UnrecognizedExtension)
            }
        },
    }
}

/// Where the water geometries come from.
#[derive(Clone, Debug, PartialEq, Eq, Hash)]
pub enum WaterSource {
    /// The dataset is downloaded.
    Download,
    /// The shapefile at this path is read.
    File(String),
}

/// Decides where the water geometries come from. A download, where it is
/// asked for, comes before a file; without either there is no water.
pub fn water_source(download: bool, water: Option<String>) -> (r: Result<WaterSource, ConfigError>)
    ensures
        r == if download {
            Ok::<WaterSource, ConfigError>(WaterSource::Download)
        } else {
            match water {
                Some(path) => Ok(WaterSource::File(path)),
                None => Err(ConfigError::MissingWater),
            }
        },
{
    if download {
        Ok(WaterSource::Download)
    } else {
        match water {
            Some(path) => Ok(WaterSource::File(path)),
            None => Err(ConfigError::MissingWater),
        }
    }
}

/// One record of a shapefile, as the decoder found it.
#[derive(Clone, Debug, PartialEq, Eq, Hash)]
pub enum ShapeRecord {
    /// A polygon, with its rings in the order of the record.
    Polygon(Vec<PolygonRing>),
    /// A shape of another type.
    Other,
    /// A record that could not be decoded.
    Unreadable,
}

/// What a shapefile record holds.
pub ghost enum ShapeRecordView {
    Polygon(Seq<RingView>),
    Other,
    Unreadable,
}

impl View for ShapeRecord {
    type V = ShapeRecordView;

    open spec fn view(&self) -> ShapeRecordView {
        match self {
            ShapeRecord::Polygon(rings) => ShapeRecordView::Polygon(views(rings@)),
            ShapeRecord::Other => ShapeRecordView::Other,
            ShapeRecord::Unreadable => ShapeRecordView::Unreadable,
        }
    }
}

/// The polygons of `records`: each polygon record assembled, in the order of
/// the records; the other records left out.
pub open spec fn shapefile_polygons(records: Seq<ShapeRecordView>) -> Seq<GeometryView>
    decreases records.len(),
{
    if records.len() == 0 {
        Seq::empty()
    } else {
        let before = shapefile_polygons(records.drop_last());
        match records.last() {
            ShapeRecordView::Polygon(rings) => before.push(GeometryView::Polygon(assembled(rings))),
            _ => before,
        }
    }
}

/// Reads the records of a shapefile into a collection of polygons. A record
/// of another shape type, or one that could not be decoded, is skipped and
/// the reading goes on.
pub fn open_shapefile(records: Vec<ShapeRecord>) -> (r: GeometryCollection)
    ensures
        r@ == shapefile_polygons(views(records@)),
{
    let mut polys: Vec<Geometry> = Vec::new();
    let mut i: usize = 0;
    while i < records.len()
        invariant
            i <= records.len(),
            views(polys@) == shapefile_polygons(views(records@).take(i as int)),
        decreases records.len() - i,
    {
        proof {
            let seen = views(records@).take(i + 1);
            assert(seen.drop_last() == views(records@).take(i as int));
            assert(seen.last() == records@[i as int]@);
        }
        match &records[i] {
            ShapeRecord::Polygon(rings) => {
                let ghost before = views(polys@);
                let poly = to_geo(rings);
                polys.push(poly);
                assert(views(polys@) == before.push(poly@));
            },
            _ => {},
        }
        i += 1;
    }
    assert(views(records@).take(records.len() as int) == views(records@));
    GeometryCollection::new_from(polys)
}

/// One row of a query result, as the decoder of its `geom` column found it.
#[derive(Debug, PartialEq, Eq, Hash)]
pub enum GeomRow {
    /// The geometry that the text of the column stands for.
    Parsed(Geometry),
    /// The text of the column stands for no geometry.
    Unparseable,
}

/// What a row holds.
pub ghost enum GeomRowView {
    Parsed(GeometryView),
    Unparseable,
}

impl View for GeomRow {
    type V = GeomRowView;

    open spec fn view(&self) -> GeomRowView {
        match self {
            GeomRow::Parsed(g) => GeomRowView::Parsed(g@),
            GeomRow::Unparseable => GeomRowView::Unparseable,
        }
    }
}

/// The geometries of `rows`, in the order of the rows; the rows without one
/// left out.
pub open spec fn parsed_rows(rows: Seq<GeomRowView>) -> Seq<GeometryView>
    decreases rows.len(),
{
    if rows.len() == 0 {
        Seq::empty()
    } else {
        let before = parsed_rows(rows.drop_last());
        match rows.last() {
            GeomRowView::Parsed(g) => before.push(g),
            GeomRowView::Unparseable => before,
        }
    }
}

/// Reads the rows of a query result into a collection. A row whose text did
/// not parse is skipped and the reading goes on.
pub fn postgis_data(rows: Vec<GeomRow>) -> (r: GeometryCollection)
    ensures
        r@ == parsed_rows(views(rows@)),
{
    let ghost all = views(rows@);
    let mut features: Vec<Geometry> = Vec::new();
    for row in it: rows
        invariant
            all.len() == it.seq().len(),
            forall|n: int| 0 <= n < all.len() ==> all[n] == (#[trigger] it.seq()[n])@,
            views(features@) == parsed_rows(all.take(it.index() as int)),
    {
        let ghost n = it.index() as int;
        proof {
            assert(row == it.seq()[n]);
            assert(all.take(n + 1).drop_last() == all.take(n));
            assert(all.take(n + 1).last() == row@);
        }
        match row {
            GeomRow::Parsed(geometry) => {
                let ghost before = views(features@);
                let ghost held = geometry@;
                features.push(geometry);
                assert(views(features@) == before.push(held));
            },
            GeomRow::Unparseable => {},
        }
    }
    assert(all.take(all.len() as int) == all);
    GeometryCollection::new_from(features)
}

/// Dispatching is repeatable: two runs on the same path, with the same
/// connection string, select the same reader or refuse for the same reason.
pub proof fn lemma_dispatching_twice_gives_the_same(
    filepath: &str,
    connection: Option<&str>,
    first: Result<Reader, ConfigError>,
    second: Result<Reader, ConfigError>,
)
    requires
        call_ensures(open_target, (filepath, connection), first),
        call_ensures(open_target, (filepath, connection), second),
    ensures
        first == second,
{
}

/// Reading is repeatable: two runs on the same records give collections
/// that are equal geometry for geometry.
pub proof fn lemma_reading_twice_gives_the_same(
    records: Vec<ShapeRecord>,
    first: GeometryCollection,
    second: GeometryCollection,
)
    requires
        call_ensures(open_shapefile, (records,), first),
        call_ensures(open_shapefile, (records,), second),
    ensures
        first@.len() == second@.len(),
        forall|i: int| 0 <= i < first@.len() ==> first@[i] == second@[i],
{
}

/// Reading is repeatable for the rows of a query too.
pub proof fn lemma_reading_rows_twice_gives_the_same(
    rows: Vec<GeomRow>,
    first: GeometryCollection,
    second: GeometryCollection,
)
    requires
        call_ensures(postgis_data, (rows,), first),
        call_ensures(postgis_data, (rows,), second),
    ensures
        first@.len() == second@.len(),
        forall|i: int| 0 <= i < first@.len() ==> first@[i] == second@[i],
{
}

} // verus!
