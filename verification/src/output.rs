//! The result as a feature collection, ready to be written as GeoJSON.
use crate::geometry::{Geometry, GeometryCollection, GeometryView};
use vstd::prelude::*;

verus! {

/// One feature of the output: a geometry and its `name` property, which is
/// written as `null` where it is `None`.
#[derive(Debug, PartialEq, Eq, Hash)]
pub struct Feature {
    pub geometry: Geometry,
    pub name: Option<String>,
}

/// What a feature holds.
pub ghost struct FeatureModel {
    pub geometry: GeometryView,
    pub name: Option<Seq<char>>,
}

impl View for Feature {
    type V = FeatureModel;

    open spec fn view(&self) -> FeatureModel {
        FeatureModel {
            geometry: self.geometry@,
            name: match self.name {
                Some(text) => Some(text@),
                None => None,
            },
        }
    }
}

/// The features of the output, in order.
#[derive(Debug, PartialEq, Eq, Hash)]
pub struct FeatureCollection {
    pub features: Vec<Feature>,
}

impl View for FeatureCollection {
    type V = Seq<FeatureModel>;

    open spec fn view(&self) -> Seq<FeatureModel> {
        crate::geometry::views(self.features@)
    }
}

/// The features that stand for `geometries`: one for each, in order, none of
/// them with a name.
pub open spec fn features_of(geometries: Seq<GeometryView>) -> Seq<FeatureModel> {
    Seq::new(
        geometries.len(),
        |i: int| FeatureModel { geometry: geometries[i], name: None },
    )
}

/// Turns the geometries found into the features of the output. No property
/// of a source record is carried over: every feature has the name `null`.
pub fn to_geojson(targets: GeometryCollection) -> (r: FeatureCollection)
    ensures
        r@ == features_of(targets@),
{
    let ghost wanted = features_of(targets@);
    let mut features: Vec<Feature> = Vec::new();
    for target in it: targets.0
        invariant
            features.len() == it.index(),
            wanted.len() == it.seq().len(),
            forall|k: int|
                0 <= k < it.seq().len() ==> wanted[k] == (FeatureModel {
                    geometry: (#[trigger] it.seq()[k])@,
                    name: None,
                }),
            forall|k: int| 0 <= k < features.len() ==> (#[trigger] features@[k])@ == wanted[k],
    {
        let ghost k = features.len() as int;
        assert(target == it.seq()[k]);
        let feature = Feature { geometry: target, name: None };
        assert(feature@ == wanted[k]);
        features.push(feature);
    }
    let r = FeatureCollection { features };
    assert(r@ =~= wanted);
    r
}

/// How a run that met no error ends.
#[derive(Debug, PartialEq, Eq, Hash)]
pub enum Outcome {
    /// No water geometry intersects a target: there is nothing to write, and
    /// the user is told so.
    NothingFound,
    /// These features are to be written.
    Write(FeatureCollection),
}

/// Decides how the run ends. A result that is absent and one that is empty
/// both mean that nothing was found.
pub fn report(found: Option<GeometryCollection>) -> (r: Outcome)
    ensures
        match found {
            Some(geometries) if geometries@.len() > 0 => r matches Outcome::Write(features)
                && features@ == features_of(geometries@),
            _ => r is NothingFound,
        },
{
    match found {
        Some(geometries) => {
            if geometries.is_empty() {
                Outcome::NothingFound
            } else {
                Outcome::Write(to_geojson(geometries))
            }
        },
        None => Outcome::NothingFound,
    }
}

} // verus!
