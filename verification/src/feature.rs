use vstd::prelude::*;

use crate::tags::{Properties, TagModel};

verus! {

/// Anything that can hand out its geometry.
pub trait WithGeometry<T> {
    fn get_geometry(&self) -> &T;
}

/// The mathematical shape of a feature: its geometry and its property map.
pub struct FeatureView<GV> {
    pub geometry: GV,
    pub properties: Option<Seq<(Seq<char>, TagModel)>>,
}

/// A decoded feature: a geometry and an optional string-keyed property map.
/// Immutable once constructed.
#[derive(Debug)]
pub struct Feature<T> {
    pub geometry: T,
    pub properties: Option<Properties>,
}

impl<T: View> View for Feature<T> {
    type V = FeatureView<<T as View>::V>;

    open spec fn view(&self) -> FeatureView<<T as View>::V> {
        FeatureView {
            geometry: self.geometry@,
            properties: match &self.properties {
                Some(p) => Some(p@),
                None => None,
            },
        }
    }
}

impl<T> WithGeometry<T> for Feature<T> {
    fn get_geometry(&self) -> (g: &T)
        ensures
            g == &self.geometry,
    {
        &self.geometry
    }
}

} // verus!
