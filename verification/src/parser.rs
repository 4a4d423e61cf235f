use vstd::prelude::*;

use crate::decode::{parse_geometry, parse_geometry_spec};
use crate::error::Error;
use crate::feature::{Feature, FeatureView};
use crate::geom::{GeomModel, GeometryCollection};
use crate::pbf::{parse_tile, tile_spec, FeatureModel, LayerModel, Tile};
use crate::tags::{parse_tags, tags_model, TagModel, ValueModel};

verus! {

// The parser: a tile payload becomes layers, and a layer's raw features
// become decoded features with geometry and properties.

/// A parsed tile payload.
#[derive(Debug)]
pub struct Parser {
    pub tile: Tile,
}

/// Whether this renderer supports a layer's version: 1 and 2 are accepted,
/// anything else is passed over.
pub open spec fn layer_supported(l: LayerModel) -> bool {
    l.version == 1 || l.version == 2
}

/// The names of the supported layers, in payload order.
pub open spec fn layer_names_spec(layers: Seq<LayerModel>) -> Seq<Seq<char>>
    decreases layers.len(),
{
    if layers.len() == 0 {
        Seq::empty()
    } else {
        let rest = layer_names_spec(layers.drop_first());
        if layer_supported(layers[0]) {
            seq![layers[0].name] + rest
        } else {
            rest
        }
    }
}

/// The payload indices of the supported layers at or past `i`, in order.
pub open spec fn supported_indices_from(layers: Seq<LayerModel>, i: int) -> Seq<int>
    decreases layers.len() - i,
{
    if i < 0 || i >= layers.len() {
        Seq::empty()
    } else {
        let rest = supported_indices_from(layers, i + 1);
        if layer_supported(layers[i]) {
            seq![i] + rest
        } else {
            rest
        }
    }
}

/// The payload indices of the supported layers, in order.
pub open spec fn supported_indices_spec(layers: Seq<LayerModel>) -> Seq<int> {
    supported_indices_from(layers, 0)
}

/// The supported layers' names are exactly the names at the supported
/// indices: selecting layers by `supported_layers` and naming them by
/// `get_layer_names` agree, index for index.
pub proof fn lemma_layer_names_are_supported_names(layers: Seq<LayerModel>)
    ensures
        layer_names_spec(layers) == supported_indices_spec(layers).map_values(
            |i: int| layers[i].name,
        ),
{
    lemma_names_from(layers, 0);
    assert(layers.skip(0int) =~= layers);
}

proof fn lemma_names_from(layers: Seq<LayerModel>, i: int)
    requires
        0 <= i <= layers.len(),
    ensures
        layer_names_spec(layers.skip(i)) == supported_indices_from(layers, i).map_values(
            |j: int| layers[j].name,
        ),
    decreases layers.len() - i,
{
    let rest = layers.skip(i);
    if i == layers.len() {
        assert(rest =~= Seq::<LayerModel>::empty());
        assert(supported_indices_from(layers, i).map_values(|j: int| layers[j].name) =~= Seq::<
            Seq<char>,
        >::empty());
    } else {
        lemma_names_from(layers, i + 1);
        assert(rest[0] == layers[i]);
        assert(rest.drop_first() =~= layers.skip(i + 1));
        if layer_supported(layers[i]) {
            assert((seq![i] + supported_indices_from(layers, i + 1)).map_values(
                |j: int| layers[j].name,
            ) =~= seq![layers[i].name] + supported_indices_from(layers, i + 1).map_values(
                |j: int| layers[j].name,
            ));
        }
    }
}

/// The features a layer decodes to: features without a geometry type are
/// passed over; a feature whose tags point outside the dictionaries is
/// dropped alone; a malformed geometry stream refuses the whole layer
/// (`None`).
pub open spec fn features_fold(
    fs: Seq<FeatureModel>,
    keys: Seq<Seq<char>>,
    values: Seq<ValueModel>,
    acc: Seq<FeatureView<Seq<GeomModel>>>,
) -> Option<Seq<FeatureView<Seq<GeomModel>>>>
    decreases fs.len(),
{
    if fs.len() == 0 {
        Some(acc)
    } else {
        let f = fs[0];
        match f.geom_type {
            None => features_fold(fs.drop_first(), keys, values, acc),
            Some(t) => match parse_geometry_spec(f.geometry, t) {
                None => None,
                Some(g) => match tags_model(f.tags, keys, values, Seq::empty()) {
                    None => features_fold(fs.drop_first(), keys, values, acc),
                    Some(props) => features_fold(
                        fs.drop_first(),
                        keys,
                        values,
                        acc.push(FeatureView { geometry: g, properties: Some(props) }),
                    ),
                },
            },
        }
    }
}

/// What one layer's features decode to.
pub open spec fn layer_features_spec(layer: LayerModel) -> Option<
    Seq<FeatureView<Seq<GeomModel>>>,
> {
    features_fold(layer.features, layer.keys, layer.values, Seq::empty())
}

impl Parser {
    /// Parse a tile payload. Fails with `Decode` exactly on the payloads the
    /// wire model refuses.
    pub fn new(data: Vec<u8>) -> (r: Result<Parser, Error>)
        ensures
            r is Ok <==> tile_spec(data@) is Some,
            r is Ok ==> r.unwrap().tile@ == tile_spec(data@).unwrap(),
            r is Err ==> r.unwrap_err() == Error::Decode,
    {
        match parse_tile(&data) {
            Ok(tile) => Ok(Parser { tile }),
            Err(e) => Err(e),
        }
    }

    /// The names of the supported layers (version 1 or 2), in payload order.
    pub fn get_layer_names(&self) -> (r: Vec<String>)
        ensures
            r@.map_values(|s: String| s@) == layer_names_spec(self.tile@),
    {
        let mut names: Vec<String> = Vec::new();
        let n = self.tile.layers.len();
        let mut i: usize = 0;
        proof {
            assert(self.tile@.skip(0int) =~= self.tile@);
            assert(names@.map_values(|s: String| s@) =~= Seq::<Seq<char>>::empty());
        }
        while i < n
            invariant
                n == self.tile.layers@.len(),
                i <= n,
                names@.map_values(|s: String| s@) + layer_names_spec(self.tile@.skip(i as int))
                    == layer_names_spec(self.tile@),
            decreases n - i,
        {
            let ghost pre = names@.map_values(|s: String| s@);
            let ghost rest = self.tile@.skip(i as int);
            proof {
                assert(rest[0] == self.tile@[i as int]);
                assert(rest.drop_first() =~= self.tile@.skip(i + 1 as int));
            }
            let layer = &self.tile.layers[i];
            if layer.version == 1 || layer.version == 2 {
                names.push(layer.name.clone());
                proof {
                    assert(names@.map_values(|s: String| s@) =~= pre.push(rest[0].name));
                    assert(pre.push(rest[0].name) + layer_names_spec(rest.drop_first()) =~= pre + (
                    seq![rest[0].name] + layer_names_spec(rest.drop_first())));
                }
            }
            i = i + 1;
        }
        proof {
            assert(self.tile@.skip(n as int) =~= Seq::<LayerModel>::empty());
            assert(names@.map_values(|s: String| s@) + Seq::<Seq<char>>::empty() =~= names@
                .map_values(|s: String| s@));
        }
        names
    }

    /// The payload indices of the supported layers (version 1 or 2), in
    /// order: the layers ingestion decodes, each index valid for
    /// `get_features`.
    pub fn supported_layers(&self) -> (r: Vec<usize>)
        ensures
            r@.map_values(|i: usize| i as int) == supported_indices_spec(self.tile@),
            forall|k: int| 0 <= k < r@.len() ==> (#[trigger] r@[k]) < self.tile@.len(),
    {
        let mut out: Vec<usize> = Vec::new();
        let n = self.tile.layers.len();
        let mut i: usize = 0;
        proof {
            assert(out@.map_values(|i: usize| i as int) =~= Seq::<int>::empty());
        }
        while i < n
            invariant
                n == self.tile@.len(),
                i <= n,
                out@.map_values(|i: usize| i as int) + supported_indices_from(
                    self.tile@,
                    i as int,
                ) == supported_indices_spec(self.tile@),
                forall|k: int| 0 <= k < out@.len() ==> (#[trigger] out@[k]) < n,
            decreases n - i,
        {
            let ghost pre = out@.map_values(|i: usize| i as int);
            let layer = &self.tile.layers[i];
            if layer.version == 1 || layer.version == 2 {
                out.push(i);
                proof {
                    assert(out@.map_values(|i: usize| i as int) =~= pre.push(i as int));
                    assert(pre.push(i as int) + supported_indices_from(self.tile@, i + 1 as int)
                        =~= pre + (seq![i as int] + supported_indices_from(
                        self.tile@,
                        i + 1 as int,
                    )));
                }
            }
            i = i + 1;
        }
        proof {
            assert(supported_indices_from(self.tile@, n as int) =~= Seq::<int>::empty());
            assert(out@.map_values(|i: usize| i as int) + Seq::<int>::empty() =~= out@.map_values(
                |i: usize| i as int,
            ));
        }
        out
    }

    /// Decode one layer's features: geometry by the feature's type tag,
    /// properties from its tag pairs. `None` exactly when no layer has this
    /// index. A feature with tags out of range is dropped and the rest keep
    /// going; a malformed geometry stream fails the whole layer with
    /// `Decode`. Ingestion picks which layers to decode with
    /// `supported_layers`.
    pub fn get_features(&self, layer_index: usize) -> (r: Option<
        Result<Vec<Feature<GeometryCollection>>, Error>,
    >)
        ensures
            r is None <==> layer_index >= self.tile@.len(),
            r is Some ==> match layer_features_spec(self.tile@[layer_index as int]) {
                Some(fs) => r.unwrap() is Ok && r.unwrap().unwrap()@.map_values(
                    |f: Feature<GeometryCollection>| f@,
                ) == fs,
                None => r.unwrap() == Err::<Vec<Feature<GeometryCollection>>, Error>(
                    Error::Decode,
                ),
            },
    {
        if layer_index >= self.tile.layers.len() {
            return None;
        }
        let layer = &self.tile.layers[layer_index];
        let ghost lm = self.tile@[layer_index as int];
        let mut out: Vec<Feature<GeometryCollection>> = Vec::new();
        let n = layer.features.len();
        let mut i: usize = 0;
        proof {
            assert(lm.features.skip(0int) =~= lm.features);
            assert(out@.map_values(|f: Feature<GeometryCollection>| f@) =~= Seq::<
                FeatureView<Seq<GeomModel>>,
            >::empty());
        }
        while i < n
            invariant
                n == layer.features@.len(),
                layer == &self.tile.layers@[layer_index as int],
                layer_index < self.tile.layers@.len(),
                lm == self.tile@[layer_index as int],
                lm.features == layer.features@.map_values(|f: crate::pbf::RawFeature| f@),
                lm.keys == layer.keys@.map_values(|k: String| k@),
                lm.values == layer.values@.map_values(|v: crate::tags::Value| v@),
                i <= n,
                features_fold(
                    lm.features.skip(i as int),
                    lm.keys,
                    lm.values,
                    out@.map_values(|f: Feature<GeometryCollection>| f@),
                ) == layer_features_spec(lm),
            decreases n - i,
        {
            let ghost pre = out@.map_values(|f: Feature<GeometryCollection>| f@);
            let ghost rest = lm.features.skip(i as int);
            proof {
                assert(rest[0] == lm.features[i as int]);
                assert(rest.drop_first() =~= lm.features.skip(i + 1 as int));
            }
            let f = &layer.features[i];
            match f.geom_type {
                None => (),
                Some(t) => {
                    match parse_geometry(&f.geometry, t) {
                        Err(_) => {
                            return Some(Err(Error::Decode));
                        },
                        Ok(gc) => {
                            match parse_tags(&f.tags, &layer.keys, &layer.values) {
                                Err(_) => (),
                                Ok(props) => {
                                    out.push(
                                        Feature { geometry: gc, properties: Some(props) },
                                    );
                                    proof {
                                        assert(out@.map_values(
                                            |f: Feature<GeometryCollection>| f@,
                                        ) =~= pre.push(out@.last()@));
                                    }
                                },
                            }
                        },
                    }
                },
            }
            i = i + 1;
        }
        proof {
            assert(lm.features.skip(n as int) =~= Seq::<FeatureModel>::empty());
        }
        Some(Ok(out))
    }
}

} // verus!
