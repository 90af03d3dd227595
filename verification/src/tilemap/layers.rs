//! From the layers of an authored map to a primary map and its map
//! changes.

use super::crop::{
    lemma_bounding_box_unique, lemma_fits_in_bounds, make_main_tile_layer, make_map_change,
    Window,
};
use super::model::{gid_fits, FeMap, Layer, MapChange, MapError, Property, Tile, TileGrid};
use crate::ascii::{ascii_lower, to_lower};
use vstd::prelude::*;
use vstd::utf8::encode_utf8;

verus! {

/// Whether the bytes spell `main`, in capital or small letters.
pub open spec fn spells_main(t: Seq<u8>) -> bool {
    &&& t.len() == 4
    &&& ascii_lower(t[0]) == 0x6d
    &&& ascii_lower(t[1]) == 0x61
    &&& ascii_lower(t[2]) == 0x69
    &&& ascii_lower(t[3]) == 0x6e
}

/// Whether the text spells `main`, in capital or small letters.
pub open spec fn names_main(text: Seq<char>) -> bool {
    spells_main(encode_utf8(text))
}

impl Layer {
    /// Whether the layer is a finite layer of tiles.
    pub open spec fn finite(&self) -> bool {
        self.grid is Some
    }

    /// Whether the layer is marked as the main layer: by its name, or by a
    /// property whose key is `main`.
    pub open spec fn marked(&self) -> bool {
        names_main(self.name@) || exists|k: int|
            0 <= k < self.properties@.len() && names_main(#[trigger] self.properties@[k].key@)
    }

    /// Whether the layer is a finite layer of tiles that is marked as the
    /// main layer.
    pub open spec fn explicit_main(&self) -> bool {
        self.finite() && self.marked()
    }
}

/// The primary layer of a list of layers that has one.
pub open spec fn primary_of(layers: Seq<Layer>) -> int {
    choose|p: int| is_primary(layers, p)
}

/// Where the scan for the primary layer stands.
#[derive(Copy, Clone, Debug, PartialEq, Eq, Structural)]
pub enum MainLayerState {
    /// No finite layer of tiles has been met.
    NotFound,
    /// The layer at this position is the first finite layer of tiles, and
    /// no layer met so far is marked.
    Candidate(usize),
    /// The layer at this position is marked.
    Found(usize),
}

/// Whether `p` is the primary layer: the one finite layer that is marked
/// as main, or, where none is marked, the first finite layer.
pub open spec fn is_primary(layers: Seq<Layer>, p: int) -> bool {
    &&& 0 <= p < layers.len()
    &&& layers[p].finite()
    &&& forall|j: int| 0 <= j < layers.len() && j != p ==> !(#[trigger] layers[j]).explicit_main()
    &&& layers[p].marked() || forall|j: int| 0 <= j < p ==> !(#[trigger] layers[j]).finite()
}

/// Whether two layers are marked as main.
pub open spec fn several_marked(layers: Seq<Layer>) -> bool {
    exists|i: int, j: int|
        0 <= i < j < layers.len() && (#[trigger] layers[i]).explicit_main()
            && (#[trigger] layers[j]).explicit_main()
}

/// Whether no layer is a finite layer of tiles.
pub open spec fn none_finite(layers: Seq<Layer>) -> bool {
    forall|j: int| 0 <= j < layers.len() ==> !(#[trigger] layers[j]).finite()
}

/// What scanning the first `n` layers leaves the state at.
pub open spec fn state_after(layers: Seq<Layer>, n: int, state: MainLayerState) -> bool {
    match state {
        MainLayerState::NotFound => forall|j: int| 0 <= j < n ==> !(#[trigger] layers[j]).finite(),
        MainLayerState::Candidate(c) => {
            &&& 0 <= c < n
            &&& layers[c as int].finite()
            &&& forall|j: int| 0 <= j < c ==> !(#[trigger] layers[j]).finite()
            &&& forall|j: int| 0 <= j < n ==> !(#[trigger] layers[j]).explicit_main()
        },
        MainLayerState::Found(m) => {
            &&& 0 <= m < n
            &&& layers[m as int].explicit_main()
            &&& forall|j: int|
                0 <= j < n && j != m ==> !(#[trigger] layers[j]).explicit_main()
        },
    }
}

/// Whether the text spells `main`, in capital or small letters.
pub fn is_main_name(text: &str) -> (b: bool)
    ensures
        b == names_main(text@),
{
    let t = text.as_bytes();
    t.len() == 4 && to_lower(t[0]) == 0x6d && to_lower(t[1]) == 0x61 && to_lower(t[2]) == 0x69
        && to_lower(t[3]) == 0x6e
}

/// Whether the layer is marked as the main layer.
pub fn is_marked(layer: &Layer) -> (b: bool)
    ensures
        b == layer.marked(),
{
    if is_main_name(layer.name.as_str()) {
        return true;
    }
    let mut k: usize = 0;
    while k < layer.properties.len()
        invariant
            k <= layer.properties@.len(),
            !names_main(layer.name@),
            forall|j: int| 0 <= j < k ==> !names_main(#[trigger] layer.properties@[j].key@),
        decreases layer.properties.len() - k,
    {
        if is_main_name(layer.properties[k].key.as_str()) {
            return true;
        }
        k += 1;
    }
    false
}

impl MainLayerState {
    /// The state after the layer at position `i`, which is a finite layer
    /// of tiles and is marked or not as `marked` says. A second marked
    /// layer is an error.
    pub fn step(self, i: usize, marked: bool) -> (r: Result<MainLayerState, MapError>)
        ensures
            r == match (self, marked) {
                (MainLayerState::Found(_), true) => Err::<MainLayerState, MapError>(
                    MapError::MultipleMainLayers,
                ),
                (_, true) => Ok(MainLayerState::Found(i)),
                (MainLayerState::NotFound, false) => Ok(MainLayerState::Candidate(i)),
                (_, false) => Ok(self),
            },
    {
        if marked {
            match self {
                MainLayerState::Found(_) => Err(MapError::MultipleMainLayers),
                _ => Ok(MainLayerState::Found(i)),
            }
        } else {
            match self {
                MainLayerState::NotFound => Ok(MainLayerState::Candidate(i)),
                _ => Ok(self),
            }
        }
    }
}

/// Finds the primary layer.
pub fn find_primary(layers: &[Layer]) -> (r: Result<usize, MapError>)
    ensures
        match r {
            Ok(p) => is_primary(layers@, p as int),
            Err(MapError::MultipleMainLayers) => several_marked(layers@),
            Err(MapError::NoMainLayer) => none_finite(layers@),
            Err(_) => false,
        },
{
    let mut state = MainLayerState::NotFound;
    let mut i: usize = 0;
    while i < layers.len()
        invariant
            i <= layers@.len(),
            state_after(layers@, i as int, state),
        decreases layers.len() - i,
    {
        if layers[i].grid.is_some() {
            let marked = is_marked(&layers[i]);
            match state.step(i, marked) {
                Ok(next) => {
                    state = next;
                },
                Err(e) => {
                    proof {
                        let m = state->Found_0 as int;
                        assert(layers@[m].explicit_main() && layers@[i as int].explicit_main());
                    }
                    return Err(e);
                },
            }
        }
        i += 1;
    }
    match state {
        MainLayerState::NotFound => Err(MapError::NoMainLayer),
        MainLayerState::Candidate(c) => Ok(c),
        MainLayerState::Found(m) => Ok(m),
    }
}

/// Exactly one of the three outcomes of the search for the primary layer
/// applies to a list of layers.
pub proof fn lemma_primary_outcomes(layers: Seq<Layer>, p: int, q: int)
    ensures
        is_primary(layers, p) ==> !several_marked(layers) && !none_finite(layers),
        several_marked(layers) ==> !none_finite(layers),
        is_primary(layers, p) && is_primary(layers, q) ==> p == q,
{
    if several_marked(layers) {
        let (i, j) = choose|i: int, j: int|
            0 <= i < j < layers.len() && (#[trigger] layers[i]).explicit_main()
                && (#[trigger] layers[j]).explicit_main();
        assert(layers[i].finite());
        if is_primary(layers, p) {
            assert(i != p || j != p);
        }
    }
    if is_primary(layers, p) && is_primary(layers, q) && p != q {
        if layers[p].marked() {
            assert(layers[p].explicit_main());
        } else if layers[q].marked() {
            assert(layers[q].explicit_main());
        } else if p < q {
            assert(layers[p].finite());
        } else {
            assert(layers[q].finite());
        }
    }
}

/// The properties of a layer that are written as text, as pairs of key and
/// value, in their order.
pub open spec fn rendered(props: Seq<Property>) -> Seq<(Seq<char>, Seq<char>)>
    decreases props.len(),
{
    if props.len() == 0 {
        Seq::empty()
    } else {
        let before = rendered(props.drop_last());
        match props.last().value {
            Some(text) => before.push((props.last().key@, text@)),
            None => before,
        }
    }
}

/// A list of pairs of texts, as sequences of characters.
pub open spec fn pairs_view(pairs: Seq<(String, String)>) -> Seq<(Seq<char>, Seq<char>)> {
    pairs.map_values(|e: (String, String)| (e.0@, e.1@))
}

/// What there is to know of a map change: its name, its rectangle and its
/// tiles.
pub struct ChangeModel {
    pub name: Seq<char>,
    pub window: Window,
    pub tiles: Seq<Tile>,
}

/// A named map change as a model.
pub open spec fn change_model(entry: (String, MapChange)) -> ChangeModel {
    ChangeModel {
        name: entry.0@,
        window: Window {
            x: entry.1.base_x,
            y: entry.1.base_y,
            width: entry.1.width,
            height: entry.1.height,
        },
        tiles: entry.1.tiles@,
    }
}

/// The bounding box of the occupied cells of a grid that has any.
pub open spec fn bounds_of(grid: TileGrid) -> Window {
    choose|w: Window| grid.bounded_by(w)
}

/// The map changes that the first `n` layers yield when `p` is the
/// primary layer: one for each other finite layer of tiles that has an
/// occupied cell, cropped to its bounding box, in the order of the layers.
pub open spec fn changes_upto(layers: Seq<Layer>, p: int, n: int) -> Seq<ChangeModel>
    decreases n,
{
    if n <= 0 {
        Seq::empty()
    } else {
        let before = changes_upto(layers, p, n - 1);
        let layer = layers[n - 1];
        match layer.grid {
            Some(grid) => if n - 1 != p && grid.any_occupied() {
                before.push(
                    ChangeModel {
                        name: layer.name@,
                        window: bounds_of(grid),
                        tiles: grid.window_tiles(bounds_of(grid)),
                    },
                )
            } else {
                before
            },
            None => before,
        }
    }
}

/// Whether every finite layer of tiles holds only ids that fit a tile.
pub open spec fn all_fit(layers: Seq<Layer>) -> bool {
    forall|j: int|
        0 <= j < layers.len() && (#[trigger] layers[j]).grid is Some ==> layers[j].grid->0.fits()
}

/// Whether `map` is the map that the layers yield with `p` as the primary
/// layer.
pub open spec fn is_map_of(map: FeMap, layers: Seq<Layer>, p: int) -> bool {
    let grid = layers[p].grid->0;
    &&& map.width == grid.width
    &&& map.height == grid.height
    &&& map.tiles@ == grid.window_tiles(grid.whole())
    &&& pairs_view(map.properties@) == rendered(layers[p].properties@)
    &&& map.map_changes@.map_values(|e: (String, MapChange)| change_model(e)) == changes_upto(
        layers,
        p,
        layers.len() as int,
    )
}

/// Copies the properties of a layer that are written as text.
fn render_properties(props: &Vec<Property>) -> (pairs: Vec<(String, String)>)
    ensures
        pairs_view(pairs@) == rendered(props@),
{
    let mut pairs: Vec<(String, String)> = Vec::new();
    let mut k: usize = 0;
    assert(props@.take(0) =~= Seq::<Property>::empty());
    assert(pairs_view(pairs@) =~= rendered(props@.take(0)));
    while k < props.len()
        invariant
            k <= props@.len(),
            pairs_view(pairs@) == rendered(props@.take(k as int)),
        decreases props.len() - k,
    {
        let ghost before = pairs@;
        assert(props@.take(k as int + 1).drop_last() =~= props@.take(k as int));
        match &props[k].value {
            Some(text) => {
                pairs.push((props[k].key.clone(), text.clone()));
                assert(pairs_view(pairs@) =~= pairs_view(before).push((props@[k as int].key@, text@)));
            },
            None => {},
        }
        k += 1;
    }
    assert(props@.take(k as int) =~= props@);
    pairs
}

/// Builds a map from the layers of an authored map.
///
/// The primary layer is the one finite layer of tiles that is marked as
/// main, by its name or by a property; where no layer is marked, it is the
/// first finite layer of tiles. Every other finite layer of tiles becomes a
/// map change, cropped to the bounding box of its occupied cells; one
/// without an occupied cell is left out. Layers that are not finite layers
/// of tiles are passed over.
pub fn process_femap(layers: &[Layer]) -> (r: Result<FeMap, MapError>)
    ensures
        match r {
            Ok(map) => {
                &&& is_primary(layers@, primary_of(layers@))
                &&& all_fit(layers@)
                &&& is_map_of(map, layers@, primary_of(layers@))
            },
            Err(MapError::MultipleMainLayers) => several_marked(layers@),
            Err(MapError::NoMainLayer) => none_finite(layers@),
            Err(MapError::TileIdOverflow) => {
                &&& is_primary(layers@, primary_of(layers@))
                &&& !all_fit(layers@)
            },
            Err(MapError::SizeMismatch) => false,
        },
{
    let p = match find_primary(layers) {
        Ok(p) => p,
        Err(e) => {
            return Err(e);
        },
    };
    proof {
        lemma_primary_outcomes(layers@, p as int, primary_of(layers@));
    }
    let primary = &layers[p];
    let grid = match &primary.grid {
        Some(grid) => grid,
        None => {
            return Err(MapError::NoMainLayer);
        },
    };
    proof {
        lemma_fits_in_bounds(grid, grid.whole());
    }
    let tiles = match make_main_tile_layer(grid) {
        Ok(tiles) => tiles,
        Err(e) => {
            assert(!layers@[p as int].grid->0.fits());
            return Err(e);
        },
    };
    let properties = render_properties(&primary.properties);
    let mut map_changes: Vec<(String, MapChange)> = Vec::new();
    let mut i: usize = 0;
    assert(map_changes@.map_values(|e: (String, MapChange)| change_model(e)) =~= changes_upto(
        layers@,
        p as int,
        0,
    ));
    while i < layers.len()
        invariant
            i <= layers@.len(),
            is_primary(layers@, p as int),
            p == primary_of(layers@),
            layers@[p as int].grid->0.fits(),
            forall|j: int|
                0 <= j < i && (#[trigger] layers@[j]).grid is Some ==> layers@[j].grid->0.fits(),
            map_changes@.map_values(|e: (String, MapChange)| change_model(e)) == changes_upto(
                layers@,
                p as int,
                i as int,
            ),
        decreases layers.len() - i,
    {
        let ghost before = map_changes@;
        if i != p {
            match &layers[i].grid {
                Some(other) => {
                    match make_map_change(other) {
                        Ok(Some(change)) => {
                            proof {
                                let w = Window {
                                    x: change.base_x,
                                    y: change.base_y,
                                    width: change.width,
                                    height: change.height,
                                };
                                lemma_fits_in_bounds(other, w);
                                lemma_bounding_box_unique(other, w, bounds_of(*other));
                            }
                            let entry = (layers[i].name.clone(), change);
                            map_changes.push(entry);
                            assert(map_changes@.map_values(
                                |e: (String, MapChange)| change_model(e),
                            ) =~= before.map_values(
                                |e: (String, MapChange)| change_model(e),
                            ).push(change_model(entry)));
                        },
                        Ok(None) => {
                            assert(other.fits()) by {
                                assert forall|x: int, y: int|
                                    0 <= x < other.width && 0 <= y < other.height implies gid_fits(
                                    #[trigger] other.cell(x, y),
                                ) by {
                                    assert(!other.occupied(x, y));
                                }
                            }
                        },
                        Err(e) => {
                            assert(!layers@[i as int].grid->0.fits());
                            return Err(e);
                        },
                    }
                },
                None => {},
            }
        }
        i += 1;
    }
    let map = FeMap { width: grid.width, height: grid.height, map_changes, tiles, properties };
    assert(all_fit(layers@));
    assert(is_map_of(map, layers@, p as int));
    Ok(map)
}

} // verus!
