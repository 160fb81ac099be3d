//! Process-wide tile grids: the generated background terrain and the dynamic
//! entity tiles.
use crate::components::Tile;
use rand::distributions::Uniform;
use rand::Rng;
use vstd::arithmetic::div_mod::{lemma_fundamental_div_mod, lemma_fundamental_div_mod_converse};
use vstd::prelude::*;

verus! {

/// Side length of the square extent that the background covers.
pub const MAP_EXTENT: i32 = 128;

/// Relies on rand's `thread_rng` and `Uniform::new_inclusive(1, 100)`: a sample
/// drawn from the inclusive range 1..=100. `new_inclusive` asserts only
/// `low <= high`; the generator panics only where the operating system's
/// entropy source fails, when `thread_rng` first seeds it or when it reseeds
/// itself (every 64 KiB of output, about one background's worth).
#[verifier::external_body]
fn roll_percent() -> (r: u32)
    ensures
        1 <= r <= 100,
{
    rand::thread_rng().sample(Uniform::new_inclusive(1u32, 100u32))
}

/// The sprite that a roll in 1..=100 selects on the background layer.
pub open spec fn sprite_of_roll(roll: int) -> i32 {
    if 1 <= roll <= 3 {
        1
    } else if 4 <= roll <= 6 {
        4
    } else if roll == 98 || roll == 99 {
        2
    } else if roll == 100 {
        3
    } else {
        0
    }
}

/// A sprite index that the background generator may produce.
pub open spec fn is_background_sprite(t: Tile) -> bool {
    t.sprite_layer == 0 && 0 <= t.sprite_id <= 4
}

/// Maps a roll in 1..=100 to a background sprite index.
pub fn sprite_for_roll(roll: u32) -> (r: i32)
    ensures
        r == sprite_of_roll(roll as int),
{
    if 1 <= roll && roll <= 3 {
        1
    } else if 4 <= roll && roll <= 6 {
        4
    } else if roll == 98 || roll == 99 {
        2
    } else if roll == 100 {
        3
    } else {
        0
    }
}

/// The coordinates of the background extent.
pub open spec fn extent() -> Set<(i32, i32)> {
    Set::new(|k: (i32, i32)| 0 <= k.0 < MAP_EXTENT && 0 <= k.1 < MAP_EXTENT)
}

/// A sparse grid from coordinate pairs to tiles, one entry per coordinate.
pub struct TileGrid {
    entries: Vec<((i32, i32), Tile)>,
}

impl TileGrid {
    /// No coordinate appears in two entries.
    pub closed spec fn wf(&self) -> bool {
        forall|i: int, j: int|
            0 <= i < j < self.entries@.len() ==> #[trigger] self.entries@[i].0
                != #[trigger] self.entries@[j].0
    }

    pub closed spec fn has_key(&self, k: (i32, i32)) -> bool {
        exists|i: int| 0 <= i < self.entries@.len() && #[trigger] self.entries@[i].0 == k
    }

    pub closed spec fn index_of(&self, k: (i32, i32)) -> int {
        choose|i: int| 0 <= i < self.entries@.len() && #[trigger] self.entries@[i].0 == k
    }

    /// The tile stored at each coordinate.
    pub closed spec fn view(&self) -> Map<(i32, i32), Tile> {
        Map::new(|k: (i32, i32)| self.has_key(k), |k: (i32, i32)| self.entries@[self.index_of(k)].1)
    }

    /// The number of stored coordinates.
    pub closed spec fn len_spec(&self) -> nat {
        self.entries@.len()
    }

    proof fn lemma_index_of(&self, i: int)
        requires
            self.wf(),
            0 <= i < self.entries@.len(),
        ensures
            self.has_key(self.entries@[i].0),
            self.index_of(self.entries@[i].0) == i,
            self.view()[self.entries@[i].0] == self.entries@[i].1,
    {
        let k = self.entries@[i].0;
        assert(self.has_key(k));
        let j = self.index_of(k);
        if i < j {
            assert(self.entries@[i].0 != self.entries@[j].0);
        } else if j < i {
            assert(self.entries@[j].0 != self.entries@[i].0);
        }
    }

    pub proof fn lemma_len(&self)
        requires
            self.wf(),
        ensures
            self.view().dom().finite(),
            self.view().dom().len() == self.len_spec(),
    {
        let keys = self.entries@.map_values(|e: ((i32, i32), Tile)| e.0);
        assert forall|i: int, j: int| 0 <= i < j < keys.len() implies keys[i] != keys[j] by {
            assert(self.entries@[i].0 != self.entries@[j].0);
        }
        keys.unique_seq_to_set();
        assert(self.view().dom() =~= keys.to_set()) by {
            assert forall|k: (i32, i32)| self.view().dom().contains(k) implies keys.to_set().contains(k) by {
                let i = self.index_of(k);
                assert(keys[i] == k);
            }
            assert forall|k: (i32, i32)| keys.to_set().contains(k) implies self.view().dom().contains(k) by {
                let i = choose|i: int| 0 <= i < keys.len() && keys[i] == k;
                assert(self.entries@[i].0 == k);
            }
        }
    }

    pub fn new() -> (r: Self)
        ensures
            r.wf(),
            r@ == Map::<(i32, i32), Tile>::empty(),
            r.len_spec() == 0,
    {
        let r = TileGrid { entries: Vec::new() };
        assert(r@ =~= Map::<(i32, i32), Tile>::empty());
        r
    }

    /// The number of stored coordinates.
    pub fn len(&self) -> (r: usize)
        requires
            self.wf(),
        ensures
            r == self@.dom().len(),
            r == self.len_spec(),
    {
        proof {
            self.lemma_len();
        }
        self.entries.len()
    }

    /// The tile stored at `(x, y)`, if any.
    pub fn get(&self, x: i32, y: i32) -> (r: Option<Tile>)
        requires
            self.wf(),
        ensures
            r == (if self@.contains_key((x, y)) {
                Some(self@[(x, y)])
            } else {
                None::<Tile>
            }),
    {
        let mut i: usize = 0;
        while i < self.entries.len()
            invariant
                self.wf(),
                0 <= i <= self.entries@.len(),
                forall|j: int| 0 <= j < i ==> #[trigger] self.entries@[j].0 != (x, y),
            decreases self.entries@.len() - i,
        {
            if self.entries[i].0.0 == x && self.entries[i].0.1 == y {
                proof {
                    self.lemma_index_of(i as int);
                }
                return Some(self.entries[i].1);
            }
            i = i + 1;
        }
        None
    }

    /// Stores `tile` at `(x, y)`, replacing what was there.
    pub fn insert(&mut self, x: i32, y: i32, tile: Tile)
        requires
            old(self).wf(),
            old(self).len_spec() < usize::MAX,
        ensures
            final(self).wf(),
            final(self)@ == old(self)@.insert((x, y), tile),
    {
        let ghost pre = self.entries@;
        let mut i: usize = 0;
        while i < self.entries.len()
            invariant
                self.entries@ == pre,
                pre == old(self).entries@,
                old(self).wf(),
                0 <= i <= pre.len(),
                forall|j: int| 0 <= j < i ==> #[trigger] pre[j].0 != (x, y),
            decreases pre.len() - i,
        {
            if self.entries[i].0.0 == x && self.entries[i].0.1 == y {
                self.entries.set(i, ((x, y), tile));
                proof {
                    assert forall|j: int| 0 <= j < pre.len() implies #[trigger] self.entries@[j].0 == pre[j].0 by {}
                    assert(forall|j: int| 0 <= j < pre.len() && j != i ==> #[trigger] pre[j].0 != (x, y)) by {
                        assert forall|j: int| 0 <= j < pre.len() && j != i implies #[trigger] pre[j].0 != (x, y) by {
                            if j < i {
                            } else {
                                assert(pre[i as int].0 != pre[j].0);
                            }
                        }
                    }
                    assert forall|k: (i32, i32)| true implies (self.has_key(k) == (old(self).has_key(k) || k == (x, y))) by {
                        if old(self).has_key(k) {
                            let j = old(self).index_of(k);
                            assert(self.entries@[j].0 == k);
                        }
                        if self.has_key(k) {
                            let j = self.index_of(k);
                            if j != i {
                                assert(pre[j].0 == k);
                            }
                        }
                    }
                    assert forall|k: (i32, i32)| self.has_key(k) && k != (x, y) implies self.index_of(k) == old(self).index_of(k) by {
                        let j = self.index_of(k);
                        assert(j != i);
                        assert(pre[j].0 == k);
                        old(self).lemma_index_of(j);
                    }
                    self.lemma_index_of(i as int);
                    assert(self@ =~= old(self)@.insert((x, y), tile));
                }
                return;
            }
            i = i + 1;
        }
        self.entries.push(((x, y), tile));
        proof {
            let n = pre.len() as int;
            assert forall|k: (i32, i32)| true implies (self.has_key(k) == (old(self).has_key(k) || k == (x, y))) by {
                assert(self.entries@[n].0 == (x, y));
                if old(self).has_key(k) {
                    let j = old(self).index_of(k);
                    assert(self.entries@[j].0 == k);
                }
                if self.has_key(k) {
                    let j = self.index_of(k);
                    if j != n {
                        assert(pre[j].0 == k);
                    }
                }
            }
            assert forall|k: (i32, i32)| self.has_key(k) && k != (x, y) implies self.index_of(k) == old(self).index_of(k) by {
                let j = self.index_of(k);
                assert(pre[j].0 == k);
                old(self).lemma_index_of(j);
                self.lemma_index_of(j);
            }
            self.lemma_index_of(n);
            assert(self@ =~= old(self)@.insert((x, y), tile));
        }
    }
}

/// Dynamic world tiles, created empty and filled by gameplay.
pub struct EntityMap {
    pub tiles: TileGrid,
}

impl EntityMap {
    pub fn new() -> (r: Self)
        ensures
            r.tiles.wf(),
            r.tiles@ == Map::<(i32, i32), Tile>::empty(),
    {
        EntityMap { tiles: TileGrid::new() }
    }
}

/// Static terrain, generated once by weighted random sampling.
pub struct BackgroundMap {
    pub tiles: TileGrid,
}

proof fn lemma_cell_index(x: int, y: int)
    requires
        0 <= x < MAP_EXTENT,
        0 <= y < MAP_EXTENT,
    ensures
        (x * MAP_EXTENT + y) / (MAP_EXTENT as int) == x,
        (x * MAP_EXTENT + y) % (MAP_EXTENT as int) == y,
        0 <= x * MAP_EXTENT + y < MAP_EXTENT * MAP_EXTENT,
{
    lemma_fundamental_div_mod_converse(x * MAP_EXTENT + y, MAP_EXTENT as int, x, y);
    assert(0 <= x * MAP_EXTENT + y < MAP_EXTENT * MAP_EXTENT) by (nonlinear_arith)
        requires
            0 <= x < MAP_EXTENT,
            0 <= y < MAP_EXTENT,
    ;
}

proof fn lemma_index_cell(i: int)
    requires
        0 <= i < MAP_EXTENT * MAP_EXTENT,
    ensures
        0 <= i / (MAP_EXTENT as int) < MAP_EXTENT,
        0 <= i % (MAP_EXTENT as int) < MAP_EXTENT,
        i == (i / (MAP_EXTENT as int)) * MAP_EXTENT + i % (MAP_EXTENT as int),
{
    lemma_fundamental_div_mod(i, MAP_EXTENT as int);
    let q = i / (MAP_EXTENT as int);
    let r = i % (MAP_EXTENT as int);
    assert(0 <= q < MAP_EXTENT) by (nonlinear_arith)
        requires
            i == 128 * q + r,
            0 <= r < 128,
            0 <= i < 128 * 128,
    ;
}

impl BackgroundMap {
    pub fn new() -> (r: Self)
        ensures
            r.tiles.wf(),
            r.tiles@ == Map::<(i32, i32), Tile>::empty(),
    {
        BackgroundMap { tiles: TileGrid::new() }
    }

    /// Repopulates the map with one randomly chosen background tile for every
    /// coordinate of the extent, discarding what it held before.
    pub fn generate(&mut self)
        ensures
            final(self).tiles.wf(),
            final(self).tiles@.dom() == extent(),
            final(self).tiles.len_spec() == MAP_EXTENT * MAP_EXTENT,
            forall|k: (i32, i32)|
                extent().contains(k) ==> is_background_sprite(#[trigger] final(self).tiles@[k]),
            forall|k: (i32, i32)|
                extent().contains(k) ==> exists|roll: int|
                    1 <= roll <= 100 && #[trigger] final(self).tiles@[k] == (Tile {
                        sprite_layer: 0,
                        sprite_id: sprite_of_roll(roll),
                    }),
    {
        let mut rolls: Vec<u32> = Vec::new();
        let mut i: usize = 0;
        while i < EXTENT_CELLS
            invariant
                0 <= i <= EXTENT_CELLS,
                rolls@.len() == i,
                forall|j: int| 0 <= j < i ==> 1 <= #[trigger] rolls@[j] <= 100,
            decreases EXTENT_CELLS - i,
        {
            rolls.push(roll_percent());
            i = i + 1;
        }
        let grid = fill_background(&rolls);
        proof {
            assert forall|k: (i32, i32)| extent().contains(k) implies exists|roll: int|
                1 <= roll <= 100 && #[trigger] grid@[k] == (Tile { sprite_layer: 0, sprite_id: sprite_of_roll(roll) }) by {
                lemma_cell_index(k.0 as int, k.1 as int);
                let roll = rolls@[k.0 * MAP_EXTENT + k.1] as int;
                assert(grid@[k] == (Tile { sprite_layer: 0, sprite_id: sprite_of_roll(roll) }));
            }
        }
        self.tiles = grid;
    }
}

/// Number of coordinates in the background extent.
pub const EXTENT_CELLS: usize = 16384;

/// Builds the background from one roll per coordinate: the roll at index
/// `x * MAP_EXTENT + y` chooses the sprite at `(x, y)`, on layer 0.
pub fn fill_background(rolls: &Vec<u32>) -> (r: TileGrid)
    requires
        rolls@.len() == MAP_EXTENT * MAP_EXTENT,
    ensures
        r.wf(),
        r@.dom() == extent(),
        r.len_spec() == MAP_EXTENT * MAP_EXTENT,
        forall|k: (i32, i32)|
            extent().contains(k) ==> #[trigger] r@[k] == (Tile {
                sprite_layer: 0,
                sprite_id: sprite_of_roll(rolls@[k.0 * MAP_EXTENT + k.1] as int),
            }),
        forall|k: (i32, i32)| extent().contains(k) ==> is_background_sprite(#[trigger] r@[k]),
{
    let mut entries: Vec<((i32, i32), Tile)> = Vec::new();
    let mut x: i32 = 0;
    while x < MAP_EXTENT
        invariant
            rolls@.len() == MAP_EXTENT * MAP_EXTENT,
            0 <= x <= MAP_EXTENT,
            entries@.len() == x * MAP_EXTENT,
            forall|i: int|
                0 <= i < entries@.len() ==> (#[trigger] entries@[i]).0.0 == i / (MAP_EXTENT as int)
                    && entries@[i].0.1 == i % (MAP_EXTENT as int) && entries@[i].1 == (Tile {
                    sprite_layer: 0,
                    sprite_id: sprite_of_roll(rolls@[i] as int),
                }),
        decreases MAP_EXTENT - x,
    {
        let mut y: i32 = 0;
        while y < MAP_EXTENT
            invariant
                rolls@.len() == MAP_EXTENT * MAP_EXTENT,
                0 <= x < MAP_EXTENT,
                0 <= y <= MAP_EXTENT,
                entries@.len() == x * MAP_EXTENT + y,
                forall|i: int|
                    0 <= i < entries@.len() ==> (#[trigger] entries@[i]).0.0 == i / (MAP_EXTENT as int)
                        && entries@[i].0.1 == i % (MAP_EXTENT as int) && entries@[i].1 == (Tile {
                        sprite_layer: 0,
                        sprite_id: sprite_of_roll(rolls@[i] as int),
                    }),
            decreases MAP_EXTENT - y,
        {
            proof {
                lemma_cell_index(x as int, y as int);
            }
            let sprite_id = sprite_for_roll(rolls[entries.len()]);
            entries.push(((x, y), Tile { sprite_layer: 0, sprite_id }));
            y = y + 1;
        }
        x = x + 1;
    }
    let grid = TileGrid { entries };
    proof {
        let n = MAP_EXTENT as int;
        assert forall|i: int, j: int|
            0 <= i < j < grid.entries@.len() implies #[trigger] grid.entries@[i].0
            != #[trigger] grid.entries@[j].0 by {
            lemma_index_cell(i);
            lemma_index_cell(j);
        }
        assert forall|k: (i32, i32)| grid.has_key(k) <==> extent().contains(k) by {
            if grid.has_key(k) {
                lemma_index_cell(grid.index_of(k));
            }
            if extent().contains(k) {
                lemma_cell_index(k.0 as int, k.1 as int);
                let i = k.0 * n + k.1;
                assert(grid.entries@[i].0 == k);
            }
        }
        assert(grid@.dom() =~= extent());
        assert forall|k: (i32, i32)| extent().contains(k) implies #[trigger] grid@[k] == (Tile {
            sprite_layer: 0,
            sprite_id: sprite_of_roll(rolls@[k.0 * MAP_EXTENT + k.1] as int),
        }) && is_background_sprite(grid@[k]) by {
            lemma_cell_index(k.0 as int, k.1 as int);
            let i = k.0 * n + k.1;
            assert(grid.entries@[i].0 == k);
            grid.lemma_index_of(i);
        }
    }
    grid
}

} // verus!
