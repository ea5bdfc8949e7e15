//! The tile variants, when each is ready to harvest, and how each advances
//! by one growth tick.
use vstd::prelude::*;
use crate::coord_map::{Coord, CoordMap};
use crate::tables::{entry_ok, MapStaticData, MAX_TABLE_VALUE};

verus! {

/// What occupies one owned grid cell.
#[derive(Clone, Copy, Debug, PartialEq, Eq, Structural)]
pub enum TileType {
    Grass,
    Tree { tree: usize, grow: usize, stage: usize },
    Farmland { crop: usize, stage: usize },
    AnimalDrop { animal: usize },
    Beehive { stage: usize, price: usize, xp: usize },
    Flower { flower: usize },
}

/// Every crop, tree or flower index a tile holds refers to an existing
/// definition.
pub open spec fn indices_valid(t: TileType, st: &MapStaticData) -> bool {
    match t {
        TileType::Tree { tree, .. } => tree < st.tree_data.len(),
        TileType::Farmland { crop, .. } => crop < st.crops_data.len(),
        TileType::Flower { flower } => flower < st.flower_data.len(),
        _ => true,
    }
}

/// An animal drop refers to one of `n_animals` animal definitions.
pub open spec fn drop_valid(t: TileType, n_animals: nat) -> bool {
    match t {
        TileType::AnimalDrop { animal } => animal < n_animals,
        _ => true,
    }
}

/// Every tile of `m` refers to existing crop, tree and flower definitions.
pub open spec fn tiles_valid(m: Map<Coord, TileType>, st: &MapStaticData) -> bool {
    forall|c: Coord| #[trigger] m.contains_key(c) ==> indices_valid(m[c], st)
}

/// Every animal drop of `m` refers to an existing animal definition.
pub open spec fn drops_valid(m: Map<Coord, TileType>, n_animals: nat) -> bool {
    forall|c: Coord| #[trigger] m.contains_key(c) ==> drop_valid(m[c], n_animals)
}

/// A worker may harvest this tile: a grown crop, a fruiting tree, a hive
/// with honey, or any animal drop.
pub open spec fn is_ready(t: TileType, st: &MapStaticData) -> bool {
    match t {
        TileType::Farmland { crop, stage } => stage >= st.crops_data@[crop as int].time_to_grow,
        TileType::Tree { tree, grow, stage } =>
            grow >= st.tree_data@[tree as int].time_to_grow && stage >= st.tree_data@[tree as int].time_to_fruit,
        TileType::Beehive { stage, .. } => stage >= st.hive().time_to_honey,
        TileType::AnimalDrop { .. } => true,
        _ => false,
    }
}

/// The `k`-th of the eight neighbouring offsets, row by row, skipping the
/// centre.
pub open spec fn neighbour_offset(k: int) -> (int, int) {
    let m = if k < 4 { k } else { k + 1 };
    (m / 3 - 1, m % 3 - 1)
}

/// `c` moved by `(dx, dy)`, if the result is still a coordinate.
pub open spec fn shifted(c: Coord, dx: int, dy: int) -> Option<Coord> {
    let x = c.0 + dx;
    let y = c.1 + dy;
    if i32::MIN <= x <= i32::MAX && i32::MIN <= y <= i32::MAX {
        Some((x as i32, y as i32))
    } else {
        None
    }
}

/// The flower definition at `c` in `m`, if `c` holds a flower.
pub open spec fn flower_at(m: Map<Coord, TileType>, c: Option<Coord>) -> Option<usize> {
    match c {
        Some(p) => if m.contains_key(p) {
            match m[p] {
                TileType::Flower { flower } => Some(flower),
                _ => None,
            }
        } else {
            None
        },
        None => None,
    }
}

/// The sum of the flower prices (`want_exp` false) or experience values
/// (`want_exp` true) over the first `k` neighbours of `pos`.
pub open spec fn flower_sum(st: &MapStaticData, m: Map<Coord, TileType>, pos: Coord, k: int, want_exp: bool) -> nat
    decreases k,
{
    if k <= 0 {
        0
    } else {
        let d = neighbour_offset(k - 1);
        let here: nat = match flower_at(m, shifted(pos, d.0, d.1)) {
            Some(f) => if want_exp {
                st.flower_data@[f as int].exp as nat
            } else {
                st.flower_data@[f as int].sell_price as nat
            },
            None => 0,
        };
        flower_sum(st, m, pos, k - 1, want_exp) + here
    }
}

/// The honey price a hive at `pos` caches when it matures: the base hive
/// price plus, for each neighbouring flower, its price times the hive
/// multiplier.
pub open spec fn hive_price(st: &MapStaticData, m: Map<Coord, TileType>, pos: Coord, mult: nat) -> nat {
    (st.hive().sell_price + mult * flower_sum(st, m, pos, 8, false)) as nat
}

/// The experience a hive at `pos` caches when it matures.
pub open spec fn hive_xp(st: &MapStaticData, m: Map<Coord, TileType>, pos: Coord, mult: nat) -> nat {
    (st.hive().exp + mult * flower_sum(st, m, pos, 8, true)) as nat
}

/// A tile after one growth tick. `m` is the grid as it stood before the
/// tick, `pos` the tile's coordinate and `mult` the hive multiplier.
pub open spec fn tick_tile(t: TileType, st: &MapStaticData, m: Map<Coord, TileType>, pos: Coord, mult: nat) -> TileType {
    match t {
        TileType::Farmland { crop, stage } => if stage < st.crops_data@[crop as int].time_to_grow {
            TileType::Farmland { crop, stage: (stage + 1) as usize }
        } else {
            t
        },
        TileType::Tree { tree, grow, stage } => if grow < st.tree_data@[tree as int].time_to_grow {
            TileType::Tree { tree, grow: (grow + 1) as usize, stage }
        } else if stage < st.tree_data@[tree as int].time_to_fruit {
            TileType::Tree { tree, grow, stage: (stage + 1) as usize }
        } else {
            t
        },
        TileType::Beehive { stage, price, xp } => if stage >= st.hive().time_to_honey {
            t
        } else if stage + 1 >= st.hive().time_to_honey {
            TileType::Beehive {
                stage: (stage + 1) as usize,
                price: hive_price(st, m, pos, mult) as usize,
                xp: hive_xp(st, m, pos, mult) as usize,
            }
        } else {
            TileType::Beehive { stage: (stage + 1) as usize, price, xp }
        },
        _ => t,
    }
}

/// `c` moved by `(dx, dy)`, if the result is still a coordinate.
pub fn shift(c: Coord, dx: i32, dy: i32) -> (r: Option<Coord>)
    ensures
        r == shifted(c, dx as int, dy as int),
{
    let x = c.0 as i64 + dx as i64;
    let y = c.1 as i64 + dy as i64;
    if i32::MIN as i64 <= x && x <= i32::MAX as i64 && i32::MIN as i64 <= y && y <= i32::MAX as i64 {
        Some((x as i32, y as i32))
    } else {
        None
    }
}

/// The flower definition at `c`, if `c` holds a flower.
fn flower_in(tiles: &CoordMap<TileType>, c: Option<Coord>) -> (r: Option<usize>)
    requires
        tiles.wf(),
    ensures
        r == flower_at(tiles@, c),
{
    match c {
        Some(p) => match tiles.get(p) {
            Some(TileType::Flower { flower }) => Some(flower),
            _ => None,
        },
        None => None,
    }
}

proof fn lemma_flower_sum_bound(st: &MapStaticData, m: Map<Coord, TileType>, pos: Coord, k: int, want_exp: bool)
    requires
        st.wf(),
        tiles_valid(m, st),
        0 <= k <= 8,
    ensures
        flower_sum(st, m, pos, k, want_exp) <= k * MAX_TABLE_VALUE,
    decreases k,
{
    if k > 0 {
        lemma_flower_sum_bound(st, m, pos, k - 1, want_exp);
        assert((k - 1) * MAX_TABLE_VALUE + MAX_TABLE_VALUE == k * MAX_TABLE_VALUE) by (nonlinear_arith);
        let d = neighbour_offset(k - 1);
        let c = shifted(pos, d.0, d.1);
        if let Some(f) = flower_at(m, c) {
            let p = c.unwrap();
            assert(m.contains_key(p));
            assert(indices_valid(m[p], st));
            assert(entry_ok(st.flower_data@[f as int].sell_price, st.flower_data@[f as int].exp));
        }
    }
}

/// The flower price and experience sums around `pos`.
fn flower_sums(st: &MapStaticData, tiles: &CoordMap<TileType>, pos: Coord) -> (r: (usize, usize))
    requires
        st.wf(),
        tiles.wf(),
        tiles_valid(tiles@, st),
    ensures
        r.0 == flower_sum(st, tiles@, pos, 8, false),
        r.1 == flower_sum(st, tiles@, pos, 8, true),
        r.0 <= 8 * MAX_TABLE_VALUE,
        r.1 <= 8 * MAX_TABLE_VALUE,
{
    let mut price: usize = 0;
    let mut xp: usize = 0;
    let mut k: usize = 0;
    while k < 8
        invariant
            st.wf(),
            tiles.wf(),
            tiles_valid(tiles@, st),
            k <= 8,
            price == flower_sum(st, tiles@, pos, k as int, false),
            xp == flower_sum(st, tiles@, pos, k as int, true),
        decreases 8 - k,
    {
        proof {
            lemma_flower_sum_bound(st, tiles@, pos, k as int, false);
            lemma_flower_sum_bound(st, tiles@, pos, k as int, true);
            lemma_flower_sum_bound(st, tiles@, pos, k as int + 1, false);
            lemma_flower_sum_bound(st, tiles@, pos, k as int + 1, true);
            crate::tables::lemma_table_value_room();
        }
        let m: usize = if k < 4 { k } else { k + 1 };
        let dx: i32 = (m / 3) as i32 - 1;
        let dy: i32 = (m % 3) as i32 - 1;
        let c = shift(pos, dx, dy);
        match flower_in(tiles, c) {
            Some(f) => {
                proof {
                    let p = c.unwrap();
                    assert(tiles@.contains_key(p));
                    assert(indices_valid(tiles@[p], st));
                    assert((k as int + 1) * MAX_TABLE_VALUE <= 8 * MAX_TABLE_VALUE) by (nonlinear_arith)
                        requires k < 8;
                    assert(flower_sum(st, tiles@, pos, k as int + 1, false) == price + st.flower_data@[f as int].sell_price);
                    assert(flower_sum(st, tiles@, pos, k as int + 1, true) == xp + st.flower_data@[f as int].exp);
                }
                price = price + st.flower_data[f].sell_price;
                xp = xp + st.flower_data[f].exp;
            },
            None => {},
        }
        k = k + 1;
    }
    proof {
        lemma_flower_sum_bound(st, tiles@, pos, 8, false);
        lemma_flower_sum_bound(st, tiles@, pos, 8, true);
    }
    (price, xp)
}

impl TileType {
    pub fn is_ready(&self, st: &MapStaticData) -> (r: bool)
        requires
            indices_valid(*self, st),
            st.wf(),
        ensures
            r == is_ready(*self, st),
    {
        match *self {
            TileType::Farmland { crop, stage } => stage >= st.crops_data[crop].time_to_grow,
            TileType::Tree { tree, grow, stage } =>
                grow >= st.tree_data[tree].time_to_grow && stage >= st.tree_data[tree].time_to_fruit,
            TileType::Beehive { stage, .. } => stage >= st.hive_data[0].time_to_honey,
            TileType::AnimalDrop { .. } => true,
            _ => false,
        }
    }

    /// This tile after one growth tick; `tiles` is the grid before the tick.
    pub fn ticked(&self, st: &MapStaticData, tiles: &CoordMap<TileType>, pos: Coord, mult: usize) -> (r: TileType)
        requires
            st.wf(),
            tiles.wf(),
            indices_valid(*self, st),
            tiles_valid(tiles@, st),
            mult <= 8,
        ensures
            r == tick_tile(*self, st, tiles@, pos, mult as nat),
    {
        match *self {
            TileType::Farmland { crop, stage } => if stage < st.crops_data[crop].time_to_grow {
                TileType::Farmland { crop, stage: stage + 1 }
            } else {
                *self
            },
            TileType::Tree { tree, grow, stage } => if grow < st.tree_data[tree].time_to_grow {
                TileType::Tree { tree, grow: grow + 1, stage }
            } else if stage < st.tree_data[tree].time_to_fruit {
                TileType::Tree { tree, grow, stage: stage + 1 }
            } else {
                *self
            },
            TileType::Beehive { stage, price, xp } => {
                let hive = st.hive_data[0];
                if stage >= hive.time_to_honey {
                    *self
                } else if stage + 1 >= hive.time_to_honey {
                    let (fp, fx) = flower_sums(st, tiles, pos);
                    proof {
                        crate::tables::lemma_table_value_room();
                        assert(mult * fp <= 8 * (8 * MAX_TABLE_VALUE)) by (nonlinear_arith)
                            requires mult <= 8, fp <= 8 * MAX_TABLE_VALUE;
                        assert(mult * fx <= 8 * (8 * MAX_TABLE_VALUE)) by (nonlinear_arith)
                            requires mult <= 8, fx <= 8 * MAX_TABLE_VALUE;
                    }
                    TileType::Beehive {
                        stage: stage + 1,
                        price: hive.sell_price + mult * fp,
                        xp: hive.exp + mult * fx,
                    }
                } else {
                    TileType::Beehive { stage: stage + 1, price, xp }
                }
            },
            _ => *self,
        }
    }
}


/// A farmland tile's stage never falls under growth: it rises by one per
/// tick while below the crop's growing time and is then held, so it never
/// passes the growing time unless it started beyond it.
pub proof fn lemma_farmland_growth_monotone(t: TileType, st: &MapStaticData, m: Map<Coord, TileType>, pos: Coord, mult: nat)
    requires
        t is Farmland,
    ensures
        ({
            let ttg = st.crops_data@[t->Farmland_crop as int].time_to_grow;
            let s = t->Farmland_stage;
            let u = tick_tile(t, st, m, pos, mult);
            &&& u is Farmland
            &&& u->Farmland_crop == t->Farmland_crop
            &&& u->Farmland_stage >= s
            &&& s < ttg ==> u->Farmland_stage == s + 1
            &&& s >= ttg ==> u->Farmland_stage == s
            &&& s <= ttg ==> u->Farmland_stage <= ttg
        }),
{
}

/// With flower `f` at the `k0`-th neighbour and no other flower around
/// `pos`, the first `k` neighbours sum to that flower's value once `k`
/// passes `k0`, and to nothing before.
proof fn lemma_one_flower_sum(st: &MapStaticData, m: Map<Coord, TileType>, pos: Coord, k0: int, f: usize, k: int, want_exp: bool)
    requires
        0 <= k0 < 8,
        0 <= k <= 8,
        ({
            let d = neighbour_offset(k0);
            flower_at(m, shifted(pos, d.0, d.1)) == Some(f)
        }),
        forall|j: int| 0 <= j < 8 && j != k0 ==> {
            let d = #[trigger] neighbour_offset(j);
            flower_at(m, shifted(pos, d.0, d.1)) is None
        },
    ensures
        flower_sum(st, m, pos, k, want_exp) == if k > k0 {
            if want_exp { st.flower_data@[f as int].exp as nat } else { st.flower_data@[f as int].sell_price as nat }
        } else {
            0nat
        },
    decreases k,
{
    if k > 0 {
        lemma_one_flower_sum(st, m, pos, k0, f, k - 1, want_exp);
        let d = neighbour_offset(k - 1);
        if k - 1 != k0 {
            assert(flower_at(m, shifted(pos, d.0, d.1)) is None);
        }
    }
}

/// A hive maturing with exactly one flower among its eight neighbours caches
/// the base hive yield plus that flower's yield times the hive multiplier.
pub proof fn lemma_hive_with_one_flower(st: &MapStaticData, m: Map<Coord, TileType>, pos: Coord, mult: nat, k0: int, f: usize)
    requires
        0 <= k0 < 8,
        ({
            let d = neighbour_offset(k0);
            flower_at(m, shifted(pos, d.0, d.1)) == Some(f)
        }),
        forall|j: int| 0 <= j < 8 && j != k0 ==> {
            let d = #[trigger] neighbour_offset(j);
            flower_at(m, shifted(pos, d.0, d.1)) is None
        },
    ensures
        hive_price(st, m, pos, mult) == st.hive().sell_price + mult * st.flower_data@[f as int].sell_price,
        hive_xp(st, m, pos, mult) == st.hive().exp + mult * st.flower_data@[f as int].exp,
{
    lemma_one_flower_sum(st, m, pos, k0, f, 8, false);
    lemma_one_flower_sum(st, m, pos, k0, f, 8, true);
}

/// A hive maturing with no flower among its eight neighbours caches exactly
/// the base hive yield.
pub proof fn lemma_hive_without_flowers(st: &MapStaticData, m: Map<Coord, TileType>, pos: Coord, mult: nat)
    requires
        forall|j: int| 0 <= j < 8 ==> {
            let d = #[trigger] neighbour_offset(j);
            flower_at(m, shifted(pos, d.0, d.1)) is None
        },
    ensures
        hive_price(st, m, pos, mult) == st.hive().sell_price,
        hive_xp(st, m, pos, mult) == st.hive().exp,
{
    assert forall|k: int, e: bool| 0 <= k <= 8 implies #[trigger] flower_sum(st, m, pos, k, e) == 0 by {
        lemma_no_flower_sum(st, m, pos, k, e);
    }
    assert(flower_sum(st, m, pos, 8, false) == 0);
    assert(flower_sum(st, m, pos, 8, true) == 0);
    assert(mult * 0 == 0) by (nonlinear_arith);
}

proof fn lemma_no_flower_sum(st: &MapStaticData, m: Map<Coord, TileType>, pos: Coord, k: int, want_exp: bool)
    requires
        0 <= k <= 8,
        forall|j: int| 0 <= j < 8 ==> {
            let d = #[trigger] neighbour_offset(j);
            flower_at(m, shifted(pos, d.0, d.1)) is None
        },
    ensures
        flower_sum(st, m, pos, k, want_exp) == 0,
    decreases k,
{
    if k > 0 {
        lemma_no_flower_sum(st, m, pos, k - 1, want_exp);
        let d = neighbour_offset(k - 1);
        assert(flower_at(m, shifted(pos, d.0, d.1)) is None);
    }
}

} // verus!
