//! Payouts of harvests: a table's base value, doubled per purchased upgrade
//! tier, and doubled again when the climate at the harvest spot matches the
//! crop's or tree's preferred climate. The climate comes from a deterministic
//! coherent noise over the grid.
use vstd::prelude::*;
use crate::coord_map::Coord;
use crate::tables::{entry_ok, AnimalStatic, Climate, MapStaticData, MAX_TABLE_VALUE};
use crate::upgrades::{animal_tier, crop_tier, tiers_fit, tiers_multiplier, tree_tier, UpgradeHandler};

verus! {

/// Samples above this are warm, samples below its negation cold.
pub const CLIMATE_BAND: i32 = 300;

/// The spacing of the noise lattice, in tiles.
pub const NOISE_CELL: u64 = 16;

/// Lattice values lie in `0..=NOISE_SPAN`; samples in
/// `-NOISE_SPAN / 2..=NOISE_SPAN / 2`.
pub const NOISE_SPAN: u64 = 2000;

/// Moves a coordinate into the non-negative range.
pub const NOISE_SHIFT: i64 = 2147483648;

/// The pseudo-random lattice value at lattice point `(i, j)`.
pub open spec fn lattice_value(i: int, j: int) -> int {
    (i * 73856093 + j * 19349663) % (NOISE_SPAN as int + 1)
}

/// The bilinear blend of the corner values `a` (at the origin), `b` (one
/// cell along x), `d` (along y) and `e` (along both), at offset `(fx, fy)`
/// within the cell.
pub open spec fn blend(a: int, b: int, d: int, e: int, fx: int, fy: int) -> int {
    let n = NOISE_CELL as int;
    (a * (n - fx) * (n - fy) + b * fx * (n - fy) + d * (n - fx) * fy + e * fx * fy) / (n * n)
}

/// The climate sample at `c`: the lattice values around `c`, blended
/// bilinearly by the position of `c` within its lattice cell, recentred on 0.
pub open spec fn noise_at(c: Coord) -> int {
    let u = c.0 + NOISE_SHIFT;
    let v = c.1 + NOISE_SHIFT;
    let n = NOISE_CELL as int;
    blend(
        lattice_value(u / n, v / n),
        lattice_value(u / n + 1, v / n),
        lattice_value(u / n, v / n + 1),
        lattice_value(u / n + 1, v / n + 1),
        u % n,
        v % n,
    ) - NOISE_SPAN as int / 2
}

/// The climate band of a sample.
pub open spec fn climate_of(sample: i32) -> Climate {
    if sample < -CLIMATE_BAND {
        Climate::Cold
    } else if sample > CLIMATE_BAND {
        Climate::Warm
    } else {
        Climate::Temperate
    }
}

fn lattice(i: u64, j: u64) -> (r: u64)
    requires
        i <= 0x2000_0000,
        j <= 0x2000_0000,
    ensures
        r == lattice_value(i as int, j as int),
        r <= NOISE_SPAN,
{
    (i * 73856093 + j * 19349663) % (NOISE_SPAN + 1)
}

fn blend_values(a: u64, b: u64, d: u64, e: u64, fx: u64, fy: u64) -> (r: u64)
    requires
        a <= NOISE_SPAN,
        b <= NOISE_SPAN,
        d <= NOISE_SPAN,
        e <= NOISE_SPAN,
        fx < NOISE_CELL,
        fy < NOISE_CELL,
    ensures
        r == blend(a as int, b as int, d as int, e as int, fx as int, fy as int),
        r <= NOISE_SPAN,
{
    let gx = NOISE_CELL - fx;
    let gy = NOISE_CELL - fy;
    proof {
        assert(a * gx <= 2000 * 16) by (nonlinear_arith)
            requires a <= 2000, gx <= 16;
        assert(b * fx <= 2000 * 16) by (nonlinear_arith)
            requires b <= 2000, fx <= 16;
        assert(d * gx <= 2000 * 16) by (nonlinear_arith)
            requires d <= 2000, gx <= 16;
        assert(e * fx <= 2000 * 16) by (nonlinear_arith)
            requires e <= 2000, fx <= 16;
        assert(a * gx * gy <= 2000 * 16 * 16) by (nonlinear_arith)
            requires a <= 2000, gx <= 16, gy <= 16;
        assert(b * fx * gy <= 2000 * 16 * 16) by (nonlinear_arith)
            requires b <= 2000, fx <= 16, gy <= 16;
        assert(d * gx * fy <= 2000 * 16 * 16) by (nonlinear_arith)
            requires d <= 2000, gx <= 16, fy <= 16;
        assert(e * fx * fy <= 2000 * 16 * 16) by (nonlinear_arith)
            requires e <= 2000, fx <= 16, fy <= 16;
        assert(a * gx * gy + b * fx * gy + d * gx * fy + e * fx * fy <= 2000 * 256) by (nonlinear_arith)
            requires a <= 2000, b <= 2000, d <= 2000, e <= 2000, gx + fx == 16, gy + fy == 16,
                gx >= 0, fx >= 0, gy >= 0, fy >= 0;
    }
    let p1 = a * gx * gy;
    let p2 = b * fx * gy;
    let p3 = d * gx * fy;
    let p4 = e * fx * fy;
    let total = p1 + p2 + p3 + p4;
    assert(total / 256 <= 2000) by (nonlinear_arith)
        requires total <= 2000 * 256;
    total / (NOISE_CELL * NOISE_CELL)
}

/// The climate sample at `c`, between -1000 and 1000.
pub fn climate_sample(c: Coord) -> (r: i32)
    ensures
        r == noise_at(c),
        -1000 <= r <= 1000,
{
    let u = (c.0 as i64 + NOISE_SHIFT) as u64;
    let v = (c.1 as i64 + NOISE_SHIFT) as u64;
    let i = u / NOISE_CELL;
    let j = v / NOISE_CELL;
    let fx = u % NOISE_CELL;
    let fy = v % NOISE_CELL;
    let blended = blend_values(lattice(i, j), lattice(i + 1, j), lattice(i, j + 1), lattice(i + 1, j + 1), fx, fy);
    (blended as i64 - (NOISE_SPAN / 2) as i64) as i32
}

pub fn climate_band(sample: i32) -> (r: Climate)
    ensures
        r == climate_of(sample),
{
    if sample < -CLIMATE_BAND {
        Climate::Cold
    } else if sample > CLIMATE_BAND {
        Climate::Warm
    } else {
        Climate::Temperate
    }
}

/// What a payout is for.
#[derive(Clone, Copy, Debug, PartialEq, Eq, Structural)]
pub enum YieldSource {
    Crop { crop: usize },
    Tree { tree: usize },
    Animal { animal: usize },
}

/// The climate factor: 2 where the preferred climate matches the sample's band.
pub open spec fn climate_factor(preferred: Climate, sample: i32) -> nat {
    if climate_of(sample) == preferred { 2 } else { 1 }
}

/// The tables and tier numbering admit `source`.
pub open spec fn source_valid(source: YieldSource, st: &MapStaticData, an: &AnimalStatic) -> bool {
    &&& tiers_fit(st.crops_data.len() as int, st.tree_data.len() as int, an.animal_data.len() as int)
    &&& match source {
        YieldSource::Crop { crop } => crop < st.crops_data.len(),
        YieldSource::Tree { tree } => tree < st.tree_data.len(),
        YieldSource::Animal { animal } => animal < an.animal_data.len(),
    }
}

/// The `(money, experience)` payout of a harvest of `source` with upgrade
/// ledger `ledger` at a spot whose climate sample is `sample`.
pub open spec fn yield_of(
    source: YieldSource,
    st: &MapStaticData,
    an: &AnimalStatic,
    ledger: Seq<usize>,
    sample: i32,
) -> (nat, nat) {
    match source {
        YieldSource::Crop { crop } => {
            let d = st.crops_data@[crop as int];
            let m = tiers_multiplier(ledger, crop_tier(crop as int)) * climate_factor(d.climate, sample);
            ((d.sell_price * m) as nat, (d.exp * m) as nat)
        },
        YieldSource::Tree { tree } => {
            let d = st.tree_data@[tree as int];
            let m = tiers_multiplier(ledger, tree_tier(tree as int, st.crops_data.len() as int))
                * climate_factor(d.climate, sample);
            ((d.sell_price * m) as nat, (d.exp * m) as nat)
        },
        YieldSource::Animal { animal } => {
            let d = an.animal_data@[animal as int];
            let m = tiers_multiplier(
                ledger,
                animal_tier(animal as int, st.crops_data.len() as int, st.tree_data.len() as int),
            );
            ((d.drop_cost * m) as nat, (d.exp * m) as nat)
        },
    }
}

fn scaled(price: usize, exp: usize, m: usize) -> (r: (usize, usize))
    requires
        entry_ok(price, exp),
        m <= 16,
    ensures
        r.0 == price * m,
        r.1 == exp * m,
{
    proof {
        assert(price * m <= MAX_TABLE_VALUE * 16) by (nonlinear_arith)
            requires price <= MAX_TABLE_VALUE, m <= 16;
        assert(exp * m <= MAX_TABLE_VALUE * 16) by (nonlinear_arith)
            requires exp <= MAX_TABLE_VALUE, m <= 16;
    }
    (price * m, exp * m)
}

/// The `(money, experience)` payout of a harvest of `source`.
pub fn compute_yield(
    source: YieldSource,
    st: &MapStaticData,
    an: &AnimalStatic,
    upgrades: &UpgradeHandler,
    climate_sample: i32,
) -> (r: (usize, usize))
    requires
        st.wf(),
        an.wf(),
        source_valid(source, st, an),
    ensures
        (r.0 as nat, r.1 as nat) == yield_of(source, st, an, upgrades.ledger(), climate_sample),
{
    match source {
        YieldSource::Crop { crop } => {
            let d = st.crops_data[crop];
            let m = upgrades.get_multiplier_for_crop(crop);
            let c: usize = if climate_band(climate_sample) == d.climate { 2 } else { 1 };
            assert(entry_ok(st.crops_data@[crop as int].sell_price, st.crops_data@[crop as int].exp));
            scaled(d.sell_price, d.exp, m * c)
        },
        YieldSource::Tree { tree } => {
            let d = st.tree_data[tree];
            let m = upgrades.get_multiplier_for_tree(tree, st.crops_data.len());
            let c: usize = if climate_band(climate_sample) == d.climate { 2 } else { 1 };
            assert(entry_ok(st.tree_data@[tree as int].sell_price, st.tree_data@[tree as int].exp));
            scaled(d.sell_price, d.exp, m * c)
        },
        YieldSource::Animal { animal } => {
            let d = an.animal_data[animal];
            let m = upgrades.get_multiplier_for_animal(animal, st.crops_data.len(), st.tree_data.len());
            assert(entry_ok(an.animal_data@[animal as int].drop_cost, an.animal_data@[animal as int].exp));
            scaled(d.drop_cost, d.exp, m)
        },
    }
}

} // verus!
