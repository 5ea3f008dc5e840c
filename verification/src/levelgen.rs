use crate::grid::{grid_set, grid_wf, Grid};
use crate::rng::{mix_seed, range_result, range_state, SimpleRng};
use crate::tile::Tile;
use vstd::prelude::*;

verus! {

// ---------------------------------------------------------------------------
// Specification of the generated level, phase by phase. `spec_generate`
// composes the phases; the executable generator is proved equal to it, so a
// level is a function of its seed alone.
// ---------------------------------------------------------------------------

/// `a - b`, saturating at zero, as `usize::saturating_sub` behaves.
pub open spec fn sat_sub(a: int, b: int) -> int {
    if a >= b {
        a - b
    } else {
        0
    }
}

/// The grid before any feature is stamped: boundary walls around an empty
/// field.
pub open spec fn boundary_grid() -> Seq<Seq<Tile>> {
    Seq::new(
        20,
        |y: int|
            Seq::new(
                60,
                |x: int|
                    if y == 0 || y == 19 || x == 0 || x == 59 {
                        Tile::Wall
                    } else {
                        Tile::Empty
                    },
            ),
    )
}

/// Row `y` of `g` with the tiles in columns `[a, b)` replaced by `t`.
pub open spec fn fill_row_spec(g: Seq<Seq<Tile>>, y: int, a: int, b: int, t: Tile) -> Seq<
    Seq<Tile>,
> {
    g.update(
        y,
        Seq::new(g[y].len(), |x: int| if a <= x < b { t } else { g[y][x] }),
    )
}

/// The landmark columns recorded while the platforms are laid out. They mark
/// where one tier connects to the next and gate the later trophy, exit and
/// hazard placement.
pub struct Landmarks {
    pub w1: usize,
    pub w1_start: usize,
    pub w2: usize,
    pub w3: usize,
    pub w4: usize,
}

/// The zig-zag archetype: four long platform runs at the fixed tier heights,
/// alternating between left-anchored and right-anchored.
pub open spec fn zigzag_phase(g: Seq<Seq<Tile>>, s: u64) -> (Seq<Seq<Tile>>, u64, Landmarks) {
    let w1 = range_result(s, 35, 55) as usize;
    let s1 = range_state(s, 35, 55);
    let g1 = fill_row_spec(g, 16, 15, w1 as int, Tile::Wall);
    let w2 = range_result(s1, 25, 45) as usize;
    let s2 = range_state(s1, 25, 45);
    let g2 = fill_row_spec(g1, 12, w2 as int, 59, Tile::Wall);
    let w3 = range_result(s2, 35, 55) as usize;
    let s3 = range_state(s2, 35, 55);
    let g3 = fill_row_spec(g2, 8, 1, w3 as int, Tile::Wall);
    let w4 = range_result(s3, 25, 45) as usize;
    let s4 = range_state(s3, 25, 45);
    let g4 = fill_row_spec(g3, 4, w4 as int, 59, Tile::Wall);
    (g4, s4, Landmarks { w1, w1_start: 15, w2, w3, w4 })
}

/// One floating island at tier height `h`: a random start inside the band of
/// island index `i`, a random length, clipped to the grid's right edge.
/// Yields the new grid and state plus the island's start and length.
pub open spec fn island_step(g: Seq<Seq<Tile>>, s: u64, h: int, i: int) -> (
    Seq<Seq<Tile>>,
    u64,
    int,
    int,
) {
    let lo = (5 + i * 15) as u32;
    let hi = (15 + i * 15) as u32;
    let st = range_result(s, lo, hi) as int;
    let s1 = range_state(s, lo, hi);
    let ln = range_result(s1, 5, 12) as int;
    let s2 = range_state(s1, 5, 12);
    let end = if st + ln < 59 {
        st + ln
    } else {
        59
    };
    (fill_row_spec(g, h, st, end, Tile::Wall), s2, st, ln)
}

/// The islands with indices `[i, num)` at tier height `h`.
pub open spec fn islands_rest(g: Seq<Seq<Tile>>, s: u64, h: int, i: int, num: int) -> (
    Seq<Seq<Tile>>,
    u64,
)
    decreases num - i,
{
    if i >= num {
        (g, s)
    } else {
        let (g1, s1, st, ln) = island_step(g, s, h, i);
        islands_rest(g1, s1, h, i + 1, num)
    }
}

/// One whole tier of the floating-islands archetype: two to three islands at
/// height `h`. Yields the first island's start and length, which the caller
/// records as that tier's landmark.
pub open spec fn island_tier(g: Seq<Seq<Tile>>, s: u64, h: int) -> (Seq<Seq<Tile>>, u64, int, int) {
    let num = range_result(s, 2, 4) as int;
    let s1 = range_state(s, 2, 4);
    let (g1, s2, st, ln) = island_step(g, s1, h, 0);
    let (g2, s3) = islands_rest(g1, s2, h, 1, num);
    (g2, s3, st, ln)
}

/// The floating-islands archetype over all four tier heights, with the
/// hardcoded landmark fallbacks (40/20/40/20) kept as a defensive default for
/// a tier that recorded no island.
pub open spec fn islands_phase(g: Seq<Seq<Tile>>, s: u64) -> (Seq<Seq<Tile>>, u64, Landmarks) {
    let (ga, sa, st16, ln16) = island_tier(g, s, 16);
    let (gb, sb, st12, ln12) = island_tier(ga, sa, 12);
    let (gc, sc, st8, ln8) = island_tier(gb, sb, 8);
    let (gd, sd, st4, ln4) = island_tier(gc, sc, 4);
    let w1 = st16 + ln16;
    let w2 = st12;
    let w3 = st8 + ln8;
    let w4 = st4;
    let lm = Landmarks {
        w1: (if w1 == 0 { 40 } else { w1 }) as usize,
        w1_start: st16 as usize,
        w2: (if w2 == 0 { 20 } else { w2 }) as usize,
        w3: (if w3 == 0 { 40 } else { w3 }) as usize,
        w4: (if w4 == 0 { 20 } else { w4 }) as usize,
    };
    (gd, sd, lm)
}

/// The platform phase: the seed's parity picks the archetype.
pub open spec fn platform_phase(g: Seq<Seq<Tile>>, s: u64, level_num: u32) -> (
    Seq<Seq<Tile>>,
    u64,
    Landmarks,
) {
    if level_num % 2 != 0 {
        zigzag_phase(g, s)
    } else {
        islands_phase(g, s)
    }
}

/// The columns of `1..ub` whose tile in `row` is `Wall`, in increasing order:
/// the candidate columns for the trophy's supporting platform.
pub open spec fn wall_cols(row: Seq<Tile>, ub: int) -> Seq<int>
    decreases ub,
{
    if ub <= 1 {
        Seq::empty()
    } else if row[ub - 1] == Tile::Wall {
        wall_cols(row, ub - 1).push(ub - 1)
    } else {
        wall_cols(row, ub - 1)
    }
}

/// The trophy phase: choose uniformly among the wall columns of the topmost
/// tier and place the trophy one row above; with no candidate, fall back to a
/// random column past the `w4` landmark.
pub open spec fn trophy_phase(g: Seq<Seq<Tile>>, s: u64, w4: int) -> (Seq<Seq<Tile>>, u64, int) {
    let cands = wall_cols(g[4], 59);
    if cands.len() > 0 {
        let idx = range_result(s, 0, cands.len() as u32) as int;
        let s1 = range_state(s, 0, cands.len() as u32);
        let tx = cands[idx];
        (grid_set(g, 3, tx, Tile::Trophy), s1, tx)
    } else {
        let lo = (w4 + 2) as u32;
        let tx = range_result(s, lo, 58) as int;
        let s1 = range_state(s, lo, 58);
        (grid_set(g, 3, tx, Tile::Trophy), s1, tx)
    }
}

/// The exit phase: a 50/50 choice between the fixed far-right ground exit and
/// a platform exit near the top tier's landmark. Yields the exit's column and
/// row.
pub open spec fn exit_phase(g: Seq<Seq<Tile>>, s: u64, lm: Landmarks) -> (
    Seq<Seq<Tile>>,
    u64,
    int,
    int,
) {
    let c = range_result(s, 0, 2);
    let s1 = range_state(s, 0, 2);
    if c == 0 {
        (grid_set(g, 18, 55, Tile::Exit), s1, 55, 18)
    } else {
        let e0 = if lm.w1 as int - 2 >= lm.w1_start as int {
            lm.w1 as int - 2
        } else {
            lm.w1_start as int
        };
        let ex = if e0 <= 58 {
            e0
        } else {
            58
        };
        (grid_set(g, 15, ex, Tile::Exit), s1, ex, 15)
    }
}

/// The tier height drawn by index during diamond placement.
pub open spec fn height_at(i: int) -> int {
    if i == 0 {
        16
    } else if i == 1 {
        12
    } else if i == 2 {
        8
    } else {
        4
    }
}

/// One diamond attempt: a random tier and column; the diamond lands one row
/// above the tier only over a wall with empty space above it.
pub open spec fn diamond_step(g: Seq<Seq<Tile>>, s: u64) -> (Seq<Seq<Tile>>, u64) {
    let hi = range_result(s, 0, 4) as int;
    let s1 = range_state(s, 0, 4);
    let h = height_at(hi);
    let dx = range_result(s1, 2, 58) as int;
    let s2 = range_state(s1, 2, 58);
    if g[h][dx] == Tile::Wall && g[h - 1][dx] == Tile::Empty {
        (grid_set(g, h - 1, dx, Tile::Diamond), s2)
    } else {
        (g, s2)
    }
}

/// `n` diamond attempts in sequence.
pub open spec fn diamonds_phase(g: Seq<Seq<Tile>>, s: u64, n: int) -> (Seq<Seq<Tile>>, u64)
    decreases n,
{
    if n <= 0 {
        (g, s)
    } else {
        let (g1, s1) = diamond_step(g, s);
        diamonds_phase(g1, s1, n - 1)
    }
}

/// A floor column that may hold a hazard: inside the floor band and not one
/// of the reserved safe lanes (multiples of ten).
pub open spec fn floor_cell_ok(x: int) -> bool {
    x < 50 && x % 10 != 0
}

/// How many cells a proposed hazard block keeps after truncation at reserved
/// lanes and the band's right edge.
pub open spec fn floor_actual(x: int, size: int) -> int {
    if !floor_cell_ok(x) {
        0
    } else if size == 2 && floor_cell_ok(x + 1) {
        2
    } else {
        1
    }
}

/// How many cells of the `n`-column window starting at `ws` would hold a
/// hazard on row `y` if columns `[x, x+sz)` were committed as hazards.
pub open spec fn window_count(g: Seq<Seq<Tile>>, y: int, x: int, sz: int, ws: int, n: int) -> int
    decreases n,
{
    if n <= 0 {
        0
    } else {
        let c = ws + n - 1;
        window_count(g, y, x, sz, ws, n - 1) + (if c < 60 && ((x <= c < x + sz) || g[y][c]
            == Tile::Hazard) {
            1int
        } else {
            0int
        })
    }
}

/// Whether committing columns `[x, x+sz)` as hazards on row `y` would give
/// some 15-column window more than 4 hazard cells.
pub open spec fn window_violation(g: Seq<Seq<Tile>>, y: int, x: int, sz: int) -> bool {
    exists|ws: int|
        sat_sub(x + sz, 15) <= ws <= x && window_count(g, y, x, sz, ws, 15) > 4
}

/// The floor-hazard pass over columns `[x, 50)` of the bottom row, carrying
/// the end of the last committed block so blocks stay at least four columns
/// apart.
pub open spec fn floor_pass(g: Seq<Seq<Tile>>, s: u64, x: int, last_end: int, chance: u32) -> (
    Seq<Seq<Tile>>,
    u64,
)
    decreases 50 - x,
{
    if x >= 50 {
        (g, s)
    } else if !(x % 10 != 0) || x - last_end < 4 {
        floor_pass(g, s, x + 1, last_end, chance)
    } else {
        let roll = range_result(s, 0, 100);
        let s1 = range_state(s, 0, 100);
        if roll < chance {
            let c = range_result(s1, 0, 2);
            let s2 = range_state(s1, 0, 2);
            let size: int = if c == 0 {
                1
            } else {
                2
            };
            let act = floor_actual(x, size);
            if act > 0 && !window_violation(g, 19, x, act) {
                floor_pass(
                    fill_row_spec(g, 19, x, x + act, Tile::Hazard),
                    s2,
                    x + 1,
                    x + act - 1,
                    chance,
                )
            } else {
                floor_pass(g, s2, x + 1, last_end, chance)
            }
        } else {
            floor_pass(g, s1, x + 1, last_end, chance)
        }
    }
}

/// The landmark set that gates platform-hazard placement: tier connection
/// points, the trophy's column, and the exit's position.
pub struct CriticalZones {
    pub w1_start: usize,
    pub w2: usize,
    pub w3: usize,
    pub w4: usize,
    pub trophy_x: usize,
    pub exit_x: usize,
    pub exit_y: usize,
}

/// Whether `cx` lies within `r` columns of `m` (saturating on the left).
pub open spec fn near(cx: int, m: int, r: int) -> bool {
    sat_sub(m, r) <= cx <= m + r
}

/// A column inside one of the designated jump or landing zones of tier `h`,
/// where hazards must not be placed.
pub open spec fn is_critical(cz: CriticalZones, h: int, cx: int) -> bool {
    let mjoin = if cz.w2 >= cz.w1_start {
        cz.w2 as int
    } else {
        cz.w1_start as int
    };
    ||| (h == 16 && near(cx, mjoin, 2))
    ||| (h == 12 && near(cx, mjoin, 2))
    ||| (h == 12 && near(cx, cz.w3 as int, 2))
    ||| (h == 8 && near(cx, cz.w3 as int, 2))
    ||| (h == 8 && near(cx, cz.w4 as int, 2))
    ||| (h == 4 && near(cx, cz.w4 as int, 2))
    ||| (h == 4 && near(cx, cz.trophy_x as int, 1))
    ||| (h == cz.exit_y + 1 && near(cx, cz.exit_x as int, 1))
}

/// A column of tier `h` that may receive a hazard: well inside the row, not
/// critical, and on a wall run wide enough to have walls on both sides.
pub open spec fn plat_ok(g: Seq<Seq<Tile>>, cz: CriticalZones, h: int, cx: int) -> bool {
    &&& 5 <= cx < 55
    &&& !is_critical(cz, h, cx)
    &&& g[h][cx] == Tile::Wall
    &&& g[h][cx - 1] == Tile::Wall
    &&& g[h][cx + 1] == Tile::Wall
}

/// How many cells a proposed platform-hazard block keeps after truncation at
/// the first ineligible column.
pub open spec fn plat_actual(g: Seq<Seq<Tile>>, cz: CriticalZones, h: int, x: int, size: int) -> int {
    if !plat_ok(g, cz, h, x) {
        0
    } else if size == 2 && plat_ok(g, cz, h, x + 1) {
        2
    } else {
        1
    }
}

/// The platform-hazard pass for tier `h` over columns `[x, 55)`; hazards sit
/// on row `h - 1`, directly on top of the tier's walls.
pub open spec fn plat_pass(
    g: Seq<Seq<Tile>>,
    s: u64,
    cz: CriticalZones,
    h: int,
    x: int,
    last_end: int,
) -> (Seq<Seq<Tile>>, u64)
    decreases 55 - x,
{
    if x >= 55 {
        (g, s)
    } else if !plat_ok(g, cz, h, x) || x - last_end < 4 {
        plat_pass(g, s, cz, h, x + 1, last_end)
    } else {
        let roll = range_result(s, 0, 100);
        let s1 = range_state(s, 0, 100);
        if roll < 15 {
            let c = range_result(s1, 0, 2);
            let s2 = range_state(s1, 0, 2);
            let size: int = if c == 0 {
                1
            } else {
                2
            };
            let act = plat_actual(g, cz, h, x, size);
            if act > 0 && !window_violation(g, h - 1, x, act) {
                plat_pass(
                    fill_row_spec(g, h - 1, x, x + act, Tile::Hazard),
                    s2,
                    cz,
                    h,
                    x + 1,
                    x + act - 1,
                )
            } else {
                plat_pass(g, s2, cz, h, x + 1, last_end)
            }
        } else {
            plat_pass(g, s1, cz, h, x + 1, last_end)
        }
    }
}

/// All four platform-hazard passes, top tier first.
pub open spec fn plat_all(g: Seq<Seq<Tile>>, s: u64, cz: CriticalZones) -> (Seq<Seq<Tile>>, u64) {
    let (g1, s1) = plat_pass(g, s, cz, 16, 5, -10);
    let (g2, s2) = plat_pass(g1, s1, cz, 12, 5, -10);
    let (g3, s3) = plat_pass(g2, s2, cz, 8, 5, -10);
    plat_pass(g3, s3, cz, 4, 5, -10)
}

/// The grid before the archetype phase: boundary walls plus the guaranteed
/// base platform under the start position.
pub open spec fn gen_base() -> Seq<Seq<Tile>> {
    fill_row_spec(boundary_grid(), 18, 1, 10, Tile::Wall)
}

/// The grid, generator state and landmarks after the platform phase.
pub open spec fn gen_platforms(level_num: u32) -> (Seq<Seq<Tile>>, u64, Landmarks) {
    platform_phase(gen_base(), mix_seed(level_num), level_num)
}

/// The grid, generator state and trophy column after the trophy phase.
pub open spec fn gen_trophy(level_num: u32) -> (Seq<Seq<Tile>>, u64, int) {
    let (g1, s1, lm) = gen_platforms(level_num);
    trophy_phase(g1, s1, lm.w4 as int)
}

/// The grid, generator state and exit position after the exit phase.
pub open spec fn gen_exit(level_num: u32) -> (Seq<Seq<Tile>>, u64, int, int) {
    let (g2, s2, tx) = gen_trophy(level_num);
    exit_phase(g2, s2, gen_platforms(level_num).2)
}

/// Where the generated level's trophy sits, as (column, row).
pub open spec fn spec_trophy_pos(level_num: u32) -> (int, int) {
    (gen_trophy(level_num).2, 3)
}

/// Where the generated level's exit sits, as (column, row).
pub open spec fn spec_exit_pos(level_num: u32) -> (int, int) {
    (gen_exit(level_num).2, gen_exit(level_num).3)
}

/// The critical zones of the generated level, which platform hazards avoid.
pub open spec fn gen_zones(level_num: u32) -> CriticalZones {
    let lm = gen_platforms(level_num).2;
    CriticalZones {
        w1_start: lm.w1_start,
        w2: lm.w2,
        w3: lm.w3,
        w4: lm.w4,
        trophy_x: gen_trophy(level_num).2 as usize,
        exit_x: gen_exit(level_num).2 as usize,
        exit_y: gen_exit(level_num).3 as usize,
    }
}

/// The whole generated level as a function of the seed: boundary walls, the
/// guaranteed base platform, the archetype's platforms, trophy, exit,
/// diamonds, and the two hazard passes, drawing from the deterministic
/// generator in this fixed order.
pub open spec fn spec_generate(level_num: u32) -> Seq<Seq<Tile>> {
    let (g3, s3, ex, ey) = gen_exit(level_num);
    let (g4, s4) = diamonds_phase(g3, s3, 8);
    let chance: u32 = if level_num == 1 {
        10
    } else {
        30
    };
    let (g5, s5) = floor_pass(g4, s4, 15, -10, chance);
    plat_all(g5, s5, gen_zones(level_num)).0
}

/// The player's fixed start tile, just above the guaranteed base platform.
pub open spec fn spec_start() -> (int, int) {
    (2, 17)
}

// ---------------------------------------------------------------------------
// Executable generator, proved equal to the specification above.
// ---------------------------------------------------------------------------

/// Stamps `t` over columns `[a, b)` of row `y`.
fn fill_row(g: &mut Grid, y: usize, a: usize, b: usize, t: Tile)
    requires
        grid_wf(old(g)@),
        y < 20,
        b <= 60,
    ensures
        grid_wf(final(g)@),
        final(g)@ == fill_row_spec(old(g)@, y as int, a as int, b as int, t),
{
    let mut x = a;
    while x < b
        invariant
            a <= x,
            x <= b || x == a,
            grid_wf(g@),
            g@.len() == 20,
            forall|r: int| 0 <= r < 20 && r != y ==> g@[r] == old(g)@[r],
            forall|c: int|
                0 <= c < 60 ==> g@[y as int][c] == (if a <= c < x {
                    t
                } else {
                    old(g)@[y as int][c]
                }),
        decreases b - x,
    {
        g.set(y, x, t);
        x += 1;
    }
    proof {
        assert(g@ =~~= fill_row_spec(old(g)@, y as int, a as int, b as int, t));
    }
}

/// The grid `g` with every tile of column `x` replaced by `t`.
pub open spec fn fill_col_spec(g: Seq<Seq<Tile>>, x: int, t: Tile) -> Seq<Seq<Tile>> {
    Seq::new(g.len(), |y: int| g[y].update(x, t))
}

/// Stamps `t` over the whole of column `x`.
fn fill_col(g: &mut Grid, x: usize, t: Tile)
    requires
        grid_wf(old(g)@),
        x < 60,
    ensures
        grid_wf(final(g)@),
        final(g)@ == fill_col_spec(old(g)@, x as int, t),
{
    let mut y: usize = 0;
    while y < 20
        invariant
            y <= 20,
            grid_wf(g@),
            forall|r: int| y <= r < 20 ==> g@[r] == old(g)@[r],
            forall|r: int| 0 <= r < y ==> g@[r] == old(g)@[r].update(x as int, t),
        decreases 20 - y,
    {
        g.set(y, x, t);
        y += 1;
    }
    proof {
        assert(g@ =~~= fill_col_spec(old(g)@, x as int, t));
    }
}

/// Builds the empty field with its boundary walls.
fn make_boundary() -> (g: Grid)
    ensures
        grid_wf(g@),
        g@ == boundary_grid(),
{
    let mut g = Grid::new_empty();
    fill_row(&mut g, 0, 0, 60, Tile::Wall);
    fill_row(&mut g, 19, 0, 60, Tile::Wall);
    fill_col(&mut g, 0, Tile::Wall);
    fill_col(&mut g, 59, Tile::Wall);
    proof {
        assert(g@ =~~= boundary_grid());
    }
    g
}

/// Lays out the zig-zag archetype's four platform runs.
fn zigzag_platforms(g: &mut Grid, rng: &mut SimpleRng) -> (lm: Landmarks)
    requires
        grid_wf(old(g)@),
    ensures
        grid_wf(final(g)@),
        (final(g)@, final(rng)@, lm) == zigzag_phase(old(g)@, old(rng)@),
{
    let w1 = rng.range(35, 55) as usize;
    fill_row(g, 16, 15, w1, Tile::Wall);
    let w2 = rng.range(25, 45) as usize;
    fill_row(g, 12, w2, 59, Tile::Wall);
    let w3 = rng.range(35, 55) as usize;
    fill_row(g, 8, 1, w3, Tile::Wall);
    let w4 = rng.range(25, 45) as usize;
    fill_row(g, 4, w4, 59, Tile::Wall);
    Landmarks { w1, w1_start: 15, w2, w3, w4 }
}

/// Draws and stamps one floating island.
fn island(g: &mut Grid, rng: &mut SimpleRng, h: usize, i: u32) -> (r: (usize, usize))
    requires
        grid_wf(old(g)@),
        h < 20,
        i < 3,
    ensures
        grid_wf(final(g)@),
        (final(g)@, final(rng)@, r.0 as int, r.1 as int) == island_step(
            old(g)@,
            old(rng)@,
            h as int,
            i as int,
        ),
{
    let start = rng.range(5 + i * 15, 15 + i * 15) as usize;
    let len = rng.range(5, 12) as usize;
    let end = if start + len < 59 {
        start + len
    } else {
        59
    };
    fill_row(g, h, start, end, Tile::Wall);
    (start, len)
}

/// Lays out one tier of the floating-islands archetype and reports the first
/// island's start and length.
fn island_tier_exec(g: &mut Grid, rng: &mut SimpleRng, h: usize) -> (r: (usize, usize))
    requires
        grid_wf(old(g)@),
        h < 20,
    ensures
        grid_wf(final(g)@),
        (final(g)@, final(rng)@, r.0 as int, r.1 as int) == island_tier(
            old(g)@,
            old(rng)@,
            h as int,
        ),
{
    let num = rng.range(2, 4);
    let first = island(g, rng, h, 0);
    let ghost ga = g@;
    let ghost sa = rng@;
    let mut i: u32 = 1;
    while i < num
        invariant
            1 <= i <= num || i == 1,
            num <= 3,
            grid_wf(g@),
            islands_rest(g@, rng@, h as int, i as int, num as int) == islands_rest(
                ga,
                sa,
                h as int,
                1,
                num as int,
            ),
            h < 20,
        decreases num - i,
    {
        let _ = island(g, rng, h, i);
        i += 1;
    }
    first
}

/// Lays out the floating-islands archetype over all four tiers.
fn islands_platforms(g: &mut Grid, rng: &mut SimpleRng) -> (lm: Landmarks)
    requires
        grid_wf(old(g)@),
    ensures
        grid_wf(final(g)@),
        (final(g)@, final(rng)@, lm) == islands_phase(old(g)@, old(rng)@),
{
    let first16 = island_tier_exec(g, rng, 16);
    let first12 = island_tier_exec(g, rng, 12);
    let first8 = island_tier_exec(g, rng, 8);
    let first4 = island_tier_exec(g, rng, 4);
    let w1 = first16.0 + first16.1;
    let w1_start = first16.0;
    let w2 = first12.0;
    let w3 = first8.0 + first8.1;
    let w4 = first4.0;
    Landmarks {
        w1: if w1 == 0 {
            40
        } else {
            w1
        },
        w1_start,
        w2: if w2 == 0 {
            20
        } else {
            w2
        },
        w3: if w3 == 0 {
            40
        } else {
            w3
        },
        w4: if w4 == 0 {
            20
        } else {
            w4
        },
    }
}

/// Lays out the archetype picked by the seed's parity.
fn platforms(g: &mut Grid, rng: &mut SimpleRng, level_num: u32) -> (lm: Landmarks)
    requires
        grid_wf(old(g)@),
    ensures
        grid_wf(final(g)@),
        (final(g)@, final(rng)@, lm) == platform_phase(old(g)@, old(rng)@, level_num),
{
    if level_num % 2 != 0 {
        zigzag_platforms(g, rng)
    } else {
        islands_platforms(g, rng)
    }
}

/// The trophy candidates are exactly the wall columns strictly inside the
/// row: each lies in `[1, ub)` and carries a wall, and there are fewer of
/// them than `ub`.
pub proof fn lemma_wall_cols_props(row: Seq<Tile>, ub: int)
    requires
        1 <= ub,
    ensures
        wall_cols(row, ub).len() < ub,
        forall|i: int|
            0 <= i < wall_cols(row, ub).len() ==> {
                &&& 1 <= #[trigger] wall_cols(row, ub)[i] < ub
                &&& row[wall_cols(row, ub)[i]] == Tile::Wall
            },
    decreases ub,
{
    if ub > 1 {
        lemma_wall_cols_props(row, ub - 1);
    }
}

/// Chooses the trophy's column and stamps the trophy one row above it.
fn place_trophy(g: &mut Grid, rng: &mut SimpleRng, w4: usize) -> (tx: usize)
    requires
        grid_wf(old(g)@),
        w4 < 45,
    ensures
        grid_wf(final(g)@),
        tx < 60,
        (final(g)@, final(rng)@, tx as int) == trophy_phase(old(g)@, old(rng)@, w4 as int),
{
    let mut cands: Vec<usize> = Vec::new();
    let mut x: usize = 1;
    while x < 59
        invariant
            1 <= x <= 59,
            grid_wf(g@),
            g@ == old(g)@,
            rng@ == old(rng)@,
            cands@.map_values(|v: usize| v as int) == wall_cols(g@[4], x as int),
            forall|i: int| 0 <= i < cands@.len() ==> 1 <= #[trigger] cands@[i] < 59,
        decreases 59 - x,
    {
        let ghost prev = cands@;
        if g.get(4, x) == Tile::Wall {
            cands.push(x);
        }
        proof {
            assert(cands@.map_values(|v: usize| v as int) =~= wall_cols(g@[4], x + 1));
        }
        x += 1;
    }
    let tx: usize;
    if cands.len() > 0 {
        proof {
            lemma_wall_cols_props(g@[4], 59);
        }
        let idx = rng.range(0, cands.len() as u32) as usize;
        tx = cands[idx];
    } else {
        tx = rng.range(w4 as u32 + 2, 58) as usize;
    }
    g.set(3, tx, Tile::Trophy);
    tx
}

/// Chooses and stamps the exit; yields its column and row.
fn place_exit(g: &mut Grid, rng: &mut SimpleRng, lm: &Landmarks) -> (r: (usize, usize))
    requires
        grid_wf(old(g)@),
        10 <= lm.w1 < 55,
        5 <= lm.w1_start <= 15,
    ensures
        grid_wf(final(g)@),
        r.0 < 60,
        r.1 < 19,
        (final(g)@, final(rng)@, r.0 as int, r.1 as int) == exit_phase(old(g)@, old(rng)@, *lm),
{
    let c = rng.range(0, 2);
    if c == 0 {
        g.set(18, 55, Tile::Exit);
        (55, 18)
    } else {
        let e0 = if lm.w1 - 2 >= lm.w1_start {
            lm.w1 - 2
        } else {
            lm.w1_start
        };
        let ex = if e0 <= 58 {
            e0
        } else {
            58
        };
        g.set(15, ex, Tile::Exit);
        (ex, 15)
    }
}

/// Makes the eight diamond-placement attempts.
fn place_diamonds(g: &mut Grid, rng: &mut SimpleRng)
    requires
        grid_wf(old(g)@),
    ensures
        grid_wf(final(g)@),
        (final(g)@, final(rng)@) == diamonds_phase(old(g)@, old(rng)@, 8),
{
    let mut k: usize = 0;
    while k < 8
        invariant
            k <= 8,
            grid_wf(g@),
            diamonds_phase(g@, rng@, 8 - k as int) == diamonds_phase(old(g)@, old(rng)@, 8),
        decreases 8 - k,
    {
        let ghost gp = g@;
        let ghost sp = rng@;
        let hi = rng.range(0, 4);
        let h: usize = if hi == 0 {
            16
        } else if hi == 1 {
            12
        } else if hi == 2 {
            8
        } else {
            4
        };
        let dx = rng.range(2, 58) as usize;
        if g.get(h, dx) == Tile::Wall && g.get(h - 1, dx) == Tile::Empty {
            g.set(h - 1, dx, Tile::Diamond);
        }
        proof {
            assert((g@, rng@) == diamond_step(gp, sp));
        }
        k += 1;
    }
}

/// Bounds on the landmark columns, whatever the seed: they keep the later
/// phases' arithmetic inside the grid.
pub proof fn lemma_landmark_bounds(g: Seq<Seq<Tile>>, s: u64, level_num: u32)
    ensures
        ({
            let (g1, s1, lm) = platform_phase(g, s, level_num);
            &&& 10 <= lm.w1 < 55
            &&& 5 <= lm.w1_start <= 15
            &&& 5 <= lm.w2 < 45
            &&& 10 <= lm.w3 < 55
            &&& 5 <= lm.w4 < 45
        }),
{
}

/// Decides whether committing `[x, x+sz)` as hazards on row `y` would break
/// the window-density rule.
fn window_check(g: &Grid, y: usize, x: usize, sz: usize) -> (r: bool)
    requires
        grid_wf(g@),
        y < 20,
        1 <= sz <= 2,
        x <= 54,
    ensures
        r == window_violation(g@, y as int, x as int, sz as int),
{
    let lo = if x + sz >= 15 {
        x + sz - 15
    } else {
        0
    };
    let mut ws = lo;
    while ws <= x
        invariant
            lo <= ws <= x + 1,
            forall|w: int|
                lo <= w < ws ==> window_count(g@, y as int, x as int, sz as int, w, 15) <= 4,
        decreases x + 1 - ws,
    {
        let mut cnt: usize = 0;
        let mut i: usize = 0;
        while i < 15
            invariant
                i <= 15,
                cnt <= i,
                cnt as int == window_count(g@, y as int, x as int, sz as int, ws as int, i as int),
        decreases 15 - i,
        {
            let cx = ws + i;
            if cx < 60 && ((cx >= x && cx < x + sz) || g.get(y, cx) == Tile::Hazard) {
                cnt += 1;
            }
            i += 1;
        }
        if cnt > 4 {
            return true;
        }
        ws += 1;
    }
    false
}

/// Runs the floor-hazard pass over the bottom row.
fn floor_hazards(g: &mut Grid, rng: &mut SimpleRng, chance: u32)
    requires
        grid_wf(old(g)@),
    ensures
        grid_wf(final(g)@),
        (final(g)@, final(rng)@) == floor_pass(old(g)@, old(rng)@, 15, -10, chance),
{
    let mut last_end: i32 = -10;
    let mut x: usize = 15;
    while x < 50
        invariant
            15 <= x <= 50,
            grid_wf(g@),
            -10 <= last_end <= 50,
            floor_pass(g@, rng@, x as int, last_end as int, chance) == floor_pass(
                old(g)@,
                old(rng)@,
                15,
                -10,
                chance,
            ),
        decreases 50 - x,
    {
        let ghost gp = g@;
        let ghost sp = rng@;
        let ghost lep = last_end;
        if x % 10 != 0 && (x as i32) - last_end >= 4 {
            let roll = rng.range(0, 100);
            if roll < chance {
                let c = rng.range(0, 2);
                let size: usize = if c == 0 {
                    1
                } else {
                    2
                };
                let mut act: usize = 0;
                if x < 50 && x % 10 != 0 {
                    act = 1;
                    if size == 2 && x + 1 < 50 && (x + 1) % 10 != 0 {
                        act = 2;
                    }
                }
                proof {
                    assert(act as int == floor_actual(x as int, size as int));
                }
                if act > 0 {
                    if !window_check(g, 19, x, act) {
                        fill_row(g, 19, x, x + act, Tile::Hazard);
                        last_end = (x + act) as i32 - 1;
                    }
                }
            }
        }
        x += 1;
        proof {
            assert(floor_pass(gp, sp, x - 1, lep as int, chance) == floor_pass(
                g@,
                rng@,
                x as int,
                last_end as int,
                chance,
            ));
        }
    }
}

/// Decides whether `cx` lies inside one of tier `h`'s critical zones.
fn is_critical_exec(cz: &CriticalZones, h: usize, cx: usize) -> (b: bool)
    requires
        cz.w1_start <= 100,
        cz.w2 <= 100,
        cz.w3 <= 100,
        cz.w4 <= 100,
        cz.trophy_x <= 100,
        cz.exit_x <= 100,
        cz.exit_y <= 100,
    ensures
        b == is_critical(*cz, h as int, cx as int),
{
    let mjoin = if cz.w2 >= cz.w1_start {
        cz.w2
    } else {
        cz.w1_start
    };
    let mlo = if mjoin >= 2 {
        mjoin - 2
    } else {
        0
    };
    let w3lo = if cz.w3 >= 2 {
        cz.w3 - 2
    } else {
        0
    };
    let w4lo = if cz.w4 >= 2 {
        cz.w4 - 2
    } else {
        0
    };
    let tlo = if cz.trophy_x >= 1 {
        cz.trophy_x - 1
    } else {
        0
    };
    let elo = if cz.exit_x >= 1 {
        cz.exit_x - 1
    } else {
        0
    };
    (h == 16 && mlo <= cx && cx <= mjoin + 2) || (h == 12 && mlo <= cx && cx <= mjoin + 2) || (h
        == 12 && w3lo <= cx && cx <= cz.w3 + 2) || (h == 8 && w3lo <= cx && cx <= cz.w3 + 2) || (h
        == 8 && w4lo <= cx && cx <= cz.w4 + 2) || (h == 4 && w4lo <= cx && cx <= cz.w4 + 2) || (h
        == 4 && tlo <= cx && cx <= cz.trophy_x + 1) || (h == cz.exit_y + 1 && elo <= cx && cx
        <= cz.exit_x + 1)
}

/// Decides whether column `cx` of tier `h` may receive a hazard.
fn plat_ok_exec(g: &Grid, cz: &CriticalZones, h: usize, cx: usize) -> (b: bool)
    requires
        grid_wf(g@),
        1 <= h < 19,
        cz.w1_start <= 100,
        cz.w2 <= 100,
        cz.w3 <= 100,
        cz.w4 <= 100,
        cz.trophy_x <= 100,
        cz.exit_x <= 100,
        cz.exit_y <= 100,
    ensures
        b == plat_ok(g@, *cz, h as int, cx as int),
{
    if cx < 5 || cx >= 55 {
        return false;
    }
    if is_critical_exec(cz, h, cx) {
        return false;
    }
    g.get(h, cx) == Tile::Wall && g.get(h, cx - 1) == Tile::Wall && g.get(h, cx + 1) == Tile::Wall
}

/// Runs the platform-hazard pass for one tier.
fn platform_row_hazards(g: &mut Grid, rng: &mut SimpleRng, cz: &CriticalZones, h: usize)
    requires
        grid_wf(old(g)@),
        1 <= h < 19,
        cz.w1_start <= 100,
        cz.w2 <= 100,
        cz.w3 <= 100,
        cz.w4 <= 100,
        cz.trophy_x <= 100,
        cz.exit_x <= 100,
        cz.exit_y <= 100,
    ensures
        grid_wf(final(g)@),
        (final(g)@, final(rng)@) == plat_pass(old(g)@, old(rng)@, *cz, h as int, 5, -10),
{
    let mut last_end: i32 = -10;
    let mut x: usize = 5;
    while x < 55
        invariant
            5 <= x <= 55,
            grid_wf(g@),
            -10 <= last_end <= 55,
            plat_pass(g@, rng@, *cz, h as int, x as int, last_end as int) == plat_pass(
                old(g)@,
                old(rng)@,
                *cz,
                h as int,
                5,
                -10,
            ),
        decreases 55 - x,
    {
        let ghost gp = g@;
        let ghost sp = rng@;
        let ghost lep = last_end;
        let ok = plat_ok_exec(g, cz, h, x);
        if ok && (x as i32) - last_end >= 4 {
            let roll = rng.range(0, 100);
            if roll < 15 {
                let c = rng.range(0, 2);
                let size: usize = if c == 0 {
                    1
                } else {
                    2
                };
                let mut act: usize = 0;
                if plat_ok_exec(g, cz, h, x) {
                    act = 1;
                    if size == 2 && plat_ok_exec(g, cz, h, x + 1) {
                        act = 2;
                    }
                }
                proof {
                    assert(act as int == plat_actual(g@, *cz, h as int, x as int, size as int));
                }
                if act > 0 {
                    if !window_check(g, h - 1, x, act) {
                        fill_row(g, h - 1, x, x + act, Tile::Hazard);
                        last_end = (x + act) as i32 - 1;
                    }
                }
            }
        }
        x += 1;
        proof {
            assert(plat_pass(gp, sp, *cz, h as int, x - 1, lep as int) == plat_pass(
                g@,
                rng@,
                *cz,
                h as int,
                x as int,
                last_end as int,
            ));
        }
    }
}

/// Runs the platform-hazard pass for every tier, top tier first.
fn platform_hazards(g: &mut Grid, rng: &mut SimpleRng, cz: &CriticalZones)
    requires
        grid_wf(old(g)@),
        cz.w1_start <= 100,
        cz.w2 <= 100,
        cz.w3 <= 100,
        cz.w4 <= 100,
        cz.trophy_x <= 100,
        cz.exit_x <= 100,
        cz.exit_y <= 100,
    ensures
        grid_wf(final(g)@),
        (final(g)@, final(rng)@) == plat_all(old(g)@, old(rng)@, *cz),
{
    platform_row_hazards(g, rng, cz, 16);
    platform_row_hazards(g, rng, cz, 12);
    platform_row_hazards(g, rng, cz, 8);
    platform_row_hazards(g, rng, cz, 4);
}

/// Generates a level grid and the player's start tile from the level number.
///
/// The grid is a function of the seed alone: the result's view equals
/// `spec_generate(level_num)`, so two calls with the same seed yield
/// identical levels. The start tile is the fixed spot above the guaranteed
/// base platform.
pub fn generate_level(level_num: u32) -> (r: (Grid, (usize, usize)))
    ensures
        grid_wf(r.0@),
        r.0@ == spec_generate(level_num),
        r.1.0 == 2 && r.1.1 == 17,
{
    let mut g = make_boundary();
    let mut rng = SimpleRng::new(level_num);
    fill_row(&mut g, 18, 1, 10, Tile::Wall);
    let lm = platforms(&mut g, &mut rng, level_num);
    proof {
        lemma_landmark_bounds(
            fill_row_spec(boundary_grid(), 18, 1, 10, Tile::Wall),
            mix_seed(level_num),
            level_num,
        );
    }
    let tx = place_trophy(&mut g, &mut rng, lm.w4);
    let e = place_exit(&mut g, &mut rng, &lm);
    place_diamonds(&mut g, &mut rng);
    let chance: u32 = if level_num == 1 {
        10
    } else {
        30
    };
    floor_hazards(&mut g, &mut rng, chance);
    let cz = CriticalZones {
        w1_start: lm.w1_start,
        w2: lm.w2,
        w3: lm.w3,
        w4: lm.w4,
        trophy_x: tx,
        exit_x: e.0,
        exit_y: e.1,
    };
    platform_hazards(&mut g, &mut rng, &cz);
    (g, (2, 17))
}

} // verus!
