//! Properties that hold of every generated level, whatever the seed:
//! the boundary invariant, the support invariant for trophy and exit, the
//! safety of the start tile, and the hazard-spacing rules. Determinism
//! itself is the generator's postcondition: its result equals
//! `spec_generate` of the seed.
use crate::grid::{grid_set, grid_wf};
use crate::levelgen::{
    boundary_grid, diamond_step, diamonds_phase, exit_phase, fill_row_spec, floor_actual,
    floor_pass, gen_base, gen_exit, gen_platforms, gen_trophy, gen_zones, height_at, island_step,
    island_tier, islands_phase, islands_rest, is_critical, lemma_landmark_bounds, lemma_wall_cols_props,
    plat_actual, plat_ok, plat_pass, platform_phase, spec_generate, spec_start, spec_trophy_pos,
    spec_exit_pos, trophy_phase, wall_cols, window_violation, zigzag_phase, CriticalZones, Landmarks,
};
use crate::rng::{mix_seed, range_result, range_state};
use crate::tile::Tile;
use vstd::prelude::*;

verus! {

/// The boundary invariant: the top row and both side columns are solid wall,
/// and the bottom row holds nothing but wall and hazards.
pub open spec fn boundary_ok(g: Seq<Seq<Tile>>) -> bool {
    &&& forall|x: int| 0 <= x < 60 ==> (#[trigger] g[0][x]) == Tile::Wall
    &&& forall|x: int|
        0 <= x < 60 ==> (#[trigger] g[19][x]) == Tile::Wall || g[19][x] == Tile::Hazard
    &&& forall|y: int| 0 <= y < 20 ==> (#[trigger] g[y][0]) == Tile::Wall
    &&& forall|y: int| 0 <= y < 20 ==> (#[trigger] g[y][59]) == Tile::Wall
}

/// What one row fill changes and what it leaves alone, cell by cell.
proof fn lemma_fill_cells(g: Seq<Seq<Tile>>, y: int, a: int, b: int, t: Tile)
    requires
        grid_wf(g),
        0 <= y < 20,
    ensures
        grid_wf(fill_row_spec(g, y, a, b, t)),
        forall|r: int|
            0 <= r < 20 && r != y ==> (#[trigger] fill_row_spec(g, y, a, b, t)[r]) == g[r],
        forall|c: int|
            0 <= c < 60 && !(a <= c < b) ==> (#[trigger] fill_row_spec(g, y, a, b, t)[y][c])
                == g[y][c],
        forall|c: int|
            0 <= c < 60 && a <= c < b ==> (#[trigger] fill_row_spec(g, y, a, b, t)[y][c]) == t,
{
}

/// What one cell write changes and what it leaves alone.
proof fn lemma_set_cells(g: Seq<Seq<Tile>>, y: int, x: int, t: Tile)
    requires
        grid_wf(g),
        0 <= y < 20,
        0 <= x < 60,
    ensures
        grid_wf(grid_set(g, y, x, t)),
        forall|r: int| 0 <= r < 20 && r != y ==> (#[trigger] grid_set(g, y, x, t)[r]) == g[r],
        forall|c: int|
            0 <= c < 60 && c != x ==> (#[trigger] grid_set(g, y, x, t)[y][c]) == g[y][c],
        grid_set(g, y, x, t)[y][x] == t,
{
}

/// A wall anywhere strictly inside the row means the trophy candidate list
/// is not empty.
proof fn lemma_wall_cols_contains(row: Seq<Tile>, c: int, ub: int)
    requires
        1 <= c < ub,
        row[c] == Tile::Wall,
    ensures
        wall_cols(row, ub).len() > 0,
    decreases ub,
{
    if c < ub - 1 {
        lemma_wall_cols_contains(row, c, ub - 1);
    }
}

/// The islands with indices `[i, num)` touch only row `h`, only columns
/// `5..59`, and never remove a wall.
proof fn lemma_islands_rest_frame(g: Seq<Seq<Tile>>, s: u64, h: int, i: int, num: int)
    requires
        grid_wf(g),
        0 <= h < 20,
        0 <= i,
        num <= 3,
    ensures
        ({
            let (g1, s1) = islands_rest(g, s, h, i, num);
            &&& grid_wf(g1)
            &&& forall|r: int| 0 <= r < 20 && r != h ==> (#[trigger] g1[r]) == g[r]
            &&& forall|c: int| 0 <= c < 60 && (c < 5 || c == 59) ==> (#[trigger] g1[h][c]) == g[h][c]
            &&& forall|c: int|
                0 <= c < 60 && g[h][c] == Tile::Wall ==> (#[trigger] g1[h][c]) == Tile::Wall
        }),
    decreases num - i,
{
    if i >= num {
    } else {
        let (gm, sm, st, ln) = island_step(g, s, h, i);
        let end = if st + ln < 59 {
            st + ln
        } else {
            59
        };
        assert(gm == fill_row_spec(g, h, st, end, Tile::Wall));
        lemma_fill_cells(g, h, st, end, Tile::Wall);
        lemma_islands_rest_frame(gm, sm, h, i + 1, num);
        let (g1, s1) = islands_rest(g, s, h, i, num);
        assert((g1, s1) == islands_rest(gm, sm, h, i + 1, num));
        assert forall|c: int| 0 <= c < 60 && (c < 5 || c == 59) implies (#[trigger] g1[h][c])
            == g[h][c] by {
            assert(gm[h][c] == g[h][c]);
        }
        assert forall|c: int| 0 <= c < 60 && g[h][c] == Tile::Wall implies (#[trigger] g1[h][c])
            == Tile::Wall by {
            assert(gm[h][c] == Tile::Wall);
        }
    }
}

/// One tier of the floating-islands archetype: its first island's cells are
/// wall in the result, the rest of the grid outside row `h` is untouched,
/// and walls on row `h` are never removed.
proof fn lemma_island_tier_props(g: Seq<Seq<Tile>>, s: u64, h: int)
    requires
        grid_wf(g),
        0 <= h < 20,
    ensures
        ({
            let (g1, s1, st, ln) = island_tier(g, s, h);
            &&& grid_wf(g1)
            &&& 5 <= st < 15
            &&& 5 <= ln < 12
            &&& forall|r: int| 0 <= r < 20 && r != h ==> (#[trigger] g1[r]) == g[r]
            &&& forall|c: int| 0 <= c < 60 && (c < 5 || c == 59) ==> (#[trigger] g1[h][c]) == g[h][c]
            &&& forall|c: int| st <= c < st + ln ==> (#[trigger] g1[h][c]) == Tile::Wall
            &&& forall|c: int|
                0 <= c < 60 && g[h][c] == Tile::Wall ==> (#[trigger] g1[h][c]) == Tile::Wall
        }),
{
    let num = range_result(s, 2, 4) as int;
    let s1x = range_state(s, 2, 4);
    let (ga, s2, st, ln) = island_step(g, s1x, h, 0);
    let end = if st + ln < 59 {
        st + ln
    } else {
        59
    };
    assert(ga == fill_row_spec(g, h, st, end, Tile::Wall));
    lemma_fill_cells(g, h, st, end, Tile::Wall);
    lemma_islands_rest_frame(ga, s2, h, 1, num);
    let (g1, s1, st0, ln0) = island_tier(g, s, h);
    assert((g1, s1) == islands_rest(ga, s2, h, 1, num));
    assert(st0 == st && ln0 == ln);
    assert forall|c: int| st <= c < st + ln implies (#[trigger] g1[h][c]) == Tile::Wall by {
        assert(ga[h][c] == Tile::Wall);
    }
    assert forall|c: int| 0 <= c < 60 && (c < 5 || c == 59) implies (#[trigger] g1[h][c])
        == g[h][c] by {
        assert(ga[h][c] == g[h][c]);
    }
    assert forall|c: int| 0 <= c < 60 && g[h][c] == Tile::Wall implies (#[trigger] g1[h][c])
        == Tile::Wall by {
        assert(ga[h][c] == Tile::Wall);
    }
}

/// The zig-zag archetype's frame and landmark facts.
proof fn lemma_zigzag_props(g: Seq<Seq<Tile>>, s: u64)
    requires
        grid_wf(g),
    ensures
        ({
            let (g1, s1, lm) = zigzag_phase(g, s);
            &&& grid_wf(g1)
            &&& lm.w1_start + 5 <= lm.w1
            &&& forall|r: int|
                0 <= r < 20 && !(r == 16 || r == 12 || r == 8 || r == 4) ==> (#[trigger] g1[r])
                    == g[r]
            &&& forall|r: int|
                0 <= r < 20 ==> (#[trigger] g1[r][0]) == g[r][0] && g1[r][59] == g[r][59]
            &&& g1[4][lm.w4 as int] == Tile::Wall
            &&& forall|c: int|
                lm.w1_start <= c < lm.w1 ==> (#[trigger] g1[16][c]) == Tile::Wall
        }),
{
    let w1 = range_result(s, 35, 55) as int;
    let s1 = range_state(s, 35, 55);
    let ga = fill_row_spec(g, 16, 15, w1, Tile::Wall);
    let w2 = range_result(s1, 25, 45) as int;
    let s2 = range_state(s1, 25, 45);
    let gb = fill_row_spec(ga, 12, w2, 59, Tile::Wall);
    let w3 = range_result(s2, 35, 55) as int;
    let s3 = range_state(s2, 35, 55);
    let gc = fill_row_spec(gb, 8, 1, w3, Tile::Wall);
    let w4 = range_result(s3, 25, 45) as int;
    let gd = fill_row_spec(gc, 4, w4, 59, Tile::Wall);
    lemma_fill_cells(g, 16, 15, w1, Tile::Wall);
    lemma_fill_cells(ga, 12, w2, 59, Tile::Wall);
    lemma_fill_cells(gb, 8, 1, w3, Tile::Wall);
    lemma_fill_cells(gc, 4, w4, 59, Tile::Wall);
    let (g1, s4, lm) = zigzag_phase(g, s);
    assert(g1 == gd);
    assert forall|r: int|
        0 <= r < 20 && !(r == 16 || r == 12 || r == 8 || r == 4) implies (#[trigger] g1[r])
            == g[r] by {
        assert(gd[r] == gc[r]);
        assert(gc[r] == gb[r]);
        assert(gb[r] == ga[r]);
        assert(ga[r] == g[r]);
    }
    assert forall|r: int|
        0 <= r < 20 implies (#[trigger] g1[r][0]) == g[r][0] && g1[r][59] == g[r][59] by {
        if r == 16 {
            assert(ga[16][0] == g[16][0] && ga[16][59] == g[16][59]);
            assert(gb[16] == ga[16] && gc[16] == gb[16] && gd[16] == gc[16]);
        } else if r == 12 {
            assert(ga[12] == g[12]);
            assert(gb[12][0] == ga[12][0] && gb[12][59] == ga[12][59]);
            assert(gc[12] == gb[12] && gd[12] == gc[12]);
        } else if r == 8 {
            assert(ga[8] == g[8] && gb[8] == ga[8]);
            assert(gc[8][0] == gb[8][0] && gc[8][59] == gb[8][59]);
            assert(gd[8] == gc[8]);
        } else if r == 4 {
            assert(ga[4] == g[4] && gb[4] == ga[4] && gc[4] == gb[4]);
            assert(gd[4][0] == gc[4][0] && gd[4][59] == gc[4][59]);
        } else {
            assert(gd[r] == gc[r] && gc[r] == gb[r] && gb[r] == ga[r] && ga[r] == g[r]);
        }
    }
    assert(g1[4][lm.w4 as int] == Tile::Wall);
    assert forall|c: int| lm.w1_start <= c < lm.w1 implies (#[trigger] g1[16][c])
        == Tile::Wall by {
        assert(ga[16][c] == Tile::Wall);
        assert(gb[16] == ga[16] && gc[16] == gb[16] && gd[16] == gc[16]);
    }
}

/// The floating-islands archetype's frame and landmark facts.
/// Chains four tier frames over abstract grids: what holds of the final
/// grid when each step touches only its own tier row and keeps the side
/// columns.
proof fn lemma_tier_chain(
    g: Seq<Seq<Tile>>,
    ga: Seq<Seq<Tile>>,
    gb: Seq<Seq<Tile>>,
    gc: Seq<Seq<Tile>>,
    gd: Seq<Seq<Tile>>,
    st16: int,
    ln16: int,
    st4: int,
    ln4: int,
)
    requires
        forall|r: int| 0 <= r < 20 && r != 16 ==> (#[trigger] ga[r]) == g[r],
        forall|c: int| 0 <= c < 60 && (c < 5 || c == 59) ==> (#[trigger] ga[16][c]) == g[16][c],
        forall|c: int| st16 <= c < st16 + ln16 ==> (#[trigger] ga[16][c]) == Tile::Wall,
        forall|r: int| 0 <= r < 20 && r != 12 ==> (#[trigger] gb[r]) == ga[r],
        forall|c: int| 0 <= c < 60 && (c < 5 || c == 59) ==> (#[trigger] gb[12][c]) == ga[12][c],
        forall|r: int| 0 <= r < 20 && r != 8 ==> (#[trigger] gc[r]) == gb[r],
        forall|c: int| 0 <= c < 60 && (c < 5 || c == 59) ==> (#[trigger] gc[8][c]) == gb[8][c],
        forall|r: int| 0 <= r < 20 && r != 4 ==> (#[trigger] gd[r]) == gc[r],
        forall|c: int| 0 <= c < 60 && (c < 5 || c == 59) ==> (#[trigger] gd[4][c]) == gc[4][c],
        forall|c: int| st4 <= c < st4 + ln4 ==> (#[trigger] gd[4][c]) == Tile::Wall,
        5 <= st16 < 15,
        5 <= ln16 < 12,
        5 <= st4 < 15,
        5 <= ln4 < 12,
    ensures
        forall|r: int|
            0 <= r < 20 && !(r == 16 || r == 12 || r == 8 || r == 4) ==> (#[trigger] gd[r])
                == g[r],
        forall|r: int| 0 <= r < 20 ==> (#[trigger] gd[r][0]) == g[r][0] && gd[r][59] == g[r][59],
        gd[4][st4] == Tile::Wall,
        forall|c: int| st16 <= c < st16 + ln16 ==> (#[trigger] gd[16][c]) == Tile::Wall,
{
    assert forall|r: int|
        0 <= r < 20 && !(r == 16 || r == 12 || r == 8 || r == 4) implies (#[trigger] gd[r])
            == g[r] by {
        assert(gd[r] == gc[r]);
        assert(gc[r] == gb[r]);
        assert(gb[r] == ga[r]);
        assert(ga[r] == g[r]);
    }
    assert forall|r: int|
        0 <= r < 20 implies (#[trigger] gd[r][0]) == g[r][0] && gd[r][59] == g[r][59] by {
        if r == 16 {
            assert(ga[16][0] == g[16][0] && ga[16][59] == g[16][59]);
            assert(gb[16] == ga[16] && gc[16] == gb[16] && gd[16] == gc[16]);
        } else if r == 12 {
            assert(ga[12] == g[12]);
            assert(gb[12][0] == ga[12][0] && gb[12][59] == ga[12][59]);
            assert(gc[12] == gb[12] && gd[12] == gc[12]);
        } else if r == 8 {
            assert(ga[8] == g[8] && gb[8] == ga[8]);
            assert(gc[8][0] == gb[8][0] && gc[8][59] == gb[8][59]);
            assert(gd[8] == gc[8]);
        } else if r == 4 {
            assert(ga[4] == g[4] && gb[4] == ga[4] && gc[4] == gb[4]);
            assert(gd[4][0] == gc[4][0] && gd[4][59] == gc[4][59]);
        } else {
            assert(gd[r] == gc[r] && gc[r] == gb[r] && gb[r] == ga[r] && ga[r] == g[r]);
        }
    }
    assert forall|c: int| st16 <= c < st16 + ln16 implies (#[trigger] gd[16][c])
        == Tile::Wall by {
        assert(ga[16][c] == Tile::Wall);
        assert(gb[16] == ga[16] && gc[16] == gb[16] && gd[16] == gc[16]);
    }
}

/// The floating-islands archetype's frame and landmark facts.
proof fn lemma_islands_props(g: Seq<Seq<Tile>>, s: u64)
    requires
        grid_wf(g),
    ensures
        ({
            let (g1, s1, lm) = islands_phase(g, s);
            &&& grid_wf(g1)
            &&& lm.w1_start + 5 <= lm.w1
            &&& forall|r: int|
                0 <= r < 20 && !(r == 16 || r == 12 || r == 8 || r == 4) ==> (#[trigger] g1[r])
                    == g[r]
            &&& forall|r: int|
                0 <= r < 20 ==> (#[trigger] g1[r][0]) == g[r][0] && g1[r][59] == g[r][59]
            &&& g1[4][lm.w4 as int] == Tile::Wall
            &&& forall|c: int|
                lm.w1_start <= c < lm.w1 ==> (#[trigger] g1[16][c]) == Tile::Wall
        }),
{
    let (ga, sa, st16, ln16) = island_tier(g, s, 16);
    let (gb, sb, st12, ln12) = island_tier(ga, sa, 12);
    let (gc, sc, st8, ln8) = island_tier(gb, sb, 8);
    let (gd, sd, st4, ln4) = island_tier(gc, sc, 4);
    lemma_island_tier_props(g, s, 16);
    lemma_island_tier_props(ga, sa, 12);
    lemma_island_tier_props(gb, sb, 8);
    lemma_island_tier_props(gc, sc, 4);
    lemma_tier_chain(g, ga, gb, gc, gd, st16, ln16, st4, ln4);
    let (g1, s1, lm) = islands_phase(g, s);
    assert(g1 == gd);
    assert(lm.w4 as int == st4 && lm.w1_start as int == st16 && lm.w1 as int == st16 + ln16);
}

/// The platform phase writes only the four tier rows and never the side
/// columns; it leaves a wall under the recorded `w4` landmark and a solid
/// wall run from `w1_start` up to `w1` on the top tier.
proof fn lemma_platforms_props(g: Seq<Seq<Tile>>, s: u64, n: u32)
    requires
        grid_wf(g),
    ensures
        ({
            let (g1, s1, lm) = platform_phase(g, s, n);
            &&& grid_wf(g1)
            &&& lm.w1_start + 5 <= lm.w1
            &&& forall|r: int|
                0 <= r < 20 && !(r == 16 || r == 12 || r == 8 || r == 4) ==> (#[trigger] g1[r])
                    == g[r]
            &&& forall|r: int|
                0 <= r < 20 ==> (#[trigger] g1[r][0]) == g[r][0] && g1[r][59] == g[r][59]
            &&& g1[4][lm.w4 as int] == Tile::Wall
            &&& forall|c: int|
                lm.w1_start <= c < lm.w1 ==> (#[trigger] g1[16][c]) == Tile::Wall
        }),
{
    lemma_landmark_bounds(g, s, n);
    if n % 2 != 0 {
        lemma_zigzag_props(g, s);
    } else {
        lemma_islands_props(g, s);
    }
}

/// The trophy phase always finds a supported column when a wall stands under
/// `w4`: the trophy lands strictly inside the grid, one row above a wall,
/// and nothing else changes.
proof fn lemma_trophy_props(g: Seq<Seq<Tile>>, s: u64, w4: int)
    requires
        grid_wf(g),
        1 <= w4 < 59,
        g[4][w4] == Tile::Wall,
    ensures
        ({
            let (g2, s2, tx) = trophy_phase(g, s, w4);
            &&& grid_wf(g2)
            &&& 1 <= tx < 59
            &&& g2[3][tx] == Tile::Trophy
            &&& g2[4][tx] == Tile::Wall
            &&& forall|r: int| 0 <= r < 20 && r != 3 ==> (#[trigger] g2[r]) == g[r]
            &&& forall|c: int| 0 <= c < 60 && c != tx ==> (#[trigger] g2[3][c]) == g[3][c]
        }),
{
    lemma_wall_cols_contains(g[4], w4, 59);
    lemma_wall_cols_props(g[4], 59);
    let (g2, s2, tx) = trophy_phase(g, s, w4);
    lemma_set_cells(g, 3, tx, Tile::Trophy);
}

/// The exit phase puts the exit on a wall: either the fixed ground exit over
/// the bottom boundary, or a platform exit inside the top tier's wall run.
proof fn lemma_exit_props(g: Seq<Seq<Tile>>, s: u64, lm: Landmarks)
    requires
        grid_wf(g),
        10 <= lm.w1 < 55,
        5 <= lm.w1_start <= 15,
        lm.w1_start + 5 <= lm.w1,
        forall|c: int| lm.w1_start <= c < lm.w1 ==> (#[trigger] g[16][c]) == Tile::Wall,
        forall|x: int| 0 <= x < 60 ==> (#[trigger] g[19][x]) == Tile::Wall,
    ensures
        ({
            let (g3, s3, ex, ey) = exit_phase(g, s, lm);
            &&& grid_wf(g3)
            &&& (ey == 18 && ex == 55) || (ey == 15 && 5 <= ex <= 58)
            &&& g3[ey][ex] == Tile::Exit
            &&& g3[ey + 1][ex] == Tile::Wall
            &&& forall|r: int| 0 <= r < 20 && r != ey ==> (#[trigger] g3[r]) == g[r]
            &&& forall|c: int| 0 <= c < 60 && c != ex ==> (#[trigger] g3[ey][c]) == g[ey][c]
        }),
{
    let (g3, s3, ex, ey) = exit_phase(g, s, lm);
    lemma_set_cells(g, ey, ex, Tile::Exit);
}

/// The diamond attempts write only the rows above the tiers, and only over
/// empty cells.
proof fn lemma_diamonds_frame(g: Seq<Seq<Tile>>, s: u64, n: int)
    requires
        grid_wf(g),
    ensures
        ({
            let (g1, s1) = diamonds_phase(g, s, n);
            &&& grid_wf(g1)
            &&& forall|r: int|
                0 <= r < 20 && !(r == 15 || r == 11 || r == 7 || r == 3) ==> (#[trigger] g1[r])
                    == g[r]
            &&& forall|r: int, c: int|
                0 <= r < 20 && 0 <= c < 60 && g[r][c] != Tile::Empty ==> (#[trigger] g1[r][c])
                    == g[r][c]
        }),
    decreases n,
{
    if n <= 0 {
    } else {
        let hi = range_result(s, 0, 4) as int;
        let s1x = range_state(s, 0, 4);
        let h = height_at(hi);
        let dx = range_result(s1x, 2, 58) as int;
        let s2x = range_state(s1x, 2, 58);
        let (gm, sm) = diamond_step(g, s);
        if g[h][dx] == Tile::Wall && g[h - 1][dx] == Tile::Empty {
            assert(gm == grid_set(g, h - 1, dx, Tile::Diamond));
            lemma_set_cells(g, h - 1, dx, Tile::Diamond);
        } else {
            assert(gm == g);
        }
        lemma_diamonds_frame(gm, sm, n - 1);
        let (g1, s1) = diamonds_phase(g, s, n);
        assert((g1, s1) == diamonds_phase(gm, sm, n - 1));
        assert forall|r: int, c: int|
            0 <= r < 20 && 0 <= c < 60 && g[r][c] != Tile::Empty implies (#[trigger] g1[r][c])
                == g[r][c] by {
            assert(gm[r][c] == g[r][c]);
        }
    }
}

/// The floor-hazard pass writes only hazards, only into the bottom row's
/// columns `[x, 50)`.
proof fn lemma_floor_frame(g: Seq<Seq<Tile>>, s: u64, x: int, le: int, ch: u32)
    requires
        grid_wf(g),
        15 <= x,
    ensures
        ({
            let (g1, s1) = floor_pass(g, s, x, le, ch);
            &&& grid_wf(g1)
            &&& forall|r: int| 0 <= r < 20 && r != 19 ==> (#[trigger] g1[r]) == g[r]
            &&& forall|c: int| 0 <= c < 60 && !(x <= c < 50) ==> (#[trigger] g1[19][c]) == g[19][c]
            &&& forall|c: int|
                0 <= c < 60 && x <= c < 50 ==> (#[trigger] g1[19][c]) == g[19][c] || g1[19][c]
                    == Tile::Hazard
        }),
    decreases 50 - x,
{
    if x >= 50 {
    } else if !(x % 10 != 0) || x - le < 4 {
        lemma_floor_frame(g, s, x + 1, le, ch);
    } else {
        let roll = range_result(s, 0, 100);
        let s1 = range_state(s, 0, 100);
        if roll < ch {
            let c = range_result(s1, 0, 2);
            let s2 = range_state(s1, 0, 2);
            let size: int = if c == 0 {
                1
            } else {
                2
            };
            let act = floor_actual(x, size);
            if act > 0 && !window_violation(g, 19, x, act) {
                let gg = fill_row_spec(g, 19, x, x + act, Tile::Hazard);
                lemma_fill_cells(g, 19, x, x + act, Tile::Hazard);
                lemma_floor_frame(gg, s2, x + 1, x + act - 1, ch);
            } else {
                lemma_floor_frame(g, s2, x + 1, le, ch);
            }
        } else {
            lemma_floor_frame(g, s1, x + 1, le, ch);
        }
    }
}

/// The platform-hazard pass for tier `h` writes only into row `h - 1`,
/// only at columns `[x, 56)`, and never inside a critical zone.
proof fn lemma_plat_frame(g: Seq<Seq<Tile>>, s: u64, cz: CriticalZones, h: int, x: int, le: int)
    requires
        grid_wf(g),
        1 <= h < 20,
        5 <= x,
    ensures
        ({
            let (g1, s1) = plat_pass(g, s, cz, h, x, le);
            &&& grid_wf(g1)
            &&& forall|r: int| 0 <= r < 20 && r != h - 1 ==> (#[trigger] g1[r]) == g[r]
            &&& forall|c: int|
                0 <= c < 60 && !(x <= c < 56) ==> (#[trigger] g1[h - 1][c]) == g[h - 1][c]
            &&& forall|c: int|
                0 <= c < 60 && is_critical(cz, h, c) ==> (#[trigger] g1[h - 1][c]) == g[h - 1][c]
            &&& forall|c: int|
                0 <= c < 60 ==> (#[trigger] g1[h - 1][c]) == g[h - 1][c] || g1[h - 1][c]
                    == Tile::Hazard
        }),
    decreases 55 - x,
{
    if x >= 55 {
    } else if !plat_ok(g, cz, h, x) || x - le < 4 {
        lemma_plat_frame(g, s, cz, h, x + 1, le);
    } else {
        let roll = range_result(s, 0, 100);
        let s1 = range_state(s, 0, 100);
        if roll < 15 {
            let c = range_result(s1, 0, 2);
            let s2 = range_state(s1, 0, 2);
            let size: int = if c == 0 {
                1
            } else {
                2
            };
            let act = plat_actual(g, cz, h, x, size);
            if act > 0 && !window_violation(g, h - 1, x, act) {
                let gg = fill_row_spec(g, h - 1, x, x + act, Tile::Hazard);
                lemma_fill_cells(g, h - 1, x, x + act, Tile::Hazard);
                lemma_plat_frame(gg, s2, cz, h, x + 1, x + act - 1);
            } else {
                lemma_plat_frame(g, s2, cz, h, x + 1, le);
            }
        } else {
            lemma_plat_frame(g, s1, cz, h, x + 1, le);
        }
    }
}

/// Assembles the facts through trophy and exit placement, over abstract
/// grids standing for the stages.
proof fn lemma_assembly_mid(
    gb: Seq<Seq<Tile>>,
    g0: Seq<Seq<Tile>>,
    g1: Seq<Seq<Tile>>,
    g2: Seq<Seq<Tile>>,
    g3: Seq<Seq<Tile>>,
    tx: int,
    ex: int,
    ey: int,
)
    requires
        forall|x: int| 0 <= x < 60 ==> (#[trigger] gb[0][x]) == Tile::Wall,
        forall|x: int| 0 <= x < 60 ==> (#[trigger] gb[19][x]) == Tile::Wall,
        forall|y: int| 0 <= y < 20 ==> (#[trigger] gb[y][0]) == Tile::Wall,
        forall|y: int| 0 <= y < 20 ==> (#[trigger] gb[y][59]) == Tile::Wall,
        gb[17][2] == Tile::Empty,
        forall|r: int| 0 <= r < 20 && r != 18 ==> (#[trigger] g0[r]) == gb[r],
        forall|c: int| 0 <= c < 60 && !(1 <= c < 10) ==> (#[trigger] g0[18][c]) == gb[18][c],
        forall|r: int|
            0 <= r < 20 && !(r == 16 || r == 12 || r == 8 || r == 4) ==> (#[trigger] g1[r])
                == g0[r],
        forall|r: int| 0 <= r < 20 ==> (#[trigger] g1[r][0]) == g0[r][0] && g1[r][59] == g0[r][59],
        1 <= tx < 59,
        g2[3][tx] == Tile::Trophy,
        g2[4][tx] == Tile::Wall,
        forall|r: int| 0 <= r < 20 && r != 3 ==> (#[trigger] g2[r]) == g1[r],
        forall|c: int| 0 <= c < 60 && c != tx ==> (#[trigger] g2[3][c]) == g1[3][c],
        (ey == 18 && ex == 55) || (ey == 15 && 5 <= ex <= 58),
        g3[ey][ex] == Tile::Exit,
        g3[ey + 1][ex] == Tile::Wall,
        forall|r: int| 0 <= r < 20 && r != ey ==> (#[trigger] g3[r]) == g2[r],
        forall|c: int| 0 <= c < 60 && c != ex ==> (#[trigger] g3[ey][c]) == g2[ey][c],
    ensures
        boundary_ok(g3),
        forall|x: int| 0 <= x < 60 ==> (#[trigger] g3[19][x]) == Tile::Wall,
        g3[17][2] == Tile::Empty,
        g3[3][tx] == Tile::Trophy,
        g3[4][tx] == Tile::Wall,
{
    assert(g0[17] == gb[17]);
    assert(g1[17] == g0[17] && g1[19] == g0[19] && g1[0] == g0[0]);
    assert(g0[19] == gb[19] && g0[0] == gb[0]);
    assert(g2[17] == g1[17] && g2[19] == g1[19] && g2[0] == g1[0]);
    assert(g3[17] == g2[17] && g3[19] == g2[19] && g3[0] == g2[0]);
    assert(g3[3][tx] == Tile::Trophy) by {
        if ey != 3 {
            assert(g3[3] == g2[3]);
        }
    }
    assert(g3[4] == g2[4] && g2[4] == g1[4]);
    assert forall|x: int| 0 <= x < 60 implies (#[trigger] g3[0][x]) == Tile::Wall by {
        assert(gb[0][x] == Tile::Wall);
    }
    assert forall|x: int| 0 <= x < 60 implies (#[trigger] g3[19][x]) == Tile::Wall by {
        assert(gb[19][x] == Tile::Wall);
    }
    assert forall|y: int|
        #![trigger g3[y][0]]
        #![trigger g3[y][59]]
        0 <= y < 20 implies g3[y][0] == Tile::Wall && g3[y][59] == Tile::Wall by {
        assert(g0[y][0] == gb[y][0] && g0[y][59] == gb[y][59]) by {
            if y == 18 {
                assert(g0[18][0] == gb[18][0] && g0[18][59] == gb[18][59]);
            } else {
                assert(g0[y] == gb[y]);
            }
        }
        assert(g2[y][0] == g1[y][0] && g2[y][59] == g1[y][59]) by {
            if y == 3 {
                assert(g2[3][0] == g1[3][0] && g2[3][59] == g1[3][59]);
            } else {
                assert(g2[y] == g1[y]);
            }
        }
        assert(g3[y][0] == g2[y][0] && g3[y][59] == g2[y][59]) by {
            if y == ey {
                assert(g3[ey][0] == g2[ey][0] && g3[ey][59] == g2[ey][59]);
            } else {
                assert(g3[y] == g2[y]);
            }
        }
    }
}

/// Assembles the facts through the diamond and hazard passes, over abstract
/// grids standing for the stages.
proof fn lemma_assembly_final(
    g3: Seq<Seq<Tile>>,
    g4: Seq<Seq<Tile>>,
    g5: Seq<Seq<Tile>>,
    ga: Seq<Seq<Tile>>,
    gc: Seq<Seq<Tile>>,
    gd: Seq<Seq<Tile>>,
    gf: Seq<Seq<Tile>>,
    tx: int,
    ex: int,
    ey: int,
    cz: CriticalZones,
)
    requires
        boundary_ok(g3),
        forall|x: int| 0 <= x < 60 ==> (#[trigger] g3[19][x]) == Tile::Wall,
        g3[17][2] == Tile::Empty,
        1 <= tx < 59,
        g3[3][tx] == Tile::Trophy,
        g3[4][tx] == Tile::Wall,
        (ey == 18 && ex == 55) || (ey == 15 && 5 <= ex <= 58),
        g3[ey][ex] == Tile::Exit,
        g3[ey + 1][ex] == Tile::Wall,
        forall|r: int|
            0 <= r < 20 && !(r == 15 || r == 11 || r == 7 || r == 3) ==> (#[trigger] g4[r])
                == g3[r],
        forall|r: int, c: int|
            0 <= r < 20 && 0 <= c < 60 && g3[r][c] != Tile::Empty ==> (#[trigger] g4[r][c])
                == g3[r][c],
        forall|r: int| 0 <= r < 20 && r != 19 ==> (#[trigger] g5[r]) == g4[r],
        forall|c: int| 0 <= c < 60 && !(15 <= c < 50) ==> (#[trigger] g5[19][c]) == g4[19][c],
        forall|c: int|
            0 <= c < 60 && 15 <= c < 50 ==> (#[trigger] g5[19][c]) == g4[19][c] || g5[19][c]
                == Tile::Hazard,
        forall|r: int| 0 <= r < 20 && r != 15 ==> (#[trigger] ga[r]) == g5[r],
        forall|c: int| 0 <= c < 60 && !(5 <= c < 56) ==> (#[trigger] ga[15][c]) == g5[15][c],
        forall|c: int| 0 <= c < 60 && is_critical(cz, 16, c) ==> (#[trigger] ga[15][c]) == g5[15][c],
        forall|r: int| 0 <= r < 20 && r != 11 ==> (#[trigger] gc[r]) == ga[r],
        forall|c: int| 0 <= c < 60 && !(5 <= c < 56) ==> (#[trigger] gc[11][c]) == ga[11][c],
        forall|r: int| 0 <= r < 20 && r != 7 ==> (#[trigger] gd[r]) == gc[r],
        forall|c: int| 0 <= c < 60 && !(5 <= c < 56) ==> (#[trigger] gd[7][c]) == gc[7][c],
        forall|r: int| 0 <= r < 20 && r != 3 ==> (#[trigger] gf[r]) == gd[r],
        forall|c: int| 0 <= c < 60 && !(5 <= c < 56) ==> (#[trigger] gf[3][c]) == gd[3][c],
        forall|c: int| 0 <= c < 60 && is_critical(cz, 4, c) ==> (#[trigger] gf[3][c]) == gd[3][c],
        cz.trophy_x as int == tx,
        cz.exit_x as int == ex,
        cz.exit_y as int == ey,
    ensures
        boundary_ok(gf),
        gf[17][2] == Tile::Empty,
        gf[3][tx] == Tile::Trophy,
        gf[4][tx] == Tile::Wall,
        gf[ey][ex] == Tile::Exit,
        gf[ey + 1][ex] == Tile::Wall,
{
    assert(is_critical(cz, 4, tx));
    assert(ey == 15 ==> is_critical(cz, 16, ex));
    assert(g4[17] == g3[17] && g5[17] == g4[17] && ga[17] == g5[17] && gc[17] == ga[17] && gd[17]
        == gc[17] && gf[17] == gd[17]);
    assert(g4[0] == g3[0] && g5[0] == g4[0] && ga[0] == g5[0] && gc[0] == ga[0] && gd[0] == gc[0]
        && gf[0] == gd[0]);
    assert(g4[4] == g3[4] && g5[4] == g4[4] && ga[4] == g5[4] && gc[4] == ga[4] && gd[4] == gc[4]
        && gf[4] == gd[4]);
    assert(g4[16] == g3[16] && g5[16] == g4[16] && ga[16] == g5[16] && gc[16] == ga[16] && gd[16]
        == gc[16] && gf[16] == gd[16]);
    assert(g4[18] == g3[18] && g5[18] == g4[18] && ga[18] == g5[18] && gc[18] == ga[18] && gd[18]
        == gc[18] && gf[18] == gd[18]);
    assert(ga[19] == g5[19] && gc[19] == ga[19] && gd[19] == gc[19] && gf[19] == gd[19]);
    assert(g4[19] == g3[19]);
    // The trophy cell survives: diamonds skip non-empty cells, later passes
    // write other rows, and the tier-4 pass shields the trophy's zone.
    assert(g4[3][tx] == Tile::Trophy);
    assert(g5[3] == g4[3] && ga[3] == g5[3] && gc[3] == ga[3] && gd[3] == gc[3]);
    assert(gf[3][tx] == gd[3][tx]);
    // The bottom row keeps wall-or-hazard through the floor pass.
    assert forall|x: int|
        0 <= x < 60 implies (#[trigger] gf[19][x]) == Tile::Wall || gf[19][x]
            == Tile::Hazard by {
        assert(g4[19][x] == Tile::Wall);
        if 15 <= x < 50 {
            assert(g5[19][x] == g4[19][x] || g5[19][x] == Tile::Hazard);
        } else {
            assert(g5[19][x] == g4[19][x]);
        }
        assert(gf[19][x] == g5[19][x]);
    }
    // Side columns stay wall through every pass.
    assert forall|y: int|
        #![trigger gf[y][0]]
        #![trigger gf[y][59]]
        0 <= y < 20 implies gf[y][0] == Tile::Wall && gf[y][59] == Tile::Wall by {
        assert(g4[y][0] == g3[y][0] && g4[y][59] == g3[y][59]) by {
            assert(g3[y][0] != Tile::Empty && g3[y][59] != Tile::Empty);
        }
        assert(g5[y][0] == g4[y][0] && g5[y][59] == g4[y][59]) by {
            if y == 19 {
                assert(g5[19][0] == g4[19][0] && g5[19][59] == g4[19][59]);
            } else {
                assert(g5[y] == g4[y]);
            }
        }
        assert(ga[y][0] == g5[y][0] && ga[y][59] == g5[y][59]) by {
            if y == 15 {
                assert(ga[15][0] == g5[15][0] && ga[15][59] == g5[15][59]);
            } else {
                assert(ga[y] == g5[y]);
            }
        }
        assert(gc[y][0] == ga[y][0] && gc[y][59] == ga[y][59]) by {
            if y == 11 {
                assert(gc[11][0] == ga[11][0] && gc[11][59] == ga[11][59]);
            } else {
                assert(gc[y] == ga[y]);
            }
        }
        assert(gd[y][0] == gc[y][0] && gd[y][59] == gc[y][59]) by {
            if y == 7 {
                assert(gd[7][0] == gc[7][0] && gd[7][59] == gc[7][59]);
            } else {
                assert(gd[y] == gc[y]);
            }
        }
        assert(gf[y][0] == gd[y][0] && gf[y][59] == gd[y][59]) by {
            if y == 3 {
                assert(gf[3][0] == gd[3][0] && gf[3][59] == gd[3][59]);
            } else {
                assert(gf[y] == gd[y]);
            }
        }
    }
    // The exit cell and its support survive the later passes.
    if ey == 15 {
        assert(g4[15][ex] == Tile::Exit);
        assert(g5[15] == g4[15]);
        assert(ga[15][ex] == g5[15][ex]);
        assert(gc[15] == ga[15] && gd[15] == gc[15] && gf[15] == gd[15]);
        assert(gf[16][ex] == Tile::Wall);
    } else {
        assert(g4[18][ex] == Tile::Exit);
        assert(g4[19][ex] == Tile::Wall);
        assert(g5[19][ex] == g4[19][ex]) by {
            assert(!(15 <= ex < 50));
        }
        assert(gf[18][ex] == g4[18][ex]);
        assert(gf[19][ex] == g5[19][ex]);
    }
}

/// The whole chain of phase facts needed by the public laws, proved once.
#[verifier::rlimit(100)]
proof fn lemma_generate_all(n: u32)
    ensures
        grid_wf(spec_generate(n)),
        boundary_ok(spec_generate(n)),
        spec_generate(n)[17][2] == Tile::Empty,
        ({
            let g = spec_generate(n);
            let (tx, ty) = spec_trophy_pos(n);
            let (ex, ey) = spec_exit_pos(n);
            &&& 1 <= tx < 59 && ty == 3
            &&& 5 <= ex <= 58 && (ey == 15 || ey == 18)
            &&& g[ty][tx] == Tile::Trophy
            &&& g[ty + 1][tx] == Tile::Wall
            &&& g[ey][ex] == Tile::Exit
            &&& g[ey + 1][ex] == Tile::Wall
        }),
{
    let gb = boundary_grid();
    let g0 = gen_base();
    let (g1, s1, lm) = gen_platforms(n);
    let (g2, s2, tx) = gen_trophy(n);
    let (g3, s3, ex, ey) = gen_exit(n);
    let (g4, s4) = diamonds_phase(g3, s3, 8);
    let chance: u32 = if n == 1 {
        10
    } else {
        30
    };
    let (g5, s5) = floor_pass(g4, s4, 15, -10, chance);
    let cz = gen_zones(n);
    let (ga, sa) = plat_pass(g5, s5, cz, 16, 5, -10);
    let (gc, sc) = plat_pass(ga, sa, cz, 12, 5, -10);
    let (gd, sd) = plat_pass(gc, sc, cz, 8, 5, -10);
    let gf = plat_pass(gd, sd, cz, 4, 5, -10).0;
    assert(gf == spec_generate(n));
    assert(grid_wf(gb));
    assert(forall|x: int| 0 <= x < 60 ==> (#[trigger] gb[0][x]) == Tile::Wall);
    assert(forall|x: int| 0 <= x < 60 ==> (#[trigger] gb[19][x]) == Tile::Wall);
    assert(forall|y: int| 0 <= y < 20 ==> (#[trigger] gb[y][0]) == Tile::Wall);
    assert(forall|y: int| 0 <= y < 20 ==> (#[trigger] gb[y][59]) == Tile::Wall);
    assert(gb[17][2] == Tile::Empty);
    lemma_fill_cells(gb, 18, 1, 10, Tile::Wall);
    assert(g0 == fill_row_spec(gb, 18, 1, 10, Tile::Wall));
    lemma_landmark_bounds(g0, mix_seed(n), n);
    lemma_platforms_props(g0, mix_seed(n), n);
    assert(g1[4][lm.w4 as int] == Tile::Wall);
    lemma_trophy_props(g1, s1, lm.w4 as int);
    assert(1 <= tx < 59);
    assert forall|c: int| lm.w1_start <= c < lm.w1 implies (#[trigger] g2[16][c])
        == Tile::Wall by {
        assert(g2[16] == g1[16]);
    }
    assert forall|x: int| 0 <= x < 60 implies (#[trigger] g2[19][x]) == Tile::Wall by {
        assert(g0[19] == gb[19]);
        assert(g1[19] == g0[19]);
        assert(g2[19] == g1[19]);
    }
    lemma_exit_props(g2, s2, lm);
    lemma_assembly_mid(gb, g0, g1, g2, g3, tx, ex, ey);
    lemma_diamonds_frame(g3, s3, 8);
    lemma_floor_frame(g4, s4, 15, -10, chance);
    lemma_plat_frame(g5, s5, cz, 16, 5, -10);
    lemma_plat_frame(ga, sa, cz, 12, 5, -10);
    lemma_plat_frame(gc, sc, cz, 8, 5, -10);
    lemma_plat_frame(gd, sd, cz, 4, 5, -10);
    assert(cz.trophy_x as int == tx);
    assert(cz.exit_x as int == ex);
    assert(cz.exit_y as int == ey);
    lemma_assembly_final(g3, g4, g5, ga, gc, gd, gf, tx, ex, ey, cz);
}

/// The grid holds the given tile nowhere.
pub open spec fn tile_free(g: Seq<Seq<Tile>>, av: Tile) -> bool {
    forall|y: int, x: int| 0 <= y < 20 && 0 <= x < 60 ==> (#[trigger] g[y][x]) != av
}

/// A row fill with a different tile keeps the grid free of `av`.
proof fn lemma_fill_avoids(g: Seq<Seq<Tile>>, y: int, a: int, b: int, t: Tile, av: Tile)
    requires
        grid_wf(g),
        0 <= y < 20,
        t != av,
        tile_free(g, av),
    ensures
        tile_free(fill_row_spec(g, y, a, b, t), av),
{
    lemma_fill_cells(g, y, a, b, t);
    let g1 = fill_row_spec(g, y, a, b, t);
    assert forall|r: int, c: int| 0 <= r < 20 && 0 <= c < 60 implies (#[trigger] g1[r][c])
        != av by {
        if r != y {
            assert(g1[r] == g[r]);
        } else if a <= c < b {
            assert(g1[y][c] == t);
        } else {
            assert(g1[y][c] == g[y][c]);
        }
    }
}

/// The islands of one tier write nothing but wall.
proof fn lemma_islands_rest_avoids(g: Seq<Seq<Tile>>, s: u64, h: int, i: int, num: int, av: Tile)
    requires
        grid_wf(g),
        0 <= h < 20,
        av != Tile::Wall,
        tile_free(g, av),
    ensures
        tile_free(islands_rest(g, s, h, i, num).0, av),
    decreases num - i,
{
    if i >= num {
    } else {
        let (gm, sm, st, ln) = island_step(g, s, h, i);
        let end = if st + ln < 59 {
            st + ln
        } else {
            59
        };
        assert(gm == fill_row_spec(g, h, st, end, Tile::Wall));
        lemma_fill_cells(g, h, st, end, Tile::Wall);
        lemma_fill_avoids(g, h, st, end, Tile::Wall, av);
        lemma_islands_rest_avoids(gm, sm, h, i + 1, num, av);
    }
}

/// One whole tier writes nothing but wall.
proof fn lemma_island_tier_avoids(g: Seq<Seq<Tile>>, s: u64, h: int, av: Tile)
    requires
        grid_wf(g),
        0 <= h < 20,
        av != Tile::Wall,
        tile_free(g, av),
    ensures
        tile_free(island_tier(g, s, h).0, av),
        grid_wf(island_tier(g, s, h).0),
{
    let num = range_result(s, 2, 4) as int;
    let s1x = range_state(s, 2, 4);
    let (ga, s2, st, ln) = island_step(g, s1x, h, 0);
    let end = if st + ln < 59 {
        st + ln
    } else {
        59
    };
    assert(ga == fill_row_spec(g, h, st, end, Tile::Wall));
    lemma_fill_cells(g, h, st, end, Tile::Wall);
    lemma_fill_avoids(g, h, st, end, Tile::Wall, av);
    lemma_islands_rest_avoids(ga, s2, h, 1, num, av);
    lemma_islands_rest_frame(ga, s2, h, 1, num);
}

/// The platform phase writes nothing but wall.
proof fn lemma_platforms_avoids(g: Seq<Seq<Tile>>, s: u64, n: u32, av: Tile)
    requires
        grid_wf(g),
        av != Tile::Wall,
        tile_free(g, av),
    ensures
        tile_free(platform_phase(g, s, n).0, av),
{
    if n % 2 != 0 {
        let w1 = range_result(s, 35, 55) as int;
        let s1 = range_state(s, 35, 55);
        let ga = fill_row_spec(g, 16, 15, w1, Tile::Wall);
        let w2 = range_result(s1, 25, 45) as int;
        let s2 = range_state(s1, 25, 45);
        let gb = fill_row_spec(ga, 12, w2, 59, Tile::Wall);
        let w3 = range_result(s2, 35, 55) as int;
        let s3 = range_state(s2, 35, 55);
        let gc = fill_row_spec(gb, 8, 1, w3, Tile::Wall);
        let w4 = range_result(s3, 25, 45) as int;
        lemma_fill_avoids(g, 16, 15, w1, Tile::Wall, av);
        lemma_fill_cells(g, 16, 15, w1, Tile::Wall);
        lemma_fill_avoids(ga, 12, w2, 59, Tile::Wall, av);
        lemma_fill_cells(ga, 12, w2, 59, Tile::Wall);
        lemma_fill_avoids(gb, 8, 1, w3, Tile::Wall, av);
        lemma_fill_cells(gb, 8, 1, w3, Tile::Wall);
        lemma_fill_avoids(gc, 4, w4, 59, Tile::Wall, av);
    } else {
        let (ga, sa, st16, ln16) = island_tier(g, s, 16);
        let (gb, sb, st12, ln12) = island_tier(ga, sa, 12);
        let (gc, sc, st8, ln8) = island_tier(gb, sb, 8);
        lemma_island_tier_avoids(g, s, 16, av);
        lemma_island_tier_props(g, s, 16);
        lemma_island_tier_avoids(ga, sa, 12, av);
        lemma_island_tier_props(ga, sa, 12);
        lemma_island_tier_avoids(gb, sb, 8, av);
        lemma_island_tier_props(gb, sb, 8);
        lemma_island_tier_avoids(gc, sc, 4, av);
    }
}

/// A single cell written with a different tile keeps the grid free of `av`.
proof fn lemma_set_avoids(g: Seq<Seq<Tile>>, y: int, x: int, t: Tile, av: Tile)
    requires
        grid_wf(g),
        0 <= y < 20,
        0 <= x < 60,
        t != av,
        tile_free(g, av),
    ensures
        tile_free(grid_set(g, y, x, t), av),
{
    lemma_set_cells(g, y, x, t);
    let g1 = grid_set(g, y, x, t);
    assert forall|r: int, c: int| 0 <= r < 20 && 0 <= c < 60 implies (#[trigger] g1[r][c])
        != av by {
        if r != y {
            assert(g1[r] == g[r]);
        } else if c != x {
            assert(g1[y][c] == g[y][c]);
        }
    }
}

/// The diamond attempts write nothing but diamonds: a cell holding any
/// other tile kind afterwards held it before.
proof fn lemma_diamonds_avoids(g: Seq<Seq<Tile>>, s: u64, n: int, av: Tile)
    requires
        grid_wf(g),
        av != Tile::Diamond,
    ensures
        forall|y: int, x: int|
            0 <= y < 20 && 0 <= x < 60 && (#[trigger] diamonds_phase(g, s, n).0[y][x]) == av
                ==> g[y][x] == av,
    decreases n,
{
    if n <= 0 {
    } else {
        let hi = range_result(s, 0, 4) as int;
        let s1x = range_state(s, 0, 4);
        let h = height_at(hi);
        let dx = range_result(s1x, 2, 58) as int;
        let (gm, sm) = diamond_step(g, s);
        if g[h][dx] == Tile::Wall && g[h - 1][dx] == Tile::Empty {
            assert(gm == grid_set(g, h - 1, dx, Tile::Diamond));
            lemma_set_cells(g, h - 1, dx, Tile::Diamond);
        } else {
            assert(gm == g);
        }
        lemma_diamonds_avoids(gm, sm, n - 1, av);
        let g1 = diamonds_phase(g, s, n).0;
        assert((g1, diamonds_phase(g, s, n).1) == diamonds_phase(gm, sm, n - 1));
        assert forall|y: int, x: int|
            0 <= y < 20 && 0 <= x < 60 && (#[trigger] g1[y][x]) == av implies g[y][x] == av by {
            assert(gm[y][x] == av);
            if gm != g && !(y == h - 1 && x == dx) {
                if y == h - 1 {
                    assert(gm[y][x] == g[y][x]);
                } else {
                    assert(gm[y] == g[y]);
                }
            }
        }
    }
}

/// Hazard spacing: whatever the seed, no hazard run of the generated level
/// exceeds two cells, runs on one row sit at least three clear cells apart,
/// and no 15-column window holds more than four hazards.
#[verifier::rlimit(100)]
pub proof fn lemma_generate_hazard_spacing(n: u32)
    ensures
        crate::rules::no_long_runs(spec_generate(n)),
        crate::rules::no_short_gaps(spec_generate(n)),
        crate::rules::density_ok(spec_generate(n)),
{
    let gb = boundary_grid();
    let g0 = gen_base();
    let (g1, s1, lm) = gen_platforms(n);
    let (g2, s2, tx) = gen_trophy(n);
    let (g3, s3, ex, ey) = gen_exit(n);
    let (g4, s4) = diamonds_phase(g3, s3, 8);
    let chance: u32 = if n == 1 {
        10
    } else {
        30
    };
    let (g5, s5) = floor_pass(g4, s4, 15, -10, chance);
    let cz = gen_zones(n);
    let (ga, sa) = plat_pass(g5, s5, cz, 16, 5, -10);
    let (gc, sc) = plat_pass(ga, sa, cz, 12, 5, -10);
    let (gd, sd) = plat_pass(gc, sc, cz, 8, 5, -10);
    let gf = plat_pass(gd, sd, cz, 4, 5, -10).0;
    assert(gf == spec_generate(n));
    assert(grid_wf(gb));
    assert(tile_free(gb, Tile::Hazard));
    lemma_fill_cells(gb, 18, 1, 10, Tile::Wall);
    lemma_fill_avoids(gb, 18, 1, 10, Tile::Wall, Tile::Hazard);
    assert(g0 == fill_row_spec(gb, 18, 1, 10, Tile::Wall));
    lemma_landmark_bounds(g0, mix_seed(n), n);
    lemma_platforms_props(g0, mix_seed(n), n);
    lemma_platforms_avoids(g0, mix_seed(n), n, Tile::Hazard);
    lemma_trophy_props(g1, s1, lm.w4 as int);
    lemma_set_avoids(g1, 3, tx, Tile::Trophy, Tile::Hazard);
    assert(g2 == grid_set(g1, 3, tx, Tile::Trophy));
    assert forall|c: int| lm.w1_start <= c < lm.w1 implies (#[trigger] g2[16][c])
        == Tile::Wall by {
        assert(g2[16] == g1[16]);
    }
    assert forall|x0: int| 0 <= x0 < 60 implies (#[trigger] g2[19][x0]) == Tile::Wall by {
        assert(g2[19] == g1[19] && g1[19] == g0[19] && g0[19] == gb[19]);
        assert(gb[19][x0] == Tile::Wall);
    }
    lemma_exit_props(g2, s2, lm);
    lemma_set_avoids(g2, ey, ex, Tile::Exit, Tile::Hazard);
    assert(g3 == grid_set(g2, ey, ex, Tile::Exit));
    lemma_diamonds_avoids(g3, s3, 8, Tile::Hazard);
    assert(tile_free(g4, Tile::Hazard));
    lemma_diamonds_frame(g3, s3, 8);
    lemma_floor_frame(g4, s4, 15, -10, chance);
    lemma_plat_frame(g5, s5, cz, 16, 5, -10);
    lemma_plat_frame(ga, sa, cz, 12, 5, -10);
    lemma_plat_frame(gc, sc, cz, 8, 5, -10);
    lemma_plat_frame(gd, sd, cz, 4, 5, -10);

    crate::spacing::lemma_hazfree_rules(g4[19], -10);
    crate::spacing::lemma_floor_pass_rules(g4, s4, 15, -10, chance);

    assert(ga[19] == g5[19] && gc[19] == ga[19] && gd[19] == gc[19] && gf[19] == gd[19]);
    assert(g5[15] == g4[15] && g5[11] == g4[11] && g5[7] == g4[7] && g5[3] == g4[3]);

    crate::spacing::lemma_hazfree_rules(g5[15], -10);
    crate::spacing::lemma_plat_pass_rules(g5, s5, cz, 16, 5, -10);
    assert(gc[15] == ga[15] && gd[15] == gc[15] && gf[15] == gd[15]);
    assert(ga[11] == g5[11] && ga[7] == g5[7] && ga[3] == g5[3]);

    crate::spacing::lemma_hazfree_rules(ga[11], -10);
    crate::spacing::lemma_plat_pass_rules(ga, sa, cz, 12, 5, -10);
    assert(gd[11] == gc[11] && gf[11] == gd[11]);
    assert(gc[7] == ga[7] && gc[3] == ga[3]);

    crate::spacing::lemma_hazfree_rules(gc[7], -10);
    crate::spacing::lemma_plat_pass_rules(gc, sc, cz, 8, 5, -10);
    assert(gf[7] == gd[7]);
    assert(gd[3] == gc[3]);

    crate::spacing::lemma_hazfree_rules(gd[3], -10);
    crate::spacing::lemma_plat_pass_rules(gd, sd, cz, 4, 5, -10);

    assert forall|y: int, x0: int, nn: int|
        0 <= y < 20 && #[trigger] crate::rules::run_at(gf[y], x0, nn) implies nn <= 2 by {
        if y == 19 || y == 15 || y == 11 || y == 7 || y == 3 {
        } else {
            assert(gf[y] == gd[y] && gd[y] == gc[y] && gc[y] == ga[y] && ga[y] == g5[y] && g5[y]
                == g4[y]);
            assert(crate::spacing::row_hazfree(g4[y]));
            crate::spacing::lemma_hazfree_rules(g4[y], -10);
        }
    }
    assert forall|y: int, e: int, sp: int|
        0 <= y < 20 && #[trigger] crate::rules::gap_at(gf[y], e, sp) implies sp >= 3 by {
        if y == 19 || y == 15 || y == 11 || y == 7 || y == 3 {
        } else {
            assert(gf[y] == gd[y] && gd[y] == gc[y] && gc[y] == ga[y] && ga[y] == g5[y] && g5[y]
                == g4[y]);
            assert(crate::spacing::row_hazfree(g4[y]));
            crate::spacing::lemma_hazfree_rules(g4[y], -10);
        }
    }
    assert forall|y: int, ws: int|
        0 <= y < 20 && 0 <= ws <= 45 implies #[trigger] crate::rules::window_hazards(gf[y], ws, 15)
            <= 4 by {
        if y == 19 || y == 15 || y == 11 || y == 7 || y == 3 {
        } else {
            assert(gf[y] == gd[y] && gd[y] == gc[y] && gc[y] == ga[y] && ga[y] == g5[y] && g5[y]
                == g4[y]);
            assert(crate::spacing::row_hazfree(g4[y]));
            crate::spacing::lemma_hazfree_rules(g4[y], -10);
        }
    }
}

/// Boundary invariant: whatever the seed, the generated level's top row and
/// side columns are wall, and its bottom row is wall or hazard.
pub proof fn lemma_generate_boundary(n: u32)
    ensures
        grid_wf(spec_generate(n)),
        boundary_ok(spec_generate(n)),
{
    lemma_generate_all(n);
}

/// Start safety: whatever the seed, the cell at the player's start tile is
/// empty: no phase ever writes the row above the base platform.
pub proof fn lemma_generate_start_safe(n: u32)
    ensures
        spec_generate(n)[spec_start().1][spec_start().0] == Tile::Empty,
{
    lemma_generate_all(n);
}

/// Support invariant: whatever the seed, the generated level holds its
/// trophy and its exit exactly where the phases placed them, and each sits
/// directly on a wall tile.
pub proof fn lemma_generate_support(n: u32)
    ensures
        ({
            let g = spec_generate(n);
            let (tx, ty) = spec_trophy_pos(n);
            let (ex, ey) = spec_exit_pos(n);
            &&& 1 <= tx < 59 && ty == 3
            &&& 5 <= ex <= 58 && (ey == 15 || ey == 18)
            &&& g[ty][tx] == Tile::Trophy
            &&& g[ty + 1][tx] == Tile::Wall
            &&& g[ey][ex] == Tile::Exit
            &&& g[ey + 1][ex] == Tile::Wall
        }),
{
    lemma_generate_all(n);
}

} // verus!
