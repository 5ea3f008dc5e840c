//! The hazard-spacing law, row by row: each hazard pass of the generator
//! keeps runs at two cells or less, runs at least three cells apart, and at
//! most four hazards in any 15-column window. The public statement over
//! whole generated levels stands beside the other laws.
use crate::grid::grid_wf;
use crate::levelgen::{
    fill_row_spec, floor_actual, floor_pass, plat_actual, plat_ok, plat_pass, sat_sub,
    window_count, window_violation, CriticalZones,
};
use crate::rng::{range_result, range_state};
use crate::rules::{gap_at, run_at, window_hazards};
use crate::tile::Tile;
use vstd::prelude::*;

verus! {

/// No run of the row exceeds two hazards.
pub open spec fn row_runs_ok(row: Seq<Tile>) -> bool {
    forall|x0: int, n: int| #[trigger] run_at(row, x0, n) ==> n <= 2
}

/// Runs of the row sit at least three clear cells apart.
pub open spec fn row_gaps_ok(row: Seq<Tile>) -> bool {
    forall|e: int, sp: int| #[trigger] gap_at(row, e, sp) ==> sp >= 3
}

/// No 15-column window of the row holds more than four hazards.
pub open spec fn row_density_ok(row: Seq<Tile>) -> bool {
    forall|ws: int| 0 <= ws <= 45 ==> #[trigger] window_hazards(row, ws, 15) <= 4
}

/// Every hazard of the row sits at or before column `le`.
pub open spec fn row_hazard_bound(row: Seq<Tile>, le: int) -> bool {
    forall|c: int| 0 <= c < 60 && (#[trigger] row[c]) == Tile::Hazard ==> c <= le
}

/// The row holds no hazard at all.
pub open spec fn row_hazfree(row: Seq<Tile>) -> bool {
    forall|c: int| 0 <= c < 60 ==> (#[trigger] row[c]) != Tile::Hazard
}

/// A window over a hazard-free row counts nothing.
proof fn lemma_hazfree_window(row: Seq<Tile>, ws: int, n: int)
    requires
        row_hazfree(row),
    ensures
        window_hazards(row, ws, n) == 0,
    decreases n,
{
    if n > 0 {
        lemma_hazfree_window(row, ws, n - 1);
    }
}

/// A hazard-free row satisfies every spacing rule, with any hazard bound.
pub proof fn lemma_hazfree_rules(row: Seq<Tile>, le: int)
    requires
        row_hazfree(row),
    ensures
        row_runs_ok(row),
        row_gaps_ok(row),
        row_density_ok(row),
        row_hazard_bound(row, le),
{
    assert forall|x0: int, n: int| #[trigger] run_at(row, x0, n) implies n <= 2 by {
        assert(row[x0] == Tile::Hazard);
    }
    assert forall|e: int, sp: int| #[trigger] gap_at(row, e, sp) implies sp >= 3 by {
        assert(row[e - 1] == Tile::Hazard);
    }
    assert forall|ws: int| 0 <= ws <= 45 implies #[trigger] window_hazards(row, ws, 15) <= 4 by {
        lemma_hazfree_window(row, ws, 15);
    }
}

/// A window splits into its first cell and the rest.
proof fn lemma_window_head(row: Seq<Tile>, ws: int, n: int)
    requires
        n >= 1,
    ensures
        window_hazards(row, ws, n) == (if 0 <= ws < 60 && row[ws] == Tile::Hazard {
            1int
        } else {
            0int
        }) + window_hazards(row, ws + 1, n - 1),
    decreases n,
{
    if n == 1 {
        assert(window_hazards(row, ws, 1) == window_hazards(row, ws, 0) + (if 0 <= ws < 60
            && row[ws] == Tile::Hazard {
            1int
        } else {
            0int
        }));
        assert(window_hazards(row, ws, 0) == 0);
        assert(window_hazards(row, ws + 1, 0) == 0);
    } else {
        lemma_window_head(row, ws, n - 1);
        assert(window_hazards(row, ws, n) == window_hazards(row, ws, n - 1) + (if 0 <= ws + n - 1
            < 60 && row[ws + n - 1] == Tile::Hazard {
            1int
        } else {
            0int
        }));
        assert(window_hazards(row, ws + 1, n - 1) == window_hazards(row, ws + 1, n - 2) + (
        if 0 <= ws + n - 1 < 60 && row[ws + n - 1] == Tile::Hazard {
            1int
        } else {
            0int
        }));
    }
}

/// Two rows that agree on a window give it the same count.
proof fn lemma_window_same(rowa: Seq<Tile>, rowb: Seq<Tile>, ws: int, n: int)
    requires
        forall|c: int| ws <= c < ws + n && 0 <= c < 60 ==> rowa[c] == (#[trigger] rowb[c]),
    ensures
        window_hazards(rowa, ws, n) == window_hazards(rowb, ws, n),
    decreases n,
{
    if n > 0 {
        lemma_window_same(rowa, rowb, ws, n - 1);
    }
}

/// The proposed-block count of the generator equals the plain hazard count
/// of the row with the block actually stamped.
proof fn lemma_fillcount(g: Seq<Seq<Tile>>, y: int, x: int, sz: int, ws: int, n: int)
    requires
        grid_wf(g),
        0 <= y < 20,
        0 <= x,
        x + sz <= 60,
        ws >= 0,
    ensures
        window_count(g, y, x, sz, ws, n) == window_hazards(
            fill_row_spec(g, y, x, x + sz, Tile::Hazard)[y],
            ws,
            n,
        ),
    decreases n,
{
    if n > 0 {
        lemma_fillcount(g, y, x, sz, ws, n - 1);
        let row2 = fill_row_spec(g, y, x, x + sz, Tile::Hazard)[y];
        let c = ws + n - 1;
        assert(window_count(g, y, x, sz, ws, n) == window_count(g, y, x, sz, ws, n - 1) + (
        if c < 60 && ((x <= c < x + sz) || g[y][c] == Tile::Hazard) {
            1int
        } else {
            0int
        }));
        lemma_window_tail(row2, ws, n);
        if 0 <= c < 60 {
            assert(row2[c] == (if x <= c < x + sz {
                Tile::Hazard
            } else {
                g[y][c]
            }));
            assert((c < 60 && ((x <= c < x + sz) || g[y][c] == Tile::Hazard)) == (0 <= c < 60
                && row2[c] == Tile::Hazard));
        }
    }
}

/// Committing a checked block of one or two hazards, at least four columns
/// past the previous block, preserves every spacing rule of the row.
proof fn lemma_commit_rules(row: Seq<Tile>, row2: Seq<Tile>, x: int, act: int, le: int)
    requires
        row.len() == 60,
        row2.len() == 60,
        1 <= act <= 2,
        0 <= x,
        x + act <= 60,
        le <= x - 4,
        forall|c: int| 0 <= c < 60 && !(x <= c < x + act) ==> (#[trigger] row2[c]) == row[c],
        forall|c: int| x <= c < x + act ==> (#[trigger] row2[c]) == Tile::Hazard,
        row_hazard_bound(row, le),
        row_runs_ok(row),
        row_gaps_ok(row),
        row_density_ok(row),
        forall|ws: int|
            sat_sub(x + act, 15) <= ws <= x ==> #[trigger] window_hazards(row2, ws, 15) <= 4,
    ensures
        row_runs_ok(row2),
        row_gaps_ok(row2),
        row_density_ok(row2),
        row_hazard_bound(row2, x + act - 1),
{
    assert forall|c: int| 0 <= c < 60 && (#[trigger] row2[c]) == Tile::Hazard implies c <= x + act
        - 1 by {
        if !(x <= c < x + act) {
            assert(row[c] == Tile::Hazard);
        }
    }
    assert forall|x0: int, n: int| #[trigger] run_at(row2, x0, n) implies n <= 2 by {
        if x0 < x {
            assert(row2[x0] == row[x0]);
            assert(x0 <= le);
            if x0 + n - 1 > le {
                assert(le + 1 < x);
                assert(x0 <= le + 1 < x0 + n);
                assert(row2[le + 1] == row[le + 1]);
                assert(row2[le + 1] == Tile::Hazard);
            }
            assert(x0 + n - 1 <= le);
            assert(run_at(row, x0, n)) by {
                assert forall|k: int| x0 <= k < x0 + n implies (#[trigger] row[k])
                    == Tile::Hazard by {
                    assert(row2[k] == row[k]);
                }
                if x0 > 0 {
                    assert(row[x0 - 1] == row2[x0 - 1]);
                }
                assert(row[x0 + n] == row2[x0 + n]);
            }
        } else {
            if x0 >= x + act {
                assert(row2[x0] == row[x0]);
                assert(x0 <= le);
            }
            assert(x <= x0 < x + act);
            if x0 + n > x + act {
                assert(x0 <= x + act < x0 + n);
                assert(row2[x + act] == Tile::Hazard);
                assert(x + act < 60 || x0 + n > 60);
                if x + act < 60 {
                    assert(row2[x + act] == row[x + act]);
                    assert(x + act <= le);
                }
            }
            assert(x0 + n <= x + act);
        }
    }
    assert forall|e: int, sp: int| #[trigger] gap_at(row2, e, sp) implies sp >= 3 by {
        if sp < 3 {
            let a = e - 1;
            let b = e + sp;
            assert(row2[a] == Tile::Hazard && row2[b] == Tile::Hazard);
            if b < x {
                assert(gap_at(row, e, sp)) by {
                    assert forall|k: int| e <= k < e + sp implies (#[trigger] row[k])
                        != Tile::Hazard by {
                        assert(row[k] == row2[k]);
                    }
                    assert(row[a] == row2[a] && row[b] == row2[b]);
                }
            } else {
                // the later hazard lies in the new block, the earlier one
                // cannot sit close enough on either side
                assert(x <= b < x + act) by {
                    if b >= x + act {
                        assert(row2[b] == row[b]);
                        assert(b <= le);
                    }
                }
                if a < x {
                    assert(row2[a] == row[a]);
                    assert(a <= le);
                    assert(b - a >= 4);
                } else {
                    assert(x <= a < x + act);
                    assert(e <= a + 1 <= b - 1);
                    if a + 1 < b {
                        assert(x <= a + 1 < x + act);
                        assert(row2[a + 1] == Tile::Hazard);
                        assert(row2[a + 1] != Tile::Hazard);
                    }
                }
            }
        }
    }
    assert forall|ws: int| 0 <= ws <= 45 implies #[trigger] window_hazards(row2, ws, 15) <= 4 by {
        if sat_sub(x + act, 15) <= ws <= x {
        } else if ws > x {
            if ws >= x + act {
                lemma_window_same(row2, row, ws, 15);
            } else {
                // only possible when the block has two cells and the window
                // starts right inside it
                assert(act == 2 && ws == x + 1);
                lemma_window_head(row2, x, 15);
                lemma_window_head(row2, x + 1, 15);
                assert(window_hazards(row2, x, 15) == 1 + window_hazards(row2, x + 1, 14));
                assert(window_hazards(row2, x + 1, 15) == window_hazards(row2, x + 1, 14) + (
                if 0 <= x + 16 < 60 && row2[x + 16] == Tile::Hazard {
                    1int
                } else {
                    0int
                })) by {
                    lemma_window_tail(row2, x + 1, 15);
                }
                assert(window_hazards(row2, x, 15) <= 4);
                if 0 <= x + 16 < 60 && row2[x + 16] == Tile::Hazard {
                    assert(row2[x + 16] == row[x + 16]);
                    assert(x + 16 <= le);
                }
            }
        } else {
            // the window ends at or before the block; only the window one
            // step left of the checked range can still touch the block
            assert(ws < sat_sub(x + act, 15));
            if ws + 15 <= x {
                lemma_window_same(row2, row, ws, 15);
            } else {
                assert(x + act > 15);
                assert(ws == x - 14 && act == 2);
                lemma_window_head(row2, x - 14, 15);
                lemma_window_head(row2, x - 13, 15);
                assert(window_hazards(row2, x - 14, 15) == (if row2[x - 14] == Tile::Hazard {
                    1int
                } else {
                    0int
                }) + window_hazards(row2, x - 13, 14));
                assert(window_hazards(row2, x - 13, 15) == window_hazards(row2, x - 13, 14) + (
                if 0 <= x + 1 < 60 && row2[x + 1] == Tile::Hazard {
                    1int
                } else {
                    0int
                })) by {
                    lemma_window_tail(row2, x - 13, 15);
                }
                assert(row2[x + 1] == Tile::Hazard);
                assert(window_hazards(row2, x - 13, 15) <= 4);
            }
        }
    }
}

/// The floor-hazard pass keeps the bottom row inside the spacing rules, and
/// its hazards behind the running block end.
pub proof fn lemma_floor_pass_rules(g: Seq<Seq<Tile>>, s: u64, x: int, le: int, ch: u32)
    requires
        grid_wf(g),
        15 <= x <= 50,
        le <= x + 1,
        row_hazard_bound(g[19], le),
        row_runs_ok(g[19]),
        row_gaps_ok(g[19]),
        row_density_ok(g[19]),
    ensures
        ({
            let (g1, s1) = floor_pass(g, s, x, le, ch);
            &&& row_runs_ok(g1[19])
            &&& row_gaps_ok(g1[19])
            &&& row_density_ok(g1[19])
        }),
    decreases 50 - x,
{
    if x >= 50 {
    } else if !(x % 10 != 0) || x - le < 4 {
        lemma_floor_pass_rules(g, s, x + 1, le, ch);
    } else {
        let roll = range_result(s, 0, 100);
        let s1 = range_state(s, 0, 100);
        if roll < ch {
            let c = range_result(s1, 0, 2);
            let s2 = range_state(s1, 0, 2);
            let size: int = if c == 0 {
                1
            } else {
                2
            };
            let act = floor_actual(x, size);
            if act > 0 && !window_violation(g, 19, x, act) {
                let gg = fill_row_spec(g, 19, x, x + act, Tile::Hazard);
                assert(x + act <= 51);
                assert(gg[19].len() == 60);
                assert forall|ws: int|
                    sat_sub(x + act, 15) <= ws <= x implies #[trigger] window_hazards(
                    gg[19],
                    ws,
                    15,
                ) <= 4 by {
                    lemma_fillcount(g, 19, x, act, ws, 15);
                    assert(window_count(g, 19, x, act, ws, 15) <= 4);
                }
                lemma_commit_rules(g[19], gg[19], x, act, le);
                assert(grid_wf(gg));
                lemma_floor_pass_rules(gg, s2, x + 1, x + act - 1, ch);
            } else {
                lemma_floor_pass_rules(g, s2, x + 1, le, ch);
            }
        } else {
            lemma_floor_pass_rules(g, s1, x + 1, le, ch);
        }
    }
}

/// A platform-hazard pass keeps its row inside the spacing rules.
pub proof fn lemma_plat_pass_rules(
    g: Seq<Seq<Tile>>,
    s: u64,
    cz: CriticalZones,
    h: int,
    x: int,
    le: int,
)
    requires
        grid_wf(g),
        1 <= h < 20,
        5 <= x <= 55,
        le <= x + 1,
        row_hazard_bound(g[h - 1], le),
        row_runs_ok(g[h - 1]),
        row_gaps_ok(g[h - 1]),
        row_density_ok(g[h - 1]),
    ensures
        ({
            let (g1, s1) = plat_pass(g, s, cz, h, x, le);
            &&& row_runs_ok(g1[h - 1])
            &&& row_gaps_ok(g1[h - 1])
            &&& row_density_ok(g1[h - 1])
        }),
    decreases 55 - x,
{
    if x >= 55 {
    } else if !plat_ok(g, cz, h, x) || x - le < 4 {
        lemma_plat_pass_rules(g, s, cz, h, x + 1, le);
    } else {
        let roll = range_result(s, 0, 100);
        let s1 = range_state(s, 0, 100);
        if roll < 15 {
            let c = range_result(s1, 0, 2);
            let s2 = range_state(s1, 0, 2);
            let size: int = if c == 0 {
                1
            } else {
                2
            };
            let act = plat_actual(g, cz, h, x, size);
            if act > 0 && !window_violation(g, h - 1, x, act) {
                let gg = fill_row_spec(g, h - 1, x, x + act, Tile::Hazard);
                assert(x + act <= 56);
                assert(gg[h - 1].len() == 60);
                assert forall|ws: int|
                    sat_sub(x + act, 15) <= ws <= x implies #[trigger] window_hazards(
                    gg[h - 1],
                    ws,
                    15,
                ) <= 4 by {
                    lemma_fillcount(g, h - 1, x, act, ws, 15);
                    assert(window_count(g, h - 1, x, act, ws, 15) <= 4);
                }
                lemma_commit_rules(g[h - 1], gg[h - 1], x, act, le);
                assert(grid_wf(gg));
                lemma_plat_pass_rules(gg, s2, cz, h, x + 1, x + act - 1);
            } else {
                lemma_plat_pass_rules(g, s2, cz, h, x + 1, le);
            }
        } else {
            lemma_plat_pass_rules(g, s1, cz, h, x + 1, le);
        }
    }
}

/// A window splits into the rest and its last cell.
proof fn lemma_window_tail(row: Seq<Tile>, ws: int, n: int)
    requires
        n >= 1,
    ensures
        window_hazards(row, ws, n) == window_hazards(row, ws, n - 1) + (if 0 <= ws + n - 1 < 60
            && row[ws + n - 1] == Tile::Hazard {
            1int
        } else {
            0int
        }),
{
}

} // verus!
