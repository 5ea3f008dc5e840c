//! The level rule checker: independent structural checks over a whole grid
//! (boundary integrity, hazard run length, hazard separation, hazard density
//! in a sliding window, platform support under trophy and exit, start-tile
//! safety) plus the two reachability checks. Findings accumulate; nothing
//! short-circuits inside a rule.
use crate::grid::{grid_wf, Grid};
use crate::props::boundary_ok;
use crate::reach::{is_reachable, reachable, safe_at};
use crate::tile::Tile;
use vstd::prelude::*;

verus! {

broadcast use vstd::seq_lib::lemma_seq_contains_after_push;

/// A maximal hazard run: `n` hazards starting at column `x`, bounded by a
/// non-hazard (or the row's edge) on each side.
pub open spec fn run_at(row: Seq<Tile>, x: int, n: int) -> bool {
    &&& 0 <= x
    &&& x + n <= 60
    &&& n >= 1
    &&& (forall|k: int| x <= k < x + n ==> (#[trigger] row[k]) == Tile::Hazard)
    &&& (x == 0 || row[x - 1] != Tile::Hazard)
    &&& (x + n == 60 || row[x + n] != Tile::Hazard)
}

/// A gap of exactly `sp` clear cells between one hazard run and the next:
/// the run's last hazard sits at `e - 1` and the next run starts at `e + sp`.
pub open spec fn gap_at(row: Seq<Tile>, e: int, sp: int) -> bool {
    &&& 1 <= e
    &&& e + sp < 60
    &&& sp >= 1
    &&& row[e - 1] == Tile::Hazard
    &&& (forall|k: int| e <= k < e + sp ==> (#[trigger] row[k]) != Tile::Hazard)
    &&& row[e + sp] == Tile::Hazard
}

/// How many hazards the `n`-column window starting at `ws` holds.
pub open spec fn window_hazards(row: Seq<Tile>, ws: int, n: int) -> int
    decreases n,
{
    if n <= 0 {
        0
    } else {
        window_hazards(row, ws, n - 1) + (if 0 <= ws + n - 1 < 60 && row[ws + n - 1]
            == Tile::Hazard {
            1int
        } else {
            0int
        })
    }
}

/// No hazard run on any row exceeds two cells.
pub open spec fn no_long_runs(g: Seq<Seq<Tile>>) -> bool {
    forall|y: int, x: int, n: int| 0 <= y < 20 && #[trigger] run_at(g[y], x, n) ==> n <= 2
}

/// Hazard runs on one row sit at least three clear cells apart.
pub open spec fn no_short_gaps(g: Seq<Seq<Tile>>) -> bool {
    forall|y: int, e: int, sp: int| 0 <= y < 20 && #[trigger] gap_at(g[y], e, sp) ==> sp >= 3
}

/// No 15-column window on any row holds more than four hazards.
pub open spec fn density_ok(g: Seq<Seq<Tile>>) -> bool {
    forall|y: int, ws: int|
        0 <= y < 20 && 0 <= ws <= 45 ==> #[trigger] window_hazards(g[y], ws, 15) <= 4
}

/// The grid holds at least one tile of the given kind.
pub open spec fn has_tile(g: Seq<Seq<Tile>>, t: Tile) -> bool {
    exists|y: int, x: int| 0 <= y < 20 && 0 <= x < 60 && (#[trigger] g[y][x]) == t
}

/// A pickup at `(x, y)` lacks its supporting wall directly below.
pub open spec fn unsupported(g: Seq<Seq<Tile>>, x: int, y: int) -> bool {
    y + 1 >= 20 || g[y + 1][x] != Tile::Wall
}

/// `p` is the position of `t` that a row-major scan records last: it holds
/// `t` and no later cell does.
pub open spec fn is_last_pos(g: Seq<Seq<Tile>>, t: Tile, p: (int, int)) -> bool {
    &&& 0 <= p.0 < 60
    &&& 0 <= p.1 < 20
    &&& g[p.1][p.0] == t
    &&& forall|y: int, x: int|
        0 <= y < 20 && 0 <= x < 60 && (#[trigger] g[y][x]) == t ==> (y < p.1 || (y == p.1 && x
            <= p.0))
}

/// Every structural rule of the checker, short of reachability.
pub open spec fn structure_ok(g: Seq<Seq<Tile>>, sx: int, sy: int) -> bool {
    &&& has_tile(g, Tile::Trophy)
    &&& has_tile(g, Tile::Exit)
    &&& forall|y: int, x: int|
        0 <= y < 20 && 0 <= x < 60 && ((#[trigger] g[y][x]) == Tile::Trophy || g[y][x]
            == Tile::Exit) ==> !unsupported(g, x, y)
    &&& safe_at(g, sx, sy)
    &&& no_long_runs(g)
    &&& no_short_gaps(g)
    &&& density_ok(g)
    &&& boundary_ok(g)
}

/// A level passes the checker: every structural rule holds, and from the
/// start the trophy is reachable and from the trophy the exit is.
pub open spec fn level_ok(g: Seq<Seq<Tile>>, sx: int, sy: int) -> bool {
    &&& structure_ok(g, sx, sy)
    &&& forall|tp: (int, int), ep: (int, int)|
        #[trigger] is_last_pos(g, Tile::Trophy, tp) && #[trigger] is_last_pos(g, Tile::Exit, ep)
            ==> reachable(g, (sx, sy), tp) && reachable(g, tp, ep)
}

/// One finding of the rule checker, with the coordinates that identify it.
#[derive(Clone, Copy, PartialEq, Eq, Structural, Debug)]
pub enum Finding {
    MissingTrophy,
    MissingExit,
    TrophyUnsupported { x: usize, y: usize },
    ExitUnsupported { x: usize, y: usize },
    UnsafeStart { x: usize, y: usize },
    HazardRun { y: usize, count: usize },
    HazardGap { y: usize, space: usize },
    HazardDensity { y: usize, x: usize },
    TopBoundary { x: usize },
    BottomBoundary { x: usize },
    LeftBoundary { y: usize },
    RightBoundary { y: usize },
    TrophyUnreachable,
    ExitUnreachable,
}

/// Finds the position of `t` that a row-major scan records last.
pub fn find_tile(g: &Grid, t: Tile) -> (r: Option<(usize, usize)>)
    requires
        grid_wf(g@),
    ensures
        match r {
            Some(p) => p.0 < 60 && p.1 < 20 && is_last_pos(g@, t, (p.0 as int, p.1 as int)),
            None => !has_tile(g@, t),
        },
{
    let mut best: Option<(usize, usize)> = None;
    let mut y: usize = 0;
    while y < 20
        invariant
            y <= 20,
            match best {
                Some(p) => {
                    &&& p.0 < 60
                    &&& p.1 < 20
                    &&& (p.1 as int) < y
                    &&& g@[p.1 as int][p.0 as int] == t
                    &&& forall|yy: int, xx: int|
                        0 <= yy < y && 0 <= xx < 60 && (#[trigger] g@[yy][xx]) == t ==> (yy
                            < p.1 as int || (yy == p.1 as int && xx <= p.0 as int))
                },
                None => forall|yy: int, xx: int|
                    0 <= yy < y && 0 <= xx < 60 ==> (#[trigger] g@[yy][xx]) != t,
            },
        decreases 20 - y,
    {
        let mut x: usize = 0;
        while x < 60
            invariant
                x <= 60,
                y < 20,
                match best {
                    Some(p) => {
                        &&& p.0 < 60
                        &&& p.1 < 20
                        &&& (p.1 as int) <= y as int
                        &&& g@[p.1 as int][p.0 as int] == t
                        &&& forall|yy: int, xx: int|
                            0 <= yy < 20 && 0 <= xx < 60 && (yy < y || (yy == y && xx < x)) && (
                            #[trigger] g@[yy][xx]) == t ==> (yy < p.1 as int || (yy == p.1 as int
                                && xx <= p.0 as int))
                    },
                    None => forall|yy: int, xx: int|
                        0 <= yy < 20 && 0 <= xx < 60 && (yy < y || (yy == y && xx < x)) ==> (
                        #[trigger] g@[yy][xx]) != t,
                },
            decreases 60 - x,
        {
            if g.get(y, x) == t {
                best = Some((x, y));
            }
            x += 1;
        }
        y += 1;
    }
    best
}

/// Pushed values stay in a sequence, and the pushed value is in it.
proof fn lemma_push_keeps<T>(s: Seq<T>, e: T)
    ensures
        forall|v: T| s.contains(v) ==> #[trigger] s.push(e).contains(v),
        s.push(e).contains(e),
{
}

/// Collects a finding for every trophy or exit tile that lacks a wall
/// directly below it.
pub fn support_findings(g: &Grid) -> (v: Vec<Finding>)
    requires
        grid_wf(g@),
    ensures
        forall|i: int|
            0 <= i < v@.len() ==> match #[trigger] v@[i] {
                Finding::TrophyUnsupported { x, y } => x < 60 && y < 20 && g@[y as int][x as int]
                    == Tile::Trophy && unsupported(g@, x as int, y as int),
                Finding::ExitUnsupported { x, y } => x < 60 && y < 20 && g@[y as int][x as int]
                    == Tile::Exit && unsupported(g@, x as int, y as int),
                _ => false,
            },
        forall|y: int, x: int|
            0 <= y < 20 && 0 <= x < 60 && (#[trigger] g@[y][x]) == Tile::Trophy && unsupported(
                g@,
                x,
                y,
            ) ==> v@.contains(Finding::TrophyUnsupported { x: x as usize, y: y as usize }),
        forall|y: int, x: int|
            0 <= y < 20 && 0 <= x < 60 && (#[trigger] g@[y][x]) == Tile::Exit && unsupported(
                g@,
                x,
                y,
            ) ==> v@.contains(Finding::ExitUnsupported { x: x as usize, y: y as usize }),
        v@.len() == 0 <==> (forall|y: int, x: int|
            0 <= y < 20 && 0 <= x < 60 && ((#[trigger] g@[y][x]) == Tile::Trophy || g@[y][x]
                == Tile::Exit) ==> !unsupported(g@, x, y)),
{
    let mut v: Vec<Finding> = Vec::new();
    let mut y: usize = 0;
    while y < 20
        invariant
            y <= 20,
            forall|i: int|
                0 <= i < v@.len() ==> match #[trigger] v@[i] {
                    Finding::TrophyUnsupported { x, y } => x < 60 && y < 20 && g@[y as int][x as int]
                        == Tile::Trophy && unsupported(g@, x as int, y as int),
                    Finding::ExitUnsupported { x, y } => x < 60 && y < 20 && g@[y as int][x as int]
                        == Tile::Exit && unsupported(g@, x as int, y as int),
                    _ => false,
                },
            forall|yy: int, xx: int|
                0 <= yy < y && 0 <= xx < 60 && (#[trigger] g@[yy][xx]) == Tile::Trophy
                    && unsupported(g@, xx, yy) ==> v@.contains(
                    Finding::TrophyUnsupported { x: xx as usize, y: yy as usize },
                ),
            forall|yy: int, xx: int|
                0 <= yy < y && 0 <= xx < 60 && (#[trigger] g@[yy][xx]) == Tile::Exit && unsupported(
                    g@,
                    xx,
                    yy,
                ) ==> v@.contains(Finding::ExitUnsupported { x: xx as usize, y: yy as usize }),
        decreases 20 - y,
    {
        let mut x: usize = 0;
        while x < 60
            invariant
                x <= 60,
                y < 20,
                forall|i: int|
                    0 <= i < v@.len() ==> match #[trigger] v@[i] {
                        Finding::TrophyUnsupported { x, y } => x < 60 && y < 20 && g@[y as int][x as int]
                            == Tile::Trophy && unsupported(g@, x as int, y as int),
                        Finding::ExitUnsupported { x, y } => x < 60 && y < 20 && g@[y as int][x as int]
                            == Tile::Exit && unsupported(g@, x as int, y as int),
                        _ => false,
                    },
                forall|yy: int, xx: int|
                    0 <= yy < 20 && 0 <= xx < 60 && (yy < y || (yy == y && xx < x)) && (
                    #[trigger] g@[yy][xx]) == Tile::Trophy && unsupported(g@, xx, yy)
                        ==> v@.contains(
                        Finding::TrophyUnsupported { x: xx as usize, y: yy as usize },
                    ),
                forall|yy: int, xx: int|
                    0 <= yy < 20 && 0 <= xx < 60 && (yy < y || (yy == y && xx < x)) && (
                    #[trigger] g@[yy][xx]) == Tile::Exit && unsupported(g@, xx, yy)
                        ==> v@.contains(Finding::ExitUnsupported { x: xx as usize, y: yy as usize }),
            decreases 60 - x,
        {
            let here = g.get(y, x);
            if here == Tile::Trophy || here == Tile::Exit {
                let lacking = if y + 1 >= 20 {
                    true
                } else {
                    g.get(y + 1, x) != Tile::Wall
                };
                if lacking {
                    if here == Tile::Trophy {
                        v.push(Finding::TrophyUnsupported { x, y });
                    } else {
                        v.push(Finding::ExitUnsupported { x, y });
                    }
                }
            }
            x += 1;
        }
        y += 1;
    }
    proof {
        if v@.len() > 0 {
            assert(match v@[0] {
                Finding::TrophyUnsupported { x, y } => g@[y as int][x as int] == Tile::Trophy
                    && unsupported(g@, x as int, y as int),
                Finding::ExitUnsupported { x, y } => g@[y as int][x as int] == Tile::Exit
                    && unsupported(g@, x as int, y as int),
                _ => false,
            });
        }
    }
    v
}

/// Soundness of one hazard finding: it names a real run or gap.
pub open spec fn hz_sound_one(g: Seq<Seq<Tile>>, f: Finding) -> bool {
    match f {
        Finding::HazardRun { y, count } => y < 20 && count > 2 && (exists|x: int|
            #[trigger] run_at(g[y as int], x, count as int)),
        Finding::HazardGap { y, space } => y < 20 && 1 <= space < 3 && (exists|e: int|
            #[trigger] gap_at(g[y as int], e, space as int)),
        _ => false,
    }
}

/// Soundness of hazard findings: each one names a real run or gap.
pub open spec fn hz_sound(g: Seq<Seq<Tile>>, v: Seq<Finding>) -> bool {
    forall|i: int| 0 <= i < v.len() ==> hz_sound_one(g, #[trigger] v[i])
}

/// A witnessed long run makes its finding sound.
proof fn lemma_run_sound(g: Seq<Seq<Tile>>, y: usize, count: usize, x0: int)
    requires
        y < 20,
        count > 2,
        run_at(g[y as int], x0, count as int),
    ensures
        hz_sound_one(g, Finding::HazardRun { y, count }),
{
    assert(exists|x: int| run_at(g[y as int], x, count as int)) by {
        assert(run_at(g[y as int], x0, count as int));
    }
}

/// A witnessed short gap makes its finding sound.
proof fn lemma_gap_sound(g: Seq<Seq<Tile>>, y: usize, space: usize, e: int)
    requires
        y < 20,
        1 <= space < 3,
        gap_at(g[y as int], e, space as int),
    ensures
        hz_sound_one(g, Finding::HazardGap { y, space }),
{
    assert(exists|e2: int| gap_at(g[y as int], e2, space as int)) by {
        assert(gap_at(g[y as int], e, space as int));
    }
}

/// Scans every row for hazard runs longer than two cells and for runs closer
/// than three cells apart, reporting each with its length or spacing.
#[verifier::spinoff_prover]
#[verifier::rlimit(50)]
pub fn hazard_findings(g: &Grid) -> (v: Vec<Finding>)
    requires
        grid_wf(g@),
    ensures
        hz_sound(g@, v@),
        forall|y: int, x0: int, n: int|
            0 <= y < 20 && #[trigger] run_at(g@[y], x0, n) && n > 2 ==> v@.contains(
                Finding::HazardRun { y: y as usize, count: n as usize },
            ),
        forall|y: int, e: int, sp: int|
            0 <= y < 20 && #[trigger] gap_at(g@[y], e, sp) && sp < 3 ==> v@.contains(
                Finding::HazardGap { y: y as usize, space: sp as usize },
            ),
        v@.len() == 0 <==> (no_long_runs(g@) && no_short_gaps(g@)),
{
    let mut v: Vec<Finding> = Vec::new();
    let mut y: usize = 0;
    while y < 20
        invariant
            y <= 20,
            hz_sound(g@, v@),
            forall|yy: int, x0: int, n: int|
                0 <= yy < y && #[trigger] run_at(g@[yy], x0, n) && n > 2 ==> v@.contains(
                    Finding::HazardRun { y: yy as usize, count: n as usize },
                ),
            forall|yy: int, e: int, sp: int|
                0 <= yy < y && #[trigger] gap_at(g@[yy], e, sp) && sp < 3 ==> v@.contains(
                    Finding::HazardGap { y: yy as usize, space: sp as usize },
                ),
        decreases 20 - y,
    {
        let ghost row = g@[y as int];
        let mut x: usize = 0;
        while x < 60
            invariant
                x <= 60,
                y < 20,
                row == g@[y as int],
                x == 0 || x >= 60 || row[x as int - 1] != Tile::Hazard || row[x as int]
                    != Tile::Hazard,
                hz_sound(g@, v@),
                forall|yy: int, x0: int, n: int|
                    0 <= yy < y && #[trigger] run_at(g@[yy], x0, n) && n > 2 ==> v@.contains(
                        Finding::HazardRun { y: yy as usize, count: n as usize },
                    ),
                forall|yy: int, e: int, sp: int|
                    0 <= yy < y && #[trigger] gap_at(g@[yy], e, sp) && sp < 3 ==> v@.contains(
                        Finding::HazardGap { y: yy as usize, space: sp as usize },
                    ),
                forall|x0: int, n: int|
                    #[trigger] run_at(row, x0, n) && n > 2 && x0 + n <= x ==> v@.contains(
                        Finding::HazardRun { y, count: n as usize },
                    ),
                forall|e: int, sp: int|
                    #[trigger] gap_at(row, e, sp) && sp < 3 && e <= x ==> v@.contains(
                        Finding::HazardGap { y, space: sp as usize },
                    ),
            decreases 60 - x,
        {
            if g.get(y, x) == Tile::Hazard {
                let start = x;
                let mut xx = x + 1;
                while xx < 60 && g.get(y, xx) == Tile::Hazard
                    invariant
                        start < xx <= 60,
                        y < 20,
                        row == g@[y as int],
                        forall|k: int| start <= k < xx ==> (#[trigger] row[k]) == Tile::Hazard,
                    decreases 60 - xx,
                {
                    xx += 1;
                }
                let count = xx - start;
                proof {
                    assert(run_at(row, start as int, count as int));
                }
                if count > 2 {
                    let ghost v_old = v@;
                    proof {
                        lemma_push_keeps(v@, Finding::HazardRun { y, count });
                    }
                    v.push(Finding::HazardRun { y, count });
                    proof {
                        assert(run_at(g@[y as int], start as int, count as int));
                        lemma_run_sound(g@, y, count, start as int);
                        assert forall|i: int| 0 <= i < v@.len() implies hz_sound_one(
                            g@,
                            #[trigger] v@[i],
                        ) by {
                            if i < v@.len() - 1 {
                                assert(v@[i] == v_old[i]);
                            }
                        }
                    }
                }
                let mut j = xx;
                while j < 60 && g.get(y, j) != Tile::Hazard
                    invariant
                        xx <= j <= 60,
                        y < 20,
                        row == g@[y as int],
                        forall|k: int| xx <= k < j ==> (#[trigger] row[k]) != Tile::Hazard,
                    decreases 60 - j,
                {
                    j += 1;
                }
                if j < 60 && j - xx < 3 {
                    let space = j - xx;
                    let ghost v_old = v@;
                    proof {
                        assert(gap_at(row, xx as int, space as int));
                        lemma_push_keeps(v@, Finding::HazardGap { y, space });
                    }
                    v.push(Finding::HazardGap { y, space });
                    proof {
                        assert(gap_at(g@[y as int], xx as int, space as int));
                        lemma_gap_sound(g@, y, space, xx as int);
                        assert forall|i: int| 0 <= i < v@.len() implies hz_sound_one(
                            g@,
                            #[trigger] v@[i],
                        ) by {
                            if i < v@.len() - 1 {
                                assert(v@[i] == v_old[i]);
                            }
                        }
                    }
                }
                proof {
                    assert forall|x0: int, n: int|
                        #[trigger] run_at(row, x0, n) && n > 2 && x0 + n <= xx as int implies
                        v@.contains(Finding::HazardRun { y, count: n as usize }) by {
                        if x0 + n > x as int {
                            assert(x0 + n == xx as int) by {
                                if x0 + n < xx as int {
                                    assert(row[x0 + n] == Tile::Hazard);
                                }
                            }
                            assert(x0 == start as int) by {
                                if x0 > start as int {
                                    assert(row[x0 - 1] == Tile::Hazard);
                                } else if x0 < start as int {
                                    assert(start as int - 1 >= x0 && start as int - 1 < x0 + n);
                                    assert(row[start as int - 1] == Tile::Hazard);
                                    assert(row[start as int] == Tile::Hazard);
                                }
                            }
                        }
                    }
                    assert forall|e: int, sp: int|
                        #[trigger] gap_at(row, e, sp) && sp < 3 && e <= xx as int implies
                        v@.contains(Finding::HazardGap { y, space: sp as usize }) by {
                        if e > x as int {
                            assert(e == xx as int) by {
                                if e < xx as int {
                                    assert(row[e] == Tile::Hazard);
                                }
                            }
                            assert(j < 60 && j as int == e + sp) by {
                                assert(row[e + sp] == Tile::Hazard);
                                if (j as int) < e + sp {
                                    assert(row[j as int] != Tile::Hazard);
                                }
                                if (j as int) > e + sp {
                                    assert(row[e + sp] != Tile::Hazard);
                                }
                            }
                        }
                    }
                }
                x = xx;
            } else {
                proof {
                    assert forall|x0: int, n: int|
                        #[trigger] run_at(row, x0, n) && n > 2 && x0 + n <= x + 1 implies
                        v@.contains(Finding::HazardRun { y, count: n as usize }) by {
                        if x0 + n == x + 1 {
                            assert(row[x as int] == Tile::Hazard);
                        }
                    }
                    assert forall|e: int, sp: int|
                        #[trigger] gap_at(row, e, sp) && sp < 3 && e <= x + 1 implies v@.contains(
                            Finding::HazardGap { y, space: sp as usize },
                        ) by {
                        if e == x + 1 {
                            assert(row[x as int] == Tile::Hazard);
                        }
                    }
                }
                x += 1;
            }
        }
        y += 1;
    }
    proof {
        if v@.len() == 0 {
            assert forall|y: int, x0: int, n: int|
                0 <= y < 20 && #[trigger] run_at(g@[y], x0, n) implies n <= 2 by {
                if n > 2 {
                    assert(v@.contains(Finding::HazardRun { y: y as usize, count: n as usize }));
                }
            }
            assert forall|y: int, e: int, sp: int|
                0 <= y < 20 && #[trigger] gap_at(g@[y], e, sp) implies sp >= 3 by {
                if sp < 3 {
                    assert(v@.contains(Finding::HazardGap { y: y as usize, space: sp as usize }));
                }
            }
        } else {
            assert(hz_sound_one(g@, v@[0]));
            assert(match v@[0] {
                Finding::HazardRun { y, count } => !no_long_runs(g@),
                Finding::HazardGap { y, space } => !no_short_gaps(g@),
                _ => false,
            });
        }
    }
    v
}

/// Counts the hazards in the 15-column window starting at `ws`.
fn window_tally(g: &Grid, y: usize, ws: usize) -> (c: usize)
    requires
        grid_wf(g@),
        y < 20,
        ws <= 45,
    ensures
        c as int == window_hazards(g@[y as int], ws as int, 15),
{
    let mut c: usize = 0;
    let mut i: usize = 0;
    while i < 15
        invariant
            i <= 15,
            c <= i,
            c as int == window_hazards(g@[y as int], ws as int, i as int),
        decreases 15 - i,
    {
        if g.get(y, ws + i) == Tile::Hazard {
            c += 1;
        }
        i += 1;
    }
    c
}

/// Some finding reports an overfull window on row `y`.
pub open spec fn density_reported(v: Seq<Finding>, y: int) -> bool {
    exists|i: int|
        0 <= i < v.len() && ((#[trigger] v[i]) matches Finding::HazardDensity { y: fy, x: fx }
            && fy as int == y)
}

/// Scans every row's 15-column windows for hazard density over four; at most
/// one finding per row, at the leftmost overfull window.
pub fn density_findings(g: &Grid) -> (v: Vec<Finding>)
    requires
        grid_wf(g@),
    ensures
        forall|i: int|
            0 <= i < v@.len() ==> match #[trigger] v@[i] {
                Finding::HazardDensity { y, x } => y < 20 && x <= 45 && window_hazards(
                    g@[y as int],
                    x as int,
                    15,
                ) > 4,
                _ => false,
            },
        forall|y: int, ws: int|
            0 <= y < 20 && 0 <= ws <= 45 && #[trigger] window_hazards(g@[y], ws, 15) > 4
                ==> density_reported(v@, y),
        v@.len() == 0 <==> density_ok(g@),
{
    let mut v: Vec<Finding> = Vec::new();
    let mut y: usize = 0;
    while y < 20
        invariant
            y <= 20,
            forall|i: int|
                0 <= i < v@.len() ==> match #[trigger] v@[i] {
                    Finding::HazardDensity { y, x } => y < 20 && x <= 45 && window_hazards(
                        g@[y as int],
                        x as int,
                        15,
                    ) > 4,
                    _ => false,
                },
            forall|yy: int, ws: int|
                0 <= yy < y && 0 <= ws <= 45 && #[trigger] window_hazards(g@[yy], ws, 15) > 4
                    ==> density_reported(v@, yy),
        decreases 20 - y,
    {
        let mut ws: usize = 0;
        let mut hit = false;
        while ws <= 45 && !hit
            invariant
                ws <= 46,
                y < 20,
                forall|i: int|
                    0 <= i < v@.len() ==> match #[trigger] v@[i] {
                        Finding::HazardDensity { y, x } => y < 20 && x <= 45 && window_hazards(
                            g@[y as int],
                            x as int,
                            15,
                        ) > 4,
                        _ => false,
                    },
                forall|yy: int, ws2: int|
                    0 <= yy < y && 0 <= ws2 <= 45 && #[trigger] window_hazards(g@[yy], ws2, 15) > 4
                        ==> density_reported(v@, yy),
                !hit ==> forall|ws2: int|
                    0 <= ws2 < ws ==> #[trigger] window_hazards(g@[y as int], ws2, 15) <= 4,
                hit ==> density_reported(v@, y as int),
            decreases 46 - ws, (if hit { 0int } else { 1int }),
        {
            let c = window_tally(g, y, ws);
            if c > 4 {
                let ghost v_old = v@;
                v.push(Finding::HazardDensity { y, x: ws });
                proof {
                    assert(v@[v@.len() - 1] == (Finding::HazardDensity { y, x: ws }));
                    assert(density_reported(v@, y as int));
                    assert forall|yy: int, ws2: int|
                        0 <= yy < y && 0 <= ws2 <= 45 && #[trigger] window_hazards(g@[yy], ws2, 15)
                            > 4 implies density_reported(v@, yy) by {
                        let i0 = choose|i: int|
                            0 <= i < v_old.len() && ((#[trigger] v_old[i]) matches
                            Finding::HazardDensity { y: fy, x: fx } && fy as int == yy);
                        assert(v@[i0] == v_old[i0]);
                    }
                }
                hit = true;
            } else {
                ws += 1;
            }
        }
        y += 1;
    }
    proof {
        if v@.len() > 0 {
            assert(match v@[0] {
                Finding::HazardDensity { y, x } => !density_ok(g@),
                _ => false,
            });
        }
    }
    v
}

/// Scans the four boundary lines: the top row and both side columns must be
/// wall, the bottom row wall or hazard.
pub fn boundary_findings(g: &Grid) -> (v: Vec<Finding>)
    requires
        grid_wf(g@),
    ensures
        forall|i: int|
            0 <= i < v@.len() ==> match #[trigger] v@[i] {
                Finding::TopBoundary { x } => x < 60 && g@[0][x as int] != Tile::Wall,
                Finding::BottomBoundary { x } => x < 60 && g@[19][x as int] != Tile::Wall
                    && g@[19][x as int] != Tile::Hazard,
                Finding::LeftBoundary { y } => y < 20 && g@[y as int][0] != Tile::Wall,
                Finding::RightBoundary { y } => y < 20 && g@[y as int][59] != Tile::Wall,
                _ => false,
            },
        forall|x: int|
            0 <= x < 60 && (#[trigger] g@[0][x]) != Tile::Wall ==> v@.contains(
                Finding::TopBoundary { x: x as usize },
            ),
        forall|x: int|
            0 <= x < 60 && (#[trigger] g@[19][x]) != Tile::Wall && g@[19][x] != Tile::Hazard
                ==> v@.contains(Finding::BottomBoundary { x: x as usize }),
        forall|y: int|
            0 <= y < 20 && (#[trigger] g@[y][0]) != Tile::Wall ==> v@.contains(
                Finding::LeftBoundary { y: y as usize },
            ),
        forall|y: int|
            0 <= y < 20 && (#[trigger] g@[y][59]) != Tile::Wall ==> v@.contains(
                Finding::RightBoundary { y: y as usize },
            ),
        v@.len() == 0 <==> boundary_ok(g@),
{
    let mut v: Vec<Finding> = Vec::new();
    let mut x: usize = 0;
    while x < 60
        invariant
            x <= 60,
            forall|i: int|
                0 <= i < v@.len() ==> match #[trigger] v@[i] {
                    Finding::TopBoundary { x } => x < 60 && g@[0][x as int] != Tile::Wall,
                    Finding::BottomBoundary { x } => x < 60 && g@[19][x as int] != Tile::Wall
                        && g@[19][x as int] != Tile::Hazard,
                    _ => false,
                },
            forall|xx: int| 0 <= xx < x && (#[trigger] g@[0][xx]) != Tile::Wall ==> v@.contains(
                Finding::TopBoundary { x: xx as usize },
            ),
            forall|xx: int|
                0 <= xx < x && (#[trigger] g@[19][xx]) != Tile::Wall && g@[19][xx] != Tile::Hazard
                    ==> v@.contains(Finding::BottomBoundary { x: xx as usize }),
        decreases 60 - x,
    {
        if g.get(0, x) != Tile::Wall {
            proof {
                lemma_push_keeps(v@, Finding::TopBoundary { x });
            }
            v.push(Finding::TopBoundary { x });
        }
        if g.get(19, x) != Tile::Wall && g.get(19, x) != Tile::Hazard {
            proof {
                lemma_push_keeps(v@, Finding::BottomBoundary { x });
            }
            v.push(Finding::BottomBoundary { x });
        }
        x += 1;
    }
    let mut y: usize = 0;
    while y < 20
        invariant
            y <= 20,
            forall|i: int|
                0 <= i < v@.len() ==> match #[trigger] v@[i] {
                    Finding::TopBoundary { x } => x < 60 && g@[0][x as int] != Tile::Wall,
                    Finding::BottomBoundary { x } => x < 60 && g@[19][x as int] != Tile::Wall
                        && g@[19][x as int] != Tile::Hazard,
                    Finding::LeftBoundary { y } => y < 20 && g@[y as int][0] != Tile::Wall,
                    Finding::RightBoundary { y } => y < 20 && g@[y as int][59] != Tile::Wall,
                    _ => false,
                },
            forall|xx: int| 0 <= xx < 60 && (#[trigger] g@[0][xx]) != Tile::Wall ==> v@.contains(
                Finding::TopBoundary { x: xx as usize },
            ),
            forall|xx: int|
                0 <= xx < 60 && (#[trigger] g@[19][xx]) != Tile::Wall && g@[19][xx] != Tile::Hazard
                    ==> v@.contains(Finding::BottomBoundary { x: xx as usize }),
            forall|yy: int| 0 <= yy < y && (#[trigger] g@[yy][0]) != Tile::Wall ==> v@.contains(
                Finding::LeftBoundary { y: yy as usize },
            ),
            forall|yy: int| 0 <= yy < y && (#[trigger] g@[yy][59]) != Tile::Wall ==> v@.contains(
                Finding::RightBoundary { y: yy as usize },
            ),
        decreases 20 - y,
    {
        if g.get(y, 0) != Tile::Wall {
            proof {
                lemma_push_keeps(v@, Finding::LeftBoundary { y });
            }
            v.push(Finding::LeftBoundary { y });
        }
        if g.get(y, 59) != Tile::Wall {
            proof {
                lemma_push_keeps(v@, Finding::RightBoundary { y });
            }
            v.push(Finding::RightBoundary { y });
        }
        y += 1;
    }
    proof {
        if v@.len() > 0 {
            assert(match v@[0] {
                Finding::TopBoundary { x } => !boundary_ok(g@),
                Finding::BottomBoundary { x } => !boundary_ok(g@),
                Finding::LeftBoundary { y } => !boundary_ok(g@),
                Finding::RightBoundary { y } => !boundary_ok(g@),
                _ => false,
            });
        }
    }
    v
}

/// Decides whether the start tile is safe to stand in.
pub fn start_safe(g: &Grid, sx: usize, sy: usize) -> (b: bool)
    requires
        grid_wf(g@),
    ensures
        b == safe_at(g@, sx as int, sy as int),
{
    if sx >= 60 || sy >= 20 {
        return false;
    }
    let t = g.get(sy, sx);
    t != Tile::Wall && t != Tile::Hazard
}

/// Every element a pair of appended sequences holds comes from one of the
/// two, and the other way round.
proof fn lemma_append_contains<T>(a: Seq<T>, b: Seq<T>)
    ensures
        forall|x: T| #[trigger] (a + b).contains(x) <==> (a.contains(x) || b.contains(x)),
{
    assert forall|x: T| #[trigger] (a + b).contains(x) implies (a.contains(x) || b.contains(
        x,
    )) by {
        let i = choose|i: int| 0 <= i < (a + b).len() && (a + b)[i] == x;
        if i < a.len() {
            assert(a[i] == x);
        } else {
            assert(b[i - a.len()] == x);
        }
    }
    assert forall|x: T| a.contains(x) || b.contains(x) implies #[trigger] (a + b).contains(x) by {
        if a.contains(x) {
            let i = choose|i: int| 0 <= i < a.len() && a[i] == x;
            assert((a + b)[i] == x);
        } else {
            let i = choose|i: int| 0 <= i < b.len() && b[i] == x;
            assert((a + b)[a.len() + i] == x);
        }
    }
}

/// The checker reports the trophy unreachable: both pickups exist, the
/// start tile lies inside the grid, and no admissible path reaches the
/// trophy the scan recorded.
pub open spec fn trophy_unreachable(g: Seq<Seq<Tile>>, sx: int, sy: int) -> bool {
    &&& 0 <= sx < 60
    &&& 0 <= sy < 20
    &&& has_tile(g, Tile::Exit)
    &&& exists|tp: (int, int)|
        #[trigger] is_last_pos(g, Tile::Trophy, tp) && !reachable(g, (sx, sy), tp)
}

/// The checker reports the exit unreachable: the trophy is reachable from
/// the start but the exit is not reachable from the trophy.
pub open spec fn exit_unreachable(g: Seq<Seq<Tile>>, sx: int, sy: int) -> bool {
    &&& 0 <= sx < 60
    &&& 0 <= sy < 20
    &&& exists|tp: (int, int), ep: (int, int)|
        #[trigger] is_last_pos(g, Tile::Trophy, tp) && #[trigger] is_last_pos(g, Tile::Exit, ep)
            && reachable(g, (sx, sy), tp) && !reachable(g, tp, ep)
}

/// Soundness of one finding of the whole checker: it names a real violation
/// at the coordinates it carries.
pub open spec fn finding_sound(g: Seq<Seq<Tile>>, sx: int, sy: int, f: Finding) -> bool {
    match f {
        Finding::MissingTrophy => !has_tile(g, Tile::Trophy),
        Finding::MissingExit => !has_tile(g, Tile::Exit),
        Finding::TrophyUnsupported { x, y } => x < 60 && y < 20 && g[y as int][x as int]
            == Tile::Trophy && unsupported(g, x as int, y as int),
        Finding::ExitUnsupported { x, y } => x < 60 && y < 20 && g[y as int][x as int]
            == Tile::Exit && unsupported(g, x as int, y as int),
        Finding::UnsafeStart { x, y } => x as int == sx && y as int == sy && !safe_at(g, sx, sy),
        Finding::HazardRun { y, count } => y < 20 && count > 2 && (exists|x: int|
            run_at(g[y as int], x, count as int)),
        Finding::HazardGap { y, space } => y < 20 && 1 <= space < 3 && (exists|e: int|
            gap_at(g[y as int], e, space as int)),
        Finding::HazardDensity { y, x } => y < 20 && x <= 45 && window_hazards(
            g[y as int],
            x as int,
            15,
        ) > 4,
        Finding::TopBoundary { x } => x < 60 && g[0][x as int] != Tile::Wall,
        Finding::BottomBoundary { x } => x < 60 && g[19][x as int] != Tile::Wall && g[19][x as int]
            != Tile::Hazard,
        Finding::LeftBoundary { y } => y < 20 && g[y as int][0] != Tile::Wall,
        Finding::RightBoundary { y } => y < 20 && g[y as int][59] != Tile::Wall,
        Finding::TrophyUnreachable => trophy_unreachable(g, sx, sy),
        Finding::ExitUnreachable => exit_unreachable(g, sx, sy),
    }
}

/// Runs every rule over the grid and the start tile, never short-circuiting
/// inside a rule: the level passes exactly when no finding comes back, every
/// finding names a real violation, every violation is reported, and the
/// existence and reachability findings appear exactly when earned. A start
/// tile outside the grid is itself a reported finding.
#[verifier::rlimit(100)]
#[verifier::spinoff_prover]
pub fn check_level(g: &Grid, sx: usize, sy: usize) -> (v: Vec<Finding>)
    requires
        grid_wf(g@),
    ensures
        v@.len() == 0 <==> level_ok(g@, sx as int, sy as int),
        forall|i: int|
            0 <= i < v@.len() ==> finding_sound(g@, sx as int, sy as int, #[trigger] v@[i]),
        v@.contains(Finding::MissingTrophy) <==> !has_tile(g@, Tile::Trophy),
        v@.contains(Finding::MissingExit) <==> !has_tile(g@, Tile::Exit),
        v@.contains(Finding::UnsafeStart { x: sx, y: sy }) <==> !safe_at(
            g@,
            sx as int,
            sy as int,
        ),
        forall|y: int, x: int|
            0 <= y < 20 && 0 <= x < 60 && (#[trigger] g@[y][x]) == Tile::Trophy && unsupported(
                g@,
                x,
                y,
            ) ==> v@.contains(Finding::TrophyUnsupported { x: x as usize, y: y as usize }),
        forall|y: int, x: int|
            0 <= y < 20 && 0 <= x < 60 && (#[trigger] g@[y][x]) == Tile::Exit && unsupported(
                g@,
                x,
                y,
            ) ==> v@.contains(Finding::ExitUnsupported { x: x as usize, y: y as usize }),
        forall|y: int, x0: int, n: int|
            0 <= y < 20 && #[trigger] run_at(g@[y], x0, n) && n > 2 ==> v@.contains(
                Finding::HazardRun { y: y as usize, count: n as usize },
            ),
        forall|y: int, e: int, sp: int|
            0 <= y < 20 && #[trigger] gap_at(g@[y], e, sp) && sp < 3 ==> v@.contains(
                Finding::HazardGap { y: y as usize, space: sp as usize },
            ),
        forall|y: int, ws: int|
            0 <= y < 20 && 0 <= ws <= 45 && #[trigger] window_hazards(g@[y], ws, 15) > 4
                ==> density_reported(v@, y),
        forall|x: int|
            0 <= x < 60 && (#[trigger] g@[0][x]) != Tile::Wall ==> v@.contains(
                Finding::TopBoundary { x: x as usize },
            ),
        forall|x: int|
            0 <= x < 60 && (#[trigger] g@[19][x]) != Tile::Wall && g@[19][x] != Tile::Hazard
                ==> v@.contains(Finding::BottomBoundary { x: x as usize }),
        forall|y: int|
            0 <= y < 20 && (#[trigger] g@[y][0]) != Tile::Wall ==> v@.contains(
                Finding::LeftBoundary { y: y as usize },
            ),
        forall|y: int|
            0 <= y < 20 && (#[trigger] g@[y][59]) != Tile::Wall ==> v@.contains(
                Finding::RightBoundary { y: y as usize },
            ),
        v@.contains(Finding::TrophyUnreachable) <==> trophy_unreachable(
            g@,
            sx as int,
            sy as int,
        ),
        v@.contains(Finding::ExitUnreachable) <==> exit_unreachable(g@, sx as int, sy as int),
{
    let ghost gv = g@;
    let ghost sxi = sx as int;
    let ghost syi = sy as int;
    let mut v: Vec<Finding> = Vec::new();
    let mut sup = support_findings(g);
    let ghost sup0 = sup@;
    v.append(&mut sup);
    let ghost v1 = v@;
    let tp = find_tile(g, Tile::Trophy);
    let ep = find_tile(g, Tile::Exit);
    if tp.is_none() {
        v.push(Finding::MissingTrophy);
    }
    if ep.is_none() {
        v.push(Finding::MissingExit);
    }
    let safe_start = start_safe(g, sx, sy);
    if !safe_start {
        v.push(Finding::UnsafeStart { x: sx, y: sy });
    }
    let ghost mseq = (if tp is None {
        seq![Finding::MissingTrophy]
    } else {
        Seq::<Finding>::empty()
    }) + (if ep is None {
        seq![Finding::MissingExit]
    } else {
        Seq::<Finding>::empty()
    }) + (if !safe_start {
        seq![Finding::UnsafeStart { x: sx, y: sy }]
    } else {
        Seq::<Finding>::empty()
    });
    proof {
        assert(v@ =~= v1 + mseq);
    }
    let ghost v2 = v@;
    let mut hz = hazard_findings(g);
    let ghost hz0 = hz@;
    v.append(&mut hz);
    let ghost v3 = v@;
    let mut dn = density_findings(g);
    let ghost dn0 = dn@;
    v.append(&mut dn);
    let ghost v4 = v@;
    let mut bd = boundary_findings(g);
    let ghost bd0 = bd@;
    v.append(&mut bd);
    let ghost v5 = v@;
    let mut reach_start = false;
    let mut reach_exit = false;
    let mut pushed_tu = false;
    let mut pushed_eu = false;
    if sx < 60 && sy < 20 {
        if let (Some(t), Some(e)) = (tp, ep) {
            reach_start = is_reachable(g, (sx, sy), t);
            if !reach_start {
                v.push(Finding::TrophyUnreachable);
                pushed_tu = true;
            } else {
                reach_exit = is_reachable(g, t, e);
                if !reach_exit {
                    v.push(Finding::ExitUnreachable);
                    pushed_eu = true;
                }
            }
        }
    }
    let ghost rseq = (if pushed_tu {
        seq![Finding::TrophyUnreachable]
    } else {
        Seq::<Finding>::empty()
    }) + (if pushed_eu {
        seq![Finding::ExitUnreachable]
    } else {
        Seq::<Finding>::empty()
    });
    proof {
        assert(v@ =~= v5 + rseq);
        lemma_append_contains(v1, mseq);
        lemma_append_contains(v2, hz0);
        lemma_append_contains(v3, dn0);
        lemma_append_contains(v4, bd0);
        lemma_append_contains(v5, rseq);
        assert(v1 == sup0 && v2 == v1 + mseq && v3 == v2 + hz0 && v4 == v3 + dn0 && v5 == v4
            + bd0);
        assert forall|f: Finding| #[trigger] v@.contains(f) implies (sup0.contains(f)
            || mseq.contains(f) || hz0.contains(f) || dn0.contains(f) || bd0.contains(f)
            || rseq.contains(f)) by {}
        assert forall|f: Finding|
            sup0.contains(f) || mseq.contains(f) || hz0.contains(f) || dn0.contains(f)
                || bd0.contains(f) || rseq.contains(f) implies #[trigger] v@.contains(f) by {}
        // what each part may hold
        assert forall|f: Finding| #[trigger] mseq.contains(f) implies (f == Finding::MissingTrophy
            && tp is None) || (f == Finding::MissingExit && ep is None) || (f
            == (Finding::UnsafeStart { x: sx, y: sy }) && !safe_start) by {}
        assert forall|f: Finding| #[trigger] rseq.contains(f) implies (f
            == Finding::TrophyUnreachable && pushed_tu) || (f == Finding::ExitUnreachable
            && pushed_eu) by {}
        // the reachability findings, both directions
        let ghost tu = trophy_unreachable(gv, sxi, syi);
        let ghost eu = exit_unreachable(gv, sxi, syi);
        if pushed_tu {
            let t = tp.unwrap();
            let ti = (t.0 as int, t.1 as int);
            assert(is_last_pos(gv, Tile::Trophy, ti) && !reachable(gv, (sxi, syi), ti));
            let e = ep.unwrap();
            assert(gv[e.1 as int][e.0 as int] == Tile::Exit);
            assert(tu);
        }
        if pushed_eu {
            let t = tp.unwrap();
            let e = ep.unwrap();
            let ti = (t.0 as int, t.1 as int);
            let ei = (e.0 as int, e.1 as int);
            assert(is_last_pos(gv, Tile::Trophy, ti) && is_last_pos(gv, Tile::Exit, ei)
                && reachable(gv, (sxi, syi), ti) && !reachable(gv, ti, ei));
            assert(eu);
        }
        if tu && !pushed_tu {
            let tw = choose|tw: (int, int)|
                #[trigger] is_last_pos(gv, Tile::Trophy, tw) && !reachable(gv, (sxi, syi), tw);
            assert(tp is Some) by {
                assert(gv[tw.1][tw.0] == Tile::Trophy);
            }
            assert(ep is Some) by {
                if ep is None {
                    let (y0, x0) = choose|y0: int, x0: int|
                        0 <= y0 < 20 && 0 <= x0 < 60 && (#[trigger] gv[y0][x0]) == Tile::Exit;
                }
            }
            let t = tp.unwrap();
            let ti = (t.0 as int, t.1 as int);
            assert(tw == ti) by {
                assert(gv[tw.1][tw.0] == Tile::Trophy);
                assert(gv[ti.1][ti.0] == Tile::Trophy);
            }
            assert(reach_start);
            assert(false);
        }
        if eu && !pushed_eu {
            let (tw, ew) = choose|tw: (int, int), ew: (int, int)|
                #[trigger] is_last_pos(gv, Tile::Trophy, tw) && #[trigger] is_last_pos(
                    gv,
                    Tile::Exit,
                    ew,
                ) && reachable(gv, (sxi, syi), tw) && !reachable(gv, tw, ew);
            assert(tp is Some) by {
                assert(gv[tw.1][tw.0] == Tile::Trophy);
            }
            assert(ep is Some) by {
                assert(gv[ew.1][ew.0] == Tile::Exit);
            }
            let t = tp.unwrap();
            let e = ep.unwrap();
            let ti = (t.0 as int, t.1 as int);
            let ei = (e.0 as int, e.1 as int);
            assert(tw == ti) by {
                assert(gv[tw.1][tw.0] == Tile::Trophy);
                assert(gv[ti.1][ti.0] == Tile::Trophy);
            }
            assert(ew == ei) by {
                assert(gv[ew.1][ew.0] == Tile::Exit);
                assert(gv[ei.1][ei.0] == Tile::Exit);
            }
            assert(!pushed_tu && reach_start);
            assert(reach_exit);
            assert(false);
        }
        // soundness of every element
        assert forall|i: int|
            0 <= i < v@.len() implies finding_sound(gv, sxi, syi, #[trigger] v@[i]) by {
            let f = v@[i];
            assert(v@.contains(f));
            if sup0.contains(f) {
                let j = choose|j: int| 0 <= j < sup0.len() && sup0[j] == f;
            } else if hz0.contains(f) {
                let j = choose|j: int| 0 <= j < hz0.len() && hz0[j] == f;
                assert(hz_sound_one(gv, f));
            } else if dn0.contains(f) {
                let j = choose|j: int| 0 <= j < dn0.len() && dn0[j] == f;
            } else if bd0.contains(f) {
                let j = choose|j: int| 0 <= j < bd0.len() && bd0[j] == f;
            }
        }
        // the existence and start findings, both directions
        assert(v@.contains(Finding::MissingTrophy) <==> !has_tile(gv, Tile::Trophy)) by {
            if v@.contains(Finding::MissingTrophy) {
                assert(finding_sound(gv, sxi, syi, Finding::MissingTrophy));
            }
            if !has_tile(gv, Tile::Trophy) {
                assert(mseq.contains(Finding::MissingTrophy)) by {
                    assert(tp is None);
                    assert(mseq[0] == Finding::MissingTrophy);
                }
            }
        }
        assert(v@.contains(Finding::MissingExit) <==> !has_tile(gv, Tile::Exit)) by {
            if v@.contains(Finding::MissingExit) {
                assert(finding_sound(gv, sxi, syi, Finding::MissingExit));
            }
            if !has_tile(gv, Tile::Exit) {
                assert(ep is None);
                let ghost off: int = if tp is None {
                    1
                } else {
                    0
                };
                assert(mseq[off] == Finding::MissingExit);
                assert(mseq.contains(Finding::MissingExit));
            }
        }
        assert(v@.contains(Finding::UnsafeStart { x: sx, y: sy }) <==> !safe_at(gv, sxi, syi)) by {
            if v@.contains(Finding::UnsafeStart { x: sx, y: sy }) {
                assert(finding_sound(gv, sxi, syi, Finding::UnsafeStart { x: sx, y: sy }));
            }
            if !safe_at(gv, sxi, syi) {
                assert(!safe_start);
                assert(mseq.last() == (Finding::UnsafeStart { x: sx, y: sy }));
                assert(mseq.contains(Finding::UnsafeStart { x: sx, y: sy }));
            }
        }
        // density completeness carries over through the appends
        assert forall|y: int, ws: int|
            0 <= y < 20 && 0 <= ws <= 45 && #[trigger] window_hazards(gv[y], ws, 15) > 4 implies
            density_reported(v@, y) by {
            let j = choose|j: int|
                0 <= j < dn0.len() && ((#[trigger] dn0[j]) matches Finding::HazardDensity {
                    y: fy,
                    x: fx,
                } && fy as int == y);
            assert(v@.contains(dn0[j]));
            let k = choose|k: int| 0 <= k < v@.len() && v@[k] == dn0[j];
        }
        // the level passes exactly when nothing was collected
        if v@.len() == 0 {
            assert(sup0.len() == 0 && mseq.len() == 0 && hz0.len() == 0 && dn0.len() == 0
                && bd0.len() == 0 && rseq.len() == 0);
            assert(tp is Some && ep is Some && safe_start);
            let t = tp.unwrap();
            let e = ep.unwrap();
            let ti = (t.0 as int, t.1 as int);
            let ei = (e.0 as int, e.1 as int);
            assert(has_tile(gv, Tile::Trophy)) by {
                assert(gv[ti.1][ti.0] == Tile::Trophy);
            }
            assert(has_tile(gv, Tile::Exit)) by {
                assert(gv[ei.1][ei.0] == Tile::Exit);
            }
            assert(reach_start && reach_exit);
            assert forall|tp2: (int, int), ep2: (int, int)|
                #[trigger] is_last_pos(gv, Tile::Trophy, tp2) && #[trigger] is_last_pos(
                    gv,
                    Tile::Exit,
                    ep2,
                ) implies reachable(gv, (sxi, syi), tp2) && reachable(gv, tp2, ep2) by {
                assert(tp2 == ti) by {
                    assert(gv[tp2.1][tp2.0] == Tile::Trophy);
                    assert(gv[ti.1][ti.0] == Tile::Trophy);
                }
                assert(ep2 == ei) by {
                    assert(gv[ep2.1][ep2.0] == Tile::Exit);
                    assert(gv[ei.1][ei.0] == Tile::Exit);
                }
            }
        }
        if level_ok(gv, sxi, syi) {
            assert(sup0.len() == 0);
            assert(hz0.len() == 0);
            assert(dn0.len() == 0);
            assert(bd0.len() == 0);
            assert(safe_start);
            assert(tp is Some) by {
                if tp is None {
                    let (y0, x0) = choose|y0: int, x0: int|
                        0 <= y0 < 20 && 0 <= x0 < 60 && (#[trigger] gv[y0][x0]) == Tile::Trophy;
                }
            }
            assert(ep is Some) by {
                if ep is None {
                    let (y0, x0) = choose|y0: int, x0: int|
                        0 <= y0 < 20 && 0 <= x0 < 60 && (#[trigger] gv[y0][x0]) == Tile::Exit;
                }
            }
            let t = tp.unwrap();
            let e = ep.unwrap();
            assert(is_last_pos(gv, Tile::Trophy, (t.0 as int, t.1 as int)));
            assert(is_last_pos(gv, Tile::Exit, (e.0 as int, e.1 as int)));
            assert(reach_start && reach_exit);
            assert(mseq.len() == 0 && rseq.len() == 0);
            assert(v@.len() == 0);
        }
    }
    v
}

} // verus!