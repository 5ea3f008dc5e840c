//! The reachability validator: a breadth-first search over the movement
//! envelope of a jump-capable agent (walk, fall, parabolic jump), proved to
//! decide exactly whether a path of admissible moves exists.
use crate::grid::{grid_wf, Grid};
use crate::tile::Tile;
use std::collections::VecDeque;
use vstd::prelude::*;
use vstd::set_lib::set_int_range;

verus! {

/// A tile an agent may occupy: inside the grid and neither wall nor hazard.
pub open spec fn safe_at(g: Seq<Seq<Tile>>, x: int, y: int) -> bool {
    &&& 0 <= x < 60
    &&& 0 <= y < 20
    &&& g[y][x] != Tile::Wall
    &&& g[y][x] != Tile::Hazard
}

/// Standing on solid ground: a wall directly below.
pub open spec fn on_ground(g: Seq<Seq<Tile>>, x: int, y: int) -> bool {
    y + 1 < 20 && g[y + 1][x] == Tile::Wall
}

/// The horizontal half-width of the jump envelope at each rise.
pub open spec fn jump_reach(dy: int) -> int {
    if dy == 1 {
        5
    } else if dy == 2 {
        8
    } else if dy == 3 {
        10
    } else if dy == 4 {
        12
    } else {
        0
    }
}

/// One admissible move from `a` to `b`: a sideways walk, a one-row fall
/// (straight or diagonal) when airborne, or a jump landing inside the
/// envelope when grounded. The landing cell must always be safe.
pub open spec fn step_p(g: Seq<Seq<Tile>>, a: (int, int), b: (int, int)) -> bool {
    &&& 0 <= a.0 < 60
    &&& 0 <= a.1 < 20
    &&& safe_at(g, b.0, b.1)
    &&& {
        ||| (b.1 == a.1 && (b.0 == a.0 - 1 || b.0 == a.0 + 1))
        ||| (!on_ground(g, a.0, a.1) && b.1 == a.1 + 1 && a.0 - 1 <= b.0 <= a.0 + 1)
        ||| (on_ground(g, a.0, a.1) && 1 <= a.1 - b.1 <= 4 && b.0 - a.0 <= jump_reach(a.1 - b.1)
            && a.0 - b.0 <= jump_reach(a.1 - b.1))
    }
}

/// A sequence of positions in which each one is an admissible move from the
/// one before.
pub open spec fn is_path(g: Seq<Seq<Tile>>, p: Seq<(int, int)>) -> bool {
    forall|i: int| #![trigger p[i]] 0 <= i < p.len() - 1 ==> step_p(g, p[i], p[i + 1])
}

/// A path of admissible moves leads from `from` to `to`.
pub open spec fn reachable(g: Seq<Seq<Tile>>, from: (int, int), to: (int, int)) -> bool {
    exists|p: Seq<(int, int)>|
        is_path(g, p) && p.len() > 0 && p.first() == from && p.last() == to
}

/// A position is marked in the visited grid.
pub open spec fn marked(vs: Seq<Vec<bool>>, p: (int, int)) -> bool {
    &&& 0 <= p.0 < 60
    &&& 0 <= p.1 < 20
    &&& vs[p.1]@[p.0]
}

/// A position occurs in the queue.
pub open spec fn in_queue(q: Seq<(usize, usize)>, p: (int, int)) -> bool {
    exists|i: int| 0 <= i < q.len() && (#[trigger] q[i]).0 == p.0 && q[i].1 == p.1
}

/// A position occurs in the neighbour list.
pub open spec fn nb_has(ns: Seq<(usize, usize)>, b: (int, int)) -> bool {
    exists|i: int| 0 <= i < ns.len() && (#[trigger] ns[i]).0 == b.0 && ns[i].1 == b.1
}

/// Every position a list already holds it still holds after a push, and the
/// pushed position is held.
proof fn lemma_nb_push(ns: Seq<(usize, usize)>, e: (usize, usize))
    ensures
        forall|b: (int, int)| nb_has(ns, b) ==> nb_has(ns.push(e), b),
        nb_has(ns.push(e), (e.0 as int, e.1 as int)),
{
    assert forall|b: (int, int)| nb_has(ns, b) implies nb_has(ns.push(e), b) by {
        let i = choose|i: int| 0 <= i < ns.len() && (#[trigger] ns[i]).0 == b.0 && ns[i].1 == b.1;
        assert(ns.push(e)[i] == ns[i]);
    }
    assert(ns.push(e)[ns.len() as int] == e);
}

/// Reaching a position and making one more admissible move reaches the
/// move's landing position.
proof fn lemma_reachable_step(g: Seq<Seq<Tile>>, from: (int, int), mid: (int, int), to: (int, int))
    requires
        reachable(g, from, mid),
        step_p(g, mid, to),
    ensures
        reachable(g, from, to),
{
    let p = choose|p: Seq<(int, int)>|
        is_path(g, p) && p.len() > 0 && p.first() == from && p.last() == mid;
    let q = p.push(to);
    assert forall|i: int| 0 <= i < q.len() - 1 implies #[trigger] step_p(g, q[i], q[i + 1]) by {
        if i < p.len() - 1 {
            assert(q[i] == p[i] && q[i + 1] == p[i + 1]);
        } else {
            assert(q[i] == p[p.len() - 1] && q[i + 1] == to);
        }
    }
    assert(q.first() == from && q.last() == to && q.len() > 0);
}

/// A path that starts inside a step-closed marked region ends inside it.
proof fn lemma_path_stays(g: Seq<Seq<Tile>>, vs: Seq<Vec<bool>>, p: Seq<(int, int)>)
    requires
        is_path(g, p),
        p.len() > 0,
        marked(vs, p.first()),
        forall|a: (int, int), b: (int, int)|
            marked(vs, a) && #[trigger] step_p(g, a, b) ==> marked(vs, b),
    ensures
        marked(vs, p.last()),
    decreases p.len(),
{
    if p.len() > 1 {
        assert(step_p(g, p[0], p[1]));
        let q = p.subrange(1, p.len() as int);
        assert forall|i: int| 0 <= i < q.len() - 1 implies #[trigger] step_p(g, q[i], q[i + 1]) by {
            assert(q[i] == p[i + 1] && q[i + 1] == p[i + 2]);
            assert(step_p(g, p[i + 1], p[i + 2]));
        }
        lemma_path_stays(g, vs, q);
    }
}

/// Reads whether a cell is safe to stand in.
fn safe_cell(grid: &Grid, x: usize, y: usize) -> (b: bool)
    requires
        grid_wf(grid@),
        x < 60,
        y < 20,
    ensures
        b == safe_at(grid@, x as int, y as int),
{
    let t = grid.get(y, x);
    t != Tile::Wall && t != Tile::Hazard
}

/// Collects every admissible move from `(cx, cy)`: the list holds exactly
/// the landing positions the movement envelope admits.
fn neighbours(grid: &Grid, cx: usize, cy: usize) -> (ns: Vec<(usize, usize)>)
    requires
        grid_wf(grid@),
        cx < 60,
        cy < 20,
    ensures
        forall|j: int|
            0 <= j < ns@.len() ==> step_p(
                grid@,
                (cx as int, cy as int),
                ((#[trigger] ns@[j]).0 as int, ns@[j].1 as int),
            ),
        forall|b: (int, int)|
            #[trigger] step_p(grid@, (cx as int, cy as int), b) ==> nb_has(ns@, b),
{
    let ghost gv = grid@;
    let ghost a = (cx as int, cy as int);
    let mut ns: Vec<(usize, usize)> = Vec::new();
    let og = cy + 1 < 20 && grid.get(cy + 1, cx) == Tile::Wall;
    if cx > 0 && safe_cell(grid, cx - 1, cy) {
        let e = (cx - 1, cy);
        proof {
            lemma_nb_push(ns@, e);
        }
        ns.push(e);
    }
    if cx + 1 < 60 && safe_cell(grid, cx + 1, cy) {
        let e = (cx + 1, cy);
        proof {
            lemma_nb_push(ns@, e);
        }
        ns.push(e);
    }
    if !og {
        if cy + 1 < 20 && safe_cell(grid, cx, cy + 1) {
            let e = (cx, cy + 1);
            proof {
                lemma_nb_push(ns@, e);
            }
            ns.push(e);
        }
        if cx > 0 && cy + 1 < 20 && safe_cell(grid, cx - 1, cy + 1) {
            let e = (cx - 1, cy + 1);
            proof {
                lemma_nb_push(ns@, e);
            }
            ns.push(e);
        }
        if cx + 1 < 60 && cy + 1 < 20 && safe_cell(grid, cx + 1, cy + 1) {
            let e = (cx + 1, cy + 1);
            proof {
                lemma_nb_push(ns@, e);
            }
            ns.push(e);
        }
        proof {
            assert forall|b: (int, int)| #[trigger] step_p(gv, a, b) implies nb_has(ns@, b) by {
                assert(!on_ground(gv, a.0, a.1));
            }
        }
    } else {
        let mut dy: usize = 1;
        while dy <= 4
            invariant
                1 <= dy <= 5,
                forall|j: int|
                    0 <= j < ns@.len() ==> step_p(
                        gv,
                        a,
                        ((#[trigger] ns@[j]).0 as int, ns@[j].1 as int),
                    ),
                forall|b: (int, int)|
                    #[trigger] step_p(gv, a, b) && (b.1 == a.1 || b.1 == a.1 + 1 || a.1 - b.1 < dy)
                        ==> nb_has(ns@, b),
            decreases 5 - dy,
        {
            if cy >= dy {
                let ny = cy - dy;
                let h: usize = if dy == 1 {
                    5
                } else if dy == 2 {
                    8
                } else if dy == 3 {
                    10
                } else {
                    12
                };
                let lo = if cx >= h {
                    cx - h
                } else {
                    0
                };
                let hi = if cx + h < 60 {
                    cx + h
                } else {
                    59
                };
                let mut nx = lo;
                while nx <= hi
                    invariant
                        lo <= nx <= hi + 1,
                        hi < 60,
                        cy >= dy,
                        ny == cy - dy,
                        h as int == jump_reach(dy as int),
                        lo as int == (if cx as int - h as int >= 0 {
                            cx as int - h as int
                        } else {
                            0
                        }),
                        hi as int == (if cx + h < 60 {
                            (cx + h) as int
                        } else {
                            59
                        }),
                        forall|j: int|
                            0 <= j < ns@.len() ==> step_p(
                                gv,
                                a,
                                ((#[trigger] ns@[j]).0 as int, ns@[j].1 as int),
                            ),
                        forall|b: (int, int)|
                            #[trigger] step_p(gv, a, b) && (b.1 == a.1 || b.1 == a.1 + 1 || a.1
                                - b.1 < dy) ==> nb_has(ns@, b),
                        forall|b: (int, int)|
                            #[trigger] step_p(gv, a, b) && a.1 - b.1 == dy && b.0 < nx ==> nb_has(
                                ns@,
                                b,
                            ),
                    decreases hi + 1 - nx,
                {
                    if safe_cell(grid, nx, ny) {
                        proof {
                            lemma_nb_push(ns@, (nx, ny));
                        }
                        ns.push((nx, ny));
                    }
                    nx += 1;
                }
            }
            proof {
                assert forall|b: (int, int)|
                    #[trigger] step_p(gv, a, b) && (b.1 == a.1 || b.1 == a.1 + 1 || a.1 - b.1 < dy
                        + 1) implies nb_has(ns@, b) by {
                    if a.1 - b.1 == dy {
                        assert(cy >= dy);
                    }
                }
            }
            dy += 1;
        }
        proof {
            assert forall|b: (int, int)| #[trigger] step_p(gv, a, b) implies nb_has(ns@, b) by {
                assert(on_ground(gv, a.0, a.1));
                assert(b.1 == a.1 || b.1 == a.1 + 1 || a.1 - b.1 < 5);
            }
        }
    }
    ns
}

/// Decides whether the movement envelope admits a path from `start` to
/// `target`: a breadth-first search over the grid, complete and sound with
/// respect to `reachable`. A target outside the grid is simply never
/// reached; only the start tile, which seeds the search, must lie inside.
pub fn is_reachable(grid: &Grid, start: (usize, usize), target: (usize, usize)) -> (r: bool)
    requires
        grid_wf(grid@),
        start.0 < 60,
        start.1 < 20,
    ensures
        r == reachable(
            grid@,
            (start.0 as int, start.1 as int),
            (target.0 as int, target.1 as int),
        ),
{
    let ghost gv = grid@;
    let ghost st = (start.0 as int, start.1 as int);
    let ghost tg = (target.0 as int, target.1 as int);
    let mut visited: Vec<Vec<bool>> = Vec::new();
    let mut yy: usize = 0;
    while yy < 20
        invariant
            yy <= 20,
            visited@.len() == yy,
            forall|r: int|
                0 <= r < yy ==> (#[trigger] visited@[r])@ == Seq::new(60, |c: int| false),
        decreases 20 - yy,
    {
        let mut row: Vec<bool> = Vec::new();
        let mut xx: usize = 0;
        while xx < 60
            invariant
                xx <= 60,
                row@.len() == xx,
                forall|c: int| 0 <= c < xx ==> !(#[trigger] row@[c]),
            decreases 60 - xx,
        {
            row.push(false);
            xx += 1;
        }
        proof {
            assert(row@ =~= Seq::new(60, |c: int| false));
        }
        visited.push(row);
        yy += 1;
    }
    let mut queue: VecDeque<(usize, usize)> = VecDeque::new();
    queue.push_back(start);
    visited[start.1][start.0] = true;
    let mut dqg: Ghost<Set<(int, int)>> = Ghost(Set::empty());
    let mut vsg: Ghost<Set<int>> = Ghost(Set::empty().insert(st.1 * 60 + st.0));
    proof {
        vstd::set_lib::lemma_int_range(0, 1200);
        assert(vsg@.subset_of(set_int_range(0, 1200)));
        vstd::set_lib::lemma_len_subset(vsg@, set_int_range(0, 1200));
        assert(reachable(gv, st, st)) by {
            let p: Seq<(int, int)> = seq![st];
            assert(is_path(gv, p) && p.len() > 0 && p.first() == st && p.last() == st);
        }
        assert(in_queue(queue@, st)) by {
            assert(queue@[0] == start);
        }
        assert forall|xx: int, yy2: int|
            0 <= xx < 60 && 0 <= yy2 < 20 && (#[trigger] visited@[yy2]@[xx]) implies (xx, yy2)
            == st by {
            if yy2 != st.1 {
                assert(visited@[yy2]@ == Seq::new(60, |c: int| false));
            }
        }
    }
    while queue.len() > 0
        invariant
            visited@.len() == 20,
            forall|r: int| 0 <= r < 20 ==> (#[trigger] visited@[r])@.len() == 60,
            marked(visited@, st),
            forall|xx: int, yy2: int|
                0 <= xx < 60 && 0 <= yy2 < 20 && (#[trigger] visited@[yy2]@[xx]) ==> reachable(
                    gv,
                    st,
                    (xx, yy2),
                ),
            forall|i: int|
                0 <= i < queue@.len() ==> (#[trigger] queue@[i]).0 < 60 && queue@[i].1 < 20
                    && marked(visited@, (queue@[i].0 as int, queue@[i].1 as int)),
            forall|xx: int, yy2: int|
                0 <= xx < 60 && 0 <= yy2 < 20 && (#[trigger] visited@[yy2]@[xx]) ==> (
                dqg@.contains((xx, yy2)) || in_queue(queue@, (xx, yy2))),
            forall|p: (int, int), b: (int, int)|
                dqg@.contains(p) && #[trigger] step_p(gv, p, b) ==> marked(visited@, b),
            !dqg@.contains(tg),
            vsg@.finite(),
            vsg@.subset_of(set_int_range(0, 1200)),
            forall|p: (int, int)|
                0 <= p.0 < 60 && 0 <= p.1 < 20 ==> (marked(visited@, p) <==> vsg@.contains(
                    #[trigger] (p.1 * 60 + p.0),
                )),
        decreases 1200 - vsg@.len(), queue@.len(),
    {
        proof {
            vstd::set_lib::lemma_len_subset(vsg@, set_int_range(0, 1200));
        }
        let ghost q_old = queue@;
        let cur = queue.pop_front().unwrap();
        let (cx, cy) = cur;
        let ghost ci = (cx as int, cy as int);
        if cx == target.0 && cy == target.1 {
            return true;
        }
        proof {
            assert forall|xx: int, yy2: int|
                0 <= xx < 60 && 0 <= yy2 < 20 && (#[trigger] visited@[yy2]@[xx]) implies (
            dqg@.contains((xx, yy2)) || in_queue(queue@, (xx, yy2)) || (xx, yy2) == ci) by {
                let p = (xx, yy2);
                if !dqg@.contains(p) {
                    assert(in_queue(q_old, p));
                    let i = choose|i: int|
                        0 <= i < q_old.len() && (#[trigger] q_old[i]).0 == p.0 && q_old[i].1
                            == p.1;
                    if i > 0 {
                        assert(queue@[i - 1] == q_old[i]);
                    }
                }
            }
        }
        let ns = neighbours(grid, cx, cy);
        let ghost dq_old = dqg@;
        let ghost vs_pre = vsg@;
        let mut k: usize = 0;
        while k < ns.len()
            invariant
                k <= ns@.len(),
                vsg@.len() >= vs_pre.len(),
                queue@.len() + 1 <= q_old.len() + vsg@.len() - vs_pre.len(),
                visited@.len() == 20,
                forall|r: int| 0 <= r < 20 ==> (#[trigger] visited@[r])@.len() == 60,
                marked(visited@, st),
                marked(visited@, ci),
                forall|xx: int, yy2: int|
                    0 <= xx < 60 && 0 <= yy2 < 20 && (#[trigger] visited@[yy2]@[xx]) ==> reachable(
                        gv,
                        st,
                        (xx, yy2),
                    ),
                forall|i: int|
                    0 <= i < queue@.len() ==> (#[trigger] queue@[i]).0 < 60 && queue@[i].1 < 20
                        && marked(visited@, (queue@[i].0 as int, queue@[i].1 as int)),
                forall|xx: int, yy2: int|
                    0 <= xx < 60 && 0 <= yy2 < 20 && (#[trigger] visited@[yy2]@[xx]) ==> (
                    dqg@.contains((xx, yy2)) || in_queue(queue@, (xx, yy2)) || (xx, yy2) == ci),
                forall|p: (int, int), b: (int, int)|
                    dqg@.contains(p) && #[trigger] step_p(gv, p, b) ==> marked(visited@, b),
                !dqg@.contains(tg),
                dqg@ == dq_old,
                vsg@.finite(),
                vsg@.subset_of(set_int_range(0, 1200)),
                vsg@.len() >= 1,
                forall|p: (int, int)|
                    0 <= p.0 < 60 && 0 <= p.1 < 20 ==> (marked(visited@, p) <==> vsg@.contains(
                        #[trigger] (p.1 * 60 + p.0),
                    )),
                forall|j: int|
                    0 <= j < k ==> marked(
                        visited@,
                        ((#[trigger] ns@[j]).0 as int, ns@[j].1 as int),
                    ),
            decreases ns@.len() - k,
        {
            let (nx, ny) = ns[k];
            proof {
                assert(step_p(gv, ci, (nx as int, ny as int)));
            }
            if !visited[ny][nx] {
                let ghost vis_old = visited@;
                let ghost q_prev = queue@;
                visited[ny][nx] = true;
                queue.push_back((nx, ny));
                let ghost ni = (nx as int, ny as int);
                let ghost idx = ni.1 * 60 + ni.0;
                proof {
                    assert(!vsg@.contains(idx));
                }
                vsg = Ghost(vsg@.insert(idx));
                proof {
                    assert(0 <= idx < 1200);
                    assert(vsg@.subset_of(set_int_range(0, 1200)));
                    vstd::set_lib::lemma_len_subset(vsg@, set_int_range(0, 1200));
                    assert(visited@[ni.1]@ == vis_old[ni.1]@.update(ni.0, true));
                    assert forall|p: (int, int)|
                        0 <= p.0 < 60 && 0 <= p.1 < 20 && p != ni implies (#[trigger] marked(
                        visited@,
                        p,
                    )) == marked(vis_old, p) by {
                        if p.1 == ni.1 {
                            assert(visited@[p.1]@[p.0] == vis_old[p.1]@[p.0]);
                        } else {
                            assert(visited@[p.1] == vis_old[p.1]);
                        }
                    }
                    assert(marked(visited@, ni));
                    assert(marked(visited@, ci)) by {
                        assert(marked(vis_old, ci));
                    }
                    assert(marked(visited@, st)) by {
                        assert(marked(vis_old, st));
                    }
                    assert forall|p: (int, int)|
                        0 <= p.0 < 60 && 0 <= p.1 < 20 implies (marked(visited@, p)
                        <==> vsg@.contains(#[trigger] (p.1 * 60 + p.0))) by {
                        if p != ni {
                            assert(p.1 * 60 + p.0 != idx);
                        }
                    }
                    lemma_reachable_step(gv, st, ci, ni);
                    assert forall|xx: int, yy2: int|
                        0 <= xx < 60 && 0 <= yy2 < 20 && (#[trigger] visited@[yy2]@[xx]) implies
                        reachable(gv, st, (xx, yy2)) by {
                        if (xx, yy2) != ni {
                            assert(marked(vis_old, (xx, yy2)));
                        }
                    }
                    assert forall|i: int|
                        0 <= i < queue@.len() implies (#[trigger] queue@[i]).0 < 60 && queue@[i].1
                        < 20 && marked(visited@, (queue@[i].0 as int, queue@[i].1 as int)) by {
                        if i < q_prev.len() {
                            assert(queue@[i] == q_prev[i]);
                            let p = (q_prev[i].0 as int, q_prev[i].1 as int);
                            assert(marked(vis_old, p));
                            if p != ni {
                                assert(marked(visited@, p) == marked(vis_old, p));
                            }
                        } else {
                            assert(queue@[i] == (nx, ny));
                        }
                    }
                    assert forall|xx: int, yy2: int|
                        0 <= xx < 60 && 0 <= yy2 < 20 && (#[trigger] visited@[yy2]@[xx]) implies (
                    dqg@.contains((xx, yy2)) || in_queue(queue@, (xx, yy2)) || (xx, yy2) == ci) by {
                        let p = (xx, yy2);
                        if p == ni {
                            assert(queue@[q_prev.len() as int] == (nx, ny));
                        } else {
                            assert(marked(vis_old, p));
                            if !dqg@.contains(p) && p != ci {
                                assert(in_queue(q_prev, p));
                                let i = choose|i: int|
                                    0 <= i < q_prev.len() && (#[trigger] q_prev[i]).0 == p.0
                                        && q_prev[i].1 == p.1;
                                assert(queue@[i] == q_prev[i]);
                            }
                        }
                    }
                    assert forall|p: (int, int), b: (int, int)|
                        dqg@.contains(p) && #[trigger] step_p(gv, p, b) implies marked(
                        visited@,
                        b,
                    ) by {
                        assert(marked(vis_old, b));
                        if b != ni {
                            assert(marked(visited@, b) == marked(vis_old, b));
                        }
                    }
                    assert forall|j: int|
                        0 <= j < k + 1 implies marked(
                        visited@,
                        ((#[trigger] ns@[j]).0 as int, ns@[j].1 as int),
                    ) by {
                        let p = (ns@[j].0 as int, ns@[j].1 as int);
                        if j < k {
                            assert(marked(vis_old, p));
                            if p != ni {
                                assert(marked(visited@, p) == marked(vis_old, p));
                            }
                        } else {
                            assert(ns@[j] == (nx, ny));
                        }
                    }
                }
            } else {
                proof {
                    assert(marked(visited@, (nx as int, ny as int)));
                }
            }
            k += 1;
        }
        dqg = Ghost(dqg@.insert(ci));
        proof {
            vstd::set_lib::lemma_int_range(0, 1200);
            vstd::set_lib::lemma_len_subset(vsg@, set_int_range(0, 1200));
            assert forall|p: (int, int), b: (int, int)|
                dqg@.contains(p) && #[trigger] step_p(gv, p, b) implies marked(visited@, b) by {
                if p == ci {
                    assert(nb_has(ns@, b));
                    let j = choose|j: int|
                        0 <= j < ns@.len() && (#[trigger] ns@[j]).0 == b.0 && ns@[j].1 == b.1;
                    assert(marked(visited@, (ns@[j].0 as int, ns@[j].1 as int)));
                } else {
                    assert(dq_old.contains(p));
                }
            }
            assert(!dqg@.contains(tg)) by {
                assert(ci != tg);
            }
            assert forall|xx: int, yy2: int|
                0 <= xx < 60 && 0 <= yy2 < 20 && (#[trigger] visited@[yy2]@[xx]) implies (
            dqg@.contains((xx, yy2)) || in_queue(queue@, (xx, yy2))) by {
                let p = (xx, yy2);
                assert(dq_old.contains(p) || in_queue(queue@, p) || p == ci);
            }
        }
    }
    proof {
        if reachable(gv, st, tg) {
            assert forall|a: (int, int), b: (int, int)|
                marked(visited@, a) && #[trigger] step_p(gv, a, b) implies marked(
                visited@,
                b,
            ) by {
                assert(dqg@.contains(a) || in_queue(queue@, a));
                assert(dqg@.contains(a));
            }
            let p = choose|p: Seq<(int, int)>|
                is_path(gv, p) && p.len() > 0 && p.first() == st && p.last() == tg;
            lemma_path_stays(gv, visited@, p);
            assert(marked(visited@, tg));
            assert(dqg@.contains(tg) || in_queue(queue@, tg));
            assert(false);
        }
    }
    false
}

} // verus!
