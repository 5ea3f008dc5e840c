use rustydave::levelgen::generate_level;
use rustydave::rules::find_tile;
use rustydave::{is_reachable, Grid, Tile};

fn bordered_room() -> Grid {
    let mut g = Grid::new_empty();
    for x in 0..60 {
        g.set(0, x, Tile::Wall);
        g.set(19, x, Tile::Wall);
    }
    for y in 0..20 {
        g.set(y, 0, Tile::Wall);
        g.set(y, 59, Tile::Wall);
    }
    g
}

#[test]
fn a_cell_reaches_itself() {
    let g = bordered_room();
    assert!(is_reachable(&g, (2, 18), (2, 18)));
}

#[test]
fn walking_crosses_the_floor() {
    let g = bordered_room();
    assert!(is_reachable(&g, (1, 18), (58, 18)));
}

#[test]
fn jumps_rise_at_most_four_rows() {
    let g = bordered_room();
    // standing on the floor, row 14 is in reach but row 13 is not: nothing
    // up there offers ground for a second jump
    assert!(is_reachable(&g, (10, 18), (10, 14)));
    assert!(!is_reachable(&g, (10, 18), (10, 13)));
}

#[test]
fn platforms_chain_jumps_upward() {
    let mut g = bordered_room();
    // a platform at row 15 gives ground to jump on towards row 11
    for x in 8..14usize {
        g.set(15, x, Tile::Wall);
    }
    assert!(is_reachable(&g, (10, 18), (10, 11)));
}

#[test]
fn the_envelope_jumps_over_thin_walls() {
    let mut g = bordered_room();
    // a full-height wall splits the room, but the movement envelope admits
    // any safe landing cell inside the arc, so the far side stays reachable
    for y in 1..19usize {
        g.set(y, 30, Tile::Wall);
    }
    assert!(is_reachable(&g, (2, 18), (40, 18)));
}

#[test]
fn hazards_are_never_entered() {
    let mut g = bordered_room();
    // a hazard curtain: every cell of column 30 above the floor is deadly,
    // and the floor cell too; jumps land at most 12 columns away, so the
    // right half is cut off
    for y in 1..19usize {
        g.set(y, 30, Tile::Hazard);
    }
    for y in 1..19usize {
        for x in 19..30usize {
            g.set(y, x, Tile::Hazard);
        }
    }
    assert!(!is_reachable(&g, (2, 18), (40, 18)));
}

#[test]
fn out_of_range_targets_are_just_unreachable() {
    let g = bordered_room();
    assert!(!is_reachable(&g, (2, 18), (60, 18)));
    assert!(!is_reachable(&g, (2, 18), (2, 20)));
    assert!(!is_reachable(&g, (2, 18), (usize::MAX, usize::MAX)));
}

#[test]
fn generated_levels_are_completable() {
    for seed in 1..=20u32 {
        let (g, (sx, sy)) = generate_level(seed);
        let t = find_tile(&g, Tile::Trophy).expect("trophy placed");
        let e = find_tile(&g, Tile::Exit).expect("exit placed");
        assert!(is_reachable(&g, (sx, sy), t), "seed {seed}: trophy out of reach");
        assert!(is_reachable(&g, t, e), "seed {seed}: exit out of reach");
    }
}
