use rustydave::levelgen::generate_level;
use rustydave::rules::{check_level, find_tile};
use rustydave::{Grid, Tile, LEVEL_HEIGHT, LEVEL_WIDTH};

fn cells(g: &Grid) -> Vec<Vec<Tile>> {
    let mut rows = Vec::new();
    for y in 0..LEVEL_HEIGHT {
        let mut row = Vec::new();
        for x in 0..LEVEL_WIDTH {
            row.push(g.get(y, x));
        }
        rows.push(row);
    }
    rows
}

#[test]
fn determinism_same_seed_same_level() {
    for seed in [0u32, 1, 2, 3, 7, 42, 1000, u32::MAX] {
        let (g1, s1) = generate_level(seed);
        let (g2, s2) = generate_level(seed);
        assert_eq!(cells(&g1), cells(&g2));
        assert_eq!(s1, s2);
    }
}

#[test]
fn start_tile_is_fixed_and_empty() {
    for seed in 0..100u32 {
        let (g, (sx, sy)) = generate_level(seed);
        assert_eq!((sx, sy), (2, 17));
        assert_eq!(g.get(sy, sx), Tile::Empty);
        assert_ne!(g.get(sy, sx), Tile::Wall);
        assert_ne!(g.get(sy, sx), Tile::Hazard);
    }
}

#[test]
fn boundary_is_wall_with_hazard_tolerant_floor() {
    for seed in 0..100u32 {
        let (g, _) = generate_level(seed);
        for x in 0..LEVEL_WIDTH {
            assert_eq!(g.get(0, x), Tile::Wall);
            let b = g.get(LEVEL_HEIGHT - 1, x);
            assert!(b == Tile::Wall || b == Tile::Hazard);
        }
        for y in 0..LEVEL_HEIGHT {
            assert_eq!(g.get(y, 0), Tile::Wall);
            assert_eq!(g.get(y, LEVEL_WIDTH - 1), Tile::Wall);
        }
    }
}

#[test]
fn trophy_and_exit_stand_on_walls() {
    for seed in 0..100u32 {
        let (g, _) = generate_level(seed);
        let t = find_tile(&g, Tile::Trophy).expect("trophy placed");
        let e = find_tile(&g, Tile::Exit).expect("exit placed");
        assert_eq!(g.get(t.1, t.0), Tile::Trophy);
        assert_eq!(g.get(t.1 + 1, t.0), Tile::Wall);
        assert_eq!(g.get(e.1, e.0), Tile::Exit);
        assert_eq!(g.get(e.1 + 1, e.0), Tile::Wall);
    }
}

#[test]
fn generated_levels_pass_every_rule() {
    for seed in 1..=50u32 {
        let (g, (sx, sy)) = generate_level(seed);
        let findings = check_level(&g, sx, sy);
        assert!(findings.is_empty(), "seed {seed} failed: {:?}", findings);
    }
    for seed in [0u32, u32::MAX - 1, u32::MAX] {
        let (g, (sx, sy)) = generate_level(seed);
        let findings = check_level(&g, sx, sy);
        assert!(findings.is_empty(), "seed {seed} failed: {:?}", findings);
    }
}

#[test]
fn exactly_one_trophy_and_one_exit() {
    for seed in 0..100u32 {
        let (g, _) = generate_level(seed);
        let mut trophies = 0;
        let mut exits = 0;
        for y in 0..LEVEL_HEIGHT {
            for x in 0..LEVEL_WIDTH {
                match g.get(y, x) {
                    Tile::Trophy => trophies += 1,
                    Tile::Exit => exits += 1,
                    _ => {}
                }
            }
        }
        assert_eq!(trophies, 1, "seed {seed}");
        assert_eq!(exits, 1, "seed {seed}");
    }
}

#[test]
fn seed_one_is_zigzag() {
    // Odd seeds build the zig-zag archetype: its second tier runs from a
    // drawn column all the way to the right edge, so column 58 of row 12 is
    // wall; the floating-islands archetype never reaches that column.
    let (g, _) = generate_level(1);
    assert_eq!(g.get(12, 58), Tile::Wall);
    assert_eq!(g.get(8, 1), Tile::Wall);
    assert_eq!(g.get(4, 58), Tile::Wall);
}

#[test]
fn seed_two_is_floating_islands() {
    // Even seeds build floating islands: every island starts at column 5 or
    // later and the last band ends well short of the right edge, so the
    // leftmost interior columns of each tier row and column 58 of row 12
    // stay empty.
    let (g, _) = generate_level(2);
    assert_eq!(g.get(12, 58), Tile::Empty);
    for h in [16usize, 12, 8, 4] {
        for x in 1..5usize {
            assert_eq!(g.get(h, x), Tile::Empty, "tier {h} column {x}");
        }
    }
}
