use rustydave::rules::{
    boundary_findings, check_level, density_findings, find_tile, hazard_findings, start_safe,
    support_findings, Finding,
};
use rustydave::{Grid, Tile};

/// A bare bordered room: boundary walls, a floor platform, a supported
/// trophy and exit near the start, everything reachable on foot.
fn bordered_room() -> Grid {
    let mut g = Grid::new_empty();
    for x in 0..60 {
        g.set(0, x, Tile::Wall);
        g.set(19, x, Tile::Wall);
    }
    for y in 0..20 {
        g.set(y, 0, Tile::Wall);
        g.set(y, 59, Tile::Wall);
    }
    g
}

fn solvable_room() -> Grid {
    let mut g = bordered_room();
    g.set(18, 10, Tile::Trophy);
    g.set(18, 20, Tile::Exit);
    g
}

#[test]
fn clean_room_passes() {
    let g = solvable_room();
    let findings = check_level(&g, 2, 18);
    assert!(findings.is_empty(), "{:?}", findings);
}

#[test]
fn run_of_three_is_flagged_with_row_and_count() {
    let mut g = solvable_room();
    g.set(10, 30, Tile::Hazard);
    g.set(10, 31, Tile::Hazard);
    g.set(10, 32, Tile::Hazard);
    let hz = hazard_findings(&g);
    assert!(hz.contains(&Finding::HazardRun { y: 10, count: 3 }), "{:?}", hz);
    let all = check_level(&g, 2, 18);
    assert!(all.contains(&Finding::HazardRun { y: 10, count: 3 }));
}

#[test]
fn runs_of_two_with_wide_spacing_pass() {
    let mut g = solvable_room();
    g.set(10, 30, Tile::Hazard);
    g.set(10, 31, Tile::Hazard);
    g.set(10, 35, Tile::Hazard);
    let hz = hazard_findings(&g);
    assert!(hz.is_empty(), "{:?}", hz);
}

#[test]
fn close_runs_are_flagged_with_spacing() {
    let mut g = solvable_room();
    g.set(10, 30, Tile::Hazard);
    g.set(10, 33, Tile::Hazard);
    let hz = hazard_findings(&g);
    assert!(hz.contains(&Finding::HazardGap { y: 10, space: 2 }), "{:?}", hz);
}

#[test]
fn overfull_window_is_flagged() {
    let mut g = solvable_room();
    // five single hazards inside one 15-column window, each pair far apart
    for k in 0..5usize {
        g.set(5, 30 + 3 * k, Tile::Hazard);
    }
    let dn = density_findings(&g);
    assert!(!dn.is_empty(), "{:?}", dn);
    assert!(dn.iter().any(|f| matches!(f, Finding::HazardDensity { y: 5, x: _ })));
    // four hazards in the window are still fine
    let mut g2 = solvable_room();
    for k in 0..4usize {
        g2.set(5, 30 + 3 * k, Tile::Hazard);
    }
    assert!(density_findings(&g2).is_empty());
}

#[test]
fn trophy_over_empty_is_flagged_at_its_coordinates() {
    let mut g = bordered_room();
    g.set(5, 7, Tile::Trophy);
    g.set(18, 20, Tile::Exit);
    let sup = support_findings(&g);
    assert_eq!(sup, vec![Finding::TrophyUnsupported { x: 7, y: 5 }]);
    let all = check_level(&g, 2, 18);
    assert!(all.contains(&Finding::TrophyUnsupported { x: 7, y: 5 }));
}

#[test]
fn unsupported_exit_is_flagged() {
    let mut g = bordered_room();
    g.set(18, 10, Tile::Trophy);
    g.set(9, 40, Tile::Exit);
    let sup = support_findings(&g);
    assert_eq!(sup, vec![Finding::ExitUnsupported { x: 40, y: 9 }]);
}

#[test]
fn missing_trophy_and_exit_are_flagged() {
    let g = bordered_room();
    let all = check_level(&g, 2, 18);
    assert!(all.contains(&Finding::MissingTrophy));
    assert!(all.contains(&Finding::MissingExit));
}

#[test]
fn broken_boundary_is_flagged() {
    let mut g = solvable_room();
    g.set(0, 12, Tile::Empty);
    g.set(19, 33, Tile::Empty);
    g.set(7, 0, Tile::Diamond);
    let bd = boundary_findings(&g);
    assert!(bd.contains(&Finding::TopBoundary { x: 12 }));
    assert!(bd.contains(&Finding::BottomBoundary { x: 33 }));
    assert!(bd.contains(&Finding::LeftBoundary { y: 7 }));
    // a hazard on the bottom row is tolerated
    let mut g2 = solvable_room();
    g2.set(19, 33, Tile::Hazard);
    assert!(boundary_findings(&g2).is_empty());
}

#[test]
fn dangerous_start_is_flagged() {
    let mut g = solvable_room();
    g.set(18, 2, Tile::Hazard);
    assert!(!start_safe(&g, 2, 18));
    let all = check_level(&g, 2, 18);
    assert!(all.contains(&Finding::UnsafeStart { x: 2, y: 18 }));
    assert!(start_safe(&solvable_room(), 2, 18));
}

#[test]
fn out_of_range_start_is_a_finding_not_a_refusal() {
    let g = solvable_room();
    let all = check_level(&g, 99, 99);
    assert!(all.contains(&Finding::UnsafeStart { x: 99, y: 99 }), "{:?}", all);
}

#[test]
fn walled_off_trophy_is_unreachable() {
    let mut g = solvable_room();
    // seal the trophy into a one-cell pocket
    g.set(17, 9, Tile::Wall);
    g.set(17, 10, Tile::Wall);
    g.set(17, 11, Tile::Wall);
    g.set(18, 9, Tile::Wall);
    g.set(18, 11, Tile::Wall);
    let all = check_level(&g, 2, 18);
    assert!(all.contains(&Finding::TrophyUnreachable), "{:?}", all);
}

#[test]
fn find_tile_reports_the_last_occurrence() {
    let mut g = bordered_room();
    g.set(4, 10, Tile::Diamond);
    g.set(9, 30, Tile::Diamond);
    g.set(9, 40, Tile::Diamond);
    assert_eq!(find_tile(&g, Tile::Diamond), Some((40, 9)));
    assert_eq!(find_tile(&g, Tile::Trophy), None);
}
