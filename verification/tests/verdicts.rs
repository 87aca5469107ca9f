use ternary_sandbox::comparison::{decide_winner, faster_ms, Margin};
use ternary_sandbox::conservation::{first_extinction, has_extinction, SpeciesCensus};
use ternary_sandbox::grid::{grid_divisor, grid_indices};
use ternary_sandbox::ComparisonWinner;

#[test]
fn fitness_decides_first() {
    assert_eq!(decide_winner(Margin::Positive, Margin::Negative), ComparisonWinner::A);
    assert_eq!(decide_winner(Margin::Negative, Margin::Positive), ComparisonWinner::B);
}

#[test]
fn entropy_breaks_ties() {
    assert_eq!(decide_winner(Margin::Negligible, Margin::Positive), ComparisonWinner::A);
    assert_eq!(decide_winner(Margin::Negligible, Margin::Negative), ComparisonWinner::B);
    assert_eq!(decide_winner(Margin::Negligible, Margin::Negligible), ComparisonWinner::Tie);
}

#[test]
fn swapping_runs_swaps_winner() {
    let flip = |m: Margin| match m {
        Margin::Positive => Margin::Negative,
        Margin::Negative => Margin::Positive,
        Margin::Negligible => Margin::Negligible,
    };
    let all = [Margin::Positive, Margin::Negative, Margin::Negligible];
    for f in all {
        for e in all {
            let w = decide_winner(f, e);
            let mirrored = match w {
                ComparisonWinner::A => ComparisonWinner::B,
                ComparisonWinner::B => ComparisonWinner::A,
                ComparisonWinner::Tie => ComparisonWinner::Tie,
            };
            assert_eq!(decide_winner(flip(f), flip(e)), mirrored);
        }
    }
}

#[test]
fn faster_ms_is_signed_difference() {
    assert_eq!(faster_ms(120, 200), -80);
    assert_eq!(faster_ms(200, 120), 80);
    assert_eq!(faster_ms(0, 0), 0);
}

#[test]
fn extinction_detects_zero_among_tracked_species() {
    assert!(has_extinction(&vec![3, 0, 2], 3));
    assert!(!has_extinction(&vec![3, 1, 2], 3));
    assert!(!has_extinction(&vec![3, 1, 0], 2));
    assert!(!has_extinction(&vec![], 3));
}

#[test]
fn first_extinction_generation() {
    let records = vec![
        SpeciesCensus { generation: 0, species_counts: vec![4, 3, 3] },
        SpeciesCensus { generation: 1, species_counts: vec![6, 4, 0] },
        SpeciesCensus { generation: 2, species_counts: vec![10, 0, 0] },
    ];
    assert_eq!(first_extinction(&records, 3), Some(1));
}

#[test]
fn no_extinction() {
    let records = vec![
        SpeciesCensus { generation: 0, species_counts: vec![4, 3, 3] },
        SpeciesCensus { generation: 1, species_counts: vec![5, 2, 3] },
    ];
    assert_eq!(first_extinction(&records, 3), None);
    assert_eq!(first_extinction(&Vec::new(), 3), None);
}

#[test]
fn grid_has_resolution_squared_cells() {
    let cells = grid_indices(5);
    assert_eq!(cells.len(), 25);
    assert_eq!(cells[0], (0, 0));
    assert_eq!(cells[7], (1, 2));
    assert_eq!(cells[24], (4, 4));
    assert_eq!(grid_indices(0).len(), 0);
    assert_eq!(grid_indices(1), vec![(0, 0)]);
}

#[test]
fn grid_divisor_values() {
    assert_eq!(grid_divisor(5), 4);
    assert_eq!(grid_divisor(2), 1);
    assert_eq!(grid_divisor(1), 1);
    assert_eq!(grid_divisor(0), 1);
}
