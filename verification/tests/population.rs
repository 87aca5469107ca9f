use ternary_sandbox::population::{count_species, draw_species};
use ternary_sandbox::SeededRng;

#[test]
fn census_counts_each_species() {
    let species = vec![0u8, 2, 2, 1, 0, 2];
    let counts = count_species(&species, 3);
    assert_eq!(counts, vec![2, 1, 3]);
}

#[test]
fn census_sums_to_population() {
    let mut rng = SeededRng::new(5);
    let mut species = Vec::new();
    for _ in 0..50 {
        species.push(draw_species(&mut rng, 3));
    }
    let counts = count_species(&species, 3);
    assert_eq!(counts.iter().sum::<usize>(), 50);
}

#[test]
fn census_reports_empty_species() {
    let counts = count_species(&vec![1u8, 1, 1], 4);
    assert_eq!(counts, vec![0, 3, 0, 0]);
}

#[test]
fn census_of_empty_population() {
    assert_eq!(count_species(&Vec::new(), 2), vec![0, 0]);
    assert_eq!(count_species(&Vec::new(), 0), Vec::<usize>::new());
}

#[test]
fn drawn_species_in_range() {
    let mut rng = SeededRng::new(11);
    for _ in 0..500 {
        assert!(draw_species(&mut rng, 3) < 3);
    }
}

#[test]
fn drawn_species_matches_next_int() {
    let mut rng = SeededRng::new(21);
    let mut twin = rng.clone();
    for _ in 0..50 {
        assert_eq!(draw_species(&mut rng, 5) as i64, twin.next_int(0, 4));
    }
}

#[test]
fn single_species_draw_uses_no_randomness() {
    let mut rng = SeededRng::new(4);
    let mut twin = rng.clone();
    assert_eq!(draw_species(&mut rng, 1), 0);
    assert_eq!(rng.next_u64(), twin.next_u64());
}
