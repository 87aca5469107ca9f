use ternary_sandbox::selection::tournament_select;
use ternary_sandbox::SeededRng;

fn reference(rng: &mut SeededRng, keys: &[u64], k: usize) -> usize {
    let n = keys.len();
    let mut best = rng.next_int(0, (n - 1) as i64) as usize;
    for _ in 1..k {
        let idx = rng.next_int(0, (n - 1) as i64) as usize;
        if keys[idx] > keys[best] {
            best = idx;
        }
    }
    best
}

#[test]
fn tournament_matches_sequential_draws() {
    let keys = vec![5u64, 9, 1, 9, 3, 7, 2, 8];
    for seed in 0..30 {
        let mut rng = SeededRng::new(seed);
        let mut twin = rng.clone();
        let got = tournament_select(&mut rng, &keys, 4);
        assert_eq!(got, reference(&mut twin, &keys, 4));
        assert_eq!(rng.next_u64(), twin.next_u64());
    }
}

#[test]
fn tournament_of_whole_population_usually_finds_best() {
    let keys: Vec<u64> = (0..10).collect();
    let mut rng = SeededRng::new(8);
    let w = tournament_select(&mut rng, &keys, 200);
    assert_eq!(w, 9);
}

#[test]
fn tournament_single_agent() {
    let mut rng = SeededRng::new(3);
    let mut twin = rng.clone();
    assert_eq!(tournament_select(&mut rng, &vec![42u64], 5), 0);
    assert_eq!(rng.next_u64(), twin.next_u64());
}

#[test]
fn tournament_size_zero_or_one_is_one_draw() {
    let keys = vec![1u64, 2, 3, 4];
    let mut a = SeededRng::new(17);
    let mut b = SeededRng::new(17);
    let mut c = SeededRng::new(17);
    let wa = tournament_select(&mut a, &keys, 0);
    let wb = tournament_select(&mut b, &keys, 1);
    assert_eq!(wa, wb);
    assert_eq!(wa as i64, c.next_int(0, 3));
}

#[test]
fn tournament_winner_not_beaten_by_contestants() {
    let keys = vec![4u64, 4, 4, 4, 4];
    let mut rng = SeededRng::new(99);
    let mut twin = rng.clone();
    let first = twin.next_int(0, 4) as usize;
    assert_eq!(tournament_select(&mut rng, &keys, 6), first);
}
