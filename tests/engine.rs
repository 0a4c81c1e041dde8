use floodit::flood::flood;
use floodit::grid::{generate, is_solved, HEIGHT, PALETTE_SIZE, WIDTH};
use floodit::rng::Rng;

#[test]
fn gen_first_values_from_zero() {
    let mut rng = Rng::new(0);
    assert_eq!(rng.gen(), 1233057930238600590);
    assert_eq!(rng.state, 0xA0761D6478BD642F);
    assert_eq!(rng.gen(), 14892235431655409005);
    assert_eq!(rng.state, 0x40EC3AC8F17AC85E);
    assert_eq!(rng.gen(), 7060326114132480676);
    assert_eq!(rng.state, 0xE162582D6A382C8D);
}

#[test]
fn gen_wraps_state() {
    let mut rng = Rng::new(u64::MAX);
    rng.gen();
    assert_eq!(rng.state, 0xA0761D6478BD642E);
}

#[test]
fn gen_range_reduces_draw() {
    let mut rng = Rng::new(42);
    assert_eq!(rng.gen_range(2, 7), 2 + (12558987674375533620u64 % 5) as u8);
    assert_eq!(rng.state, 11562461410679940185);
}

#[test]
fn gen_range_first_palette_draws() {
    let mut rng = Rng::new(0);
    assert_eq!(rng.gen_range(0, 6), 0);
    assert_eq!(rng.gen_range(0, 6), 1);
    assert_eq!(rng.gen_range(0, 6), 4);
}

#[test]
fn generate_is_deterministic() {
    let mut a = Rng::new(123456789);
    let mut b = Rng::new(123456789);
    let ga = generate(&mut a, WIDTH, HEIGHT);
    let gb = generate(&mut b, WIDTH, HEIGHT);
    assert_eq!(ga, gb);
    assert_eq!(a.state, b.state);
    assert_eq!(ga.len(), WIDTH * HEIGHT);
    assert!(ga.iter().all(|c| *c < PALETTE_SIZE));
}

#[test]
fn generate_draws_cells_in_order() {
    let mut rng = Rng::new(0);
    let g = generate(&mut rng, 3, 1);
    assert_eq!(g, vec![0, 1, 4]);
    assert_eq!(rng.state, 0xE162582D6A382C8D);
}

#[test]
fn generate_different_seeds_differ() {
    let mut a = Rng::new(1);
    let mut b = Rng::new(2);
    assert_ne!(generate(&mut a, WIDTH, HEIGHT), generate(&mut b, WIDTH, HEIGHT));
}

#[test]
fn generate_empty_grid() {
    let mut rng = Rng::new(9);
    let g = generate(&mut rng, 0, 5);
    assert!(g.is_empty());
    assert_eq!(rng.state, 9);
}

#[test]
fn flood_two_by_two_rows() {
    let mut g = vec![0, 0, 1, 1];
    flood(&mut g, 2, 2, 1);
    assert_eq!(g, vec![1, 1, 1, 1]);
    assert!(is_solved(&g));
}

#[test]
fn flood_two_by_two_columns() {
    // 0 1
    // 0 1
    let mut g = vec![0, 1, 0, 1];
    flood(&mut g, 2, 2, 1);
    assert_eq!(g, vec![1, 1, 1, 1]);
    assert!(is_solved(&g));
}

#[test]
fn flood_leaves_other_regions() {
    // 0 0 2
    // 1 0 2
    // 0 1 0
    let mut g = vec![0, 0, 2, 1, 0, 2, 0, 1, 0];
    flood(&mut g, 3, 3, 3);
    assert_eq!(g, vec![3, 3, 2, 1, 3, 2, 0, 1, 0]);
    assert!(!is_solved(&g));
}

#[test]
fn flood_does_not_wrap_rows() {
    // 0 0 0
    // 1 1 0
    // 0 1 1    index 6 follows index 5 in memory but is not its neighbour
    let mut g = vec![0, 0, 0, 1, 1, 0, 0, 1, 1];
    flood(&mut g, 3, 3, 2);
    assert_eq!(g, vec![2, 2, 2, 1, 1, 2, 0, 1, 1]);
}

#[test]
fn flood_merges_adjacent_new_color() {
    let mut g = vec![0, 1, 1, 0];
    flood(&mut g, 2, 2, 1);
    assert_eq!(g, vec![1, 1, 1, 0]);
    flood(&mut g, 2, 2, 0);
    assert_eq!(g, vec![0, 0, 0, 0]);
}

#[test]
fn flood_same_color_is_no_op() {
    let mut g = vec![2, 2, 1, 3, 2, 1];
    flood(&mut g, 3, 2, 2);
    assert_eq!(g, vec![2, 2, 1, 3, 2, 1]);
}

#[test]
fn flood_twice_is_idempotent() {
    let mut g = vec![0, 0, 5, 0, 3, 0, 0, 0, 4];
    flood(&mut g, 3, 3, 5);
    let once = g.clone();
    assert_eq!(once, vec![5, 5, 5, 5, 3, 0, 5, 5, 4]);
    flood(&mut g, 3, 3, 5);
    assert_eq!(g, once);
}

#[test]
fn flood_single_cell() {
    let mut g = vec![4];
    flood(&mut g, 1, 1, 0);
    assert_eq!(g, vec![0]);
}

#[test]
fn flood_full_size_spiral_region() {
    let mut g = vec![1u8; WIDTH * HEIGHT];
    for x in 0..WIDTH {
        g[x] = 0;
        g[(HEIGHT - 1) * WIDTH + x] = 0;
    }
    for y in 0..HEIGHT {
        g[y * WIDTH + WIDTH - 1] = 0;
    }
    flood(&mut g, WIDTH, HEIGHT, 2);
    for y in 0..HEIGHT {
        for x in 0..WIDTH {
            let edge = y == 0 || y == HEIGHT - 1 || x == WIDTH - 1;
            assert_eq!(g[y * WIDTH + x], if edge { 2 } else { 1 });
        }
    }
}

#[test]
fn is_solved_checks_every_cell() {
    assert!(is_solved(&vec![]));
    assert!(is_solved(&vec![3]));
    assert!(is_solved(&vec![2, 2, 2, 2]));
    assert!(!is_solved(&vec![2, 2, 2, 1]));
    assert!(!is_solved(&vec![1, 2, 2, 2]));
    let mut g = vec![5u8; WIDTH * HEIGHT];
    assert!(is_solved(&g));
    g[WIDTH * HEIGHT - 1] = 4;
    assert!(!is_solved(&g));
}
