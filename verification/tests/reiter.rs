use snowflake::lattice::Ring;
use snowflake::layer::Layer;
use snowflake::reiter::{init_grid, update_grid, ReiterRules};

fn rules(
    gamma: f32,
    alpha: f32,
) -> ReiterRules<f32, impl Fn(f32) -> bool, impl Fn(bool, f32, Ring<f32>) -> f32> {
    ReiterRules {
        zero: 0.0f32,
        is_ice: |s: f32| s >= 1.0,
        renew: move |receptive: bool, s: f32, around: Ring<f32>| {
            let (u0, v0) = if receptive { (0.0, s) } else { (s, 0.0) };
            let mut v1 = v0;
            if receptive {
                v1 += gamma;
            }
            let mut u0_neighbors = 0.0;
            for u in [
                around.east,
                around.west,
                around.north,
                around.south,
                around.north_west,
                around.south_east,
            ] {
                u0_neighbors += u;
            }
            u0_neighbors /= 6.0;
            let u1 = u0 + alpha * (u0_neighbors - u0) / 2.0;
            u1 + v1
        },
    }
}

const AROUND: [(usize, usize); 6] = [(5, 4), (3, 4), (4, 5), (4, 3), (3, 5), (5, 3)];

#[test]
fn init_grid_puts_the_seed_in_the_middle() {
    let s: Layer<f32> = init_grid(8, 0.4, 1.0);
    for i in 0..8 {
        for j in 0..8 {
            assert_eq!(s.get(i, j), if (i, j) == (4, 4) { 1.0 } else { 0.4 });
        }
    }
}

#[test]
fn init_grid_of_side_one_is_the_seed() {
    let s: Layer<f32> = init_grid(1, 0.4, 1.0);
    assert_eq!(s.get(0, 0), 1.0);
}

#[test]
fn update_grid_adds_to_receptive_cells_and_diffuses_elsewhere() {
    let mut s: Layer<f32> = init_grid(8, 0.5, 1.0);
    update_grid(&mut s, &rules(0.25, 1.0));
    // The seed and its neighbours are receptive; they keep their water and gain gamma.
    // Around the seed nothing diffuses, so the seed gains nothing else.
    assert_eq!(s.get(4, 4), 1.25);
    // Three of the six cells around a neighbour of the seed are not receptive, and
    // half of the difference to their average flows in: 0.5 + 0.25 + (1.5 / 6) / 2.
    for &(i, j) in AROUND.iter() {
        assert_eq!(s.get(i, j), 0.875, "cell ({i}, {j})");
    }
    // Far away all neighbours hold the same, and nothing moves.
    assert_eq!(s.get(0, 0), 0.5);
    // (6, 4) has one receptive neighbour, (5, 4), which holds no diffusing water:
    // 0.5 + 1.0 * ((5 * 0.5) / 6 - 0.5) / 2
    let expected = 0.5f32 + 1.0 * ((0.5f32 + 0.5 + 0.5 + 0.5 + 0.5) / 6.0 - 0.5) / 2.0;
    assert_eq!(s.get(6, 4), expected);
    assert!(s.get(6, 4) < 0.5);
}

#[test]
fn update_grid_reads_the_lattice_as_it_stood() {
    // With alpha zero nothing diffuses, so only receptive cells change.
    let mut s: Layer<f32> = init_grid(6, 0.25, 1.0);
    update_grid(&mut s, &rules(0.5, 0.0));
    let near = [(3, 3), (4, 3), (2, 3), (3, 4), (3, 2), (2, 4), (4, 2)];
    for i in 0..6 {
        for j in 0..6 {
            let before = if (i, j) == (3, 3) { 1.0 } else { 0.25 };
            let expected = if near.contains(&(i, j)) { before + 0.5 } else { before };
            assert_eq!(s.get(i, j), expected, "cell ({i}, {j})");
        }
    }
}
