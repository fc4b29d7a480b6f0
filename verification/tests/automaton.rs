use ndarray_rand::rand::rngs::StdRng;
use ndarray_rand::rand::SeedableRng;
use snowflake::grid::Mask;
use snowflake::lattice::Ring;
use snowflake::layer::Layer;
use snowflake::neighbors::{count_at, neighbor_counts};
use snowflake::rules::{attaches, Evidence, Rules, StepError};
use snowflake::state::State;

#[derive(Clone, Copy)]
struct Params {
    rho: f32,
    beta: f32,
    alpha: f32,
    theta: f32,
    kappa: f32,
    mu: f32,
    gamma: f32,
    sigma: f32,
}

fn defaults() -> Params {
    Params {
        rho: 0.5,
        beta: 1.4,
        alpha: 0.1,
        theta: 0.005,
        kappa: 0.001,
        mu: 0.06,
        gamma: 0.001,
        sigma: 0.0,
    }
}

fn rules(
    p: Params,
) -> Rules<
    f32,
    impl Fn(f32, Ring<f32>, u8) -> f32,
    impl Fn(f32, f32, f32) -> (f32, f32),
    impl Fn(f32, Ring<f32>) -> Evidence,
    impl Fn(f32, f32) -> f32,
    impl Fn(f32, f32, f32) -> (f32, f32, f32),
    impl Fn(f32, bool) -> f32,
> {
    Rules {
        zero: 0.0f32,
        diffuse: |own: f32, around: Ring<f32>, k: u8| {
            (own + around.east + around.west + around.north + around.south + around.north_west
                + around.south_east + k as f32 * own) / 7.0
        },
        freeze: move |b: f32, c: f32, d: f32| (b + (1.0 - p.kappa) * d, c + p.kappa * d),
        probe: move |b: f32, around: Ring<f32>| Evidence {
            reaches_tip_threshold: b >= p.beta,
            saturated: b >= 1.0,
            reaches_concave_threshold: b >= p.alpha,
            vapor_depleted: around.east + around.west + around.north + around.south
                + around.north_west + around.south_east < p.theta,
        },
        attach: |b: f32, c: f32| c + b,
        melt: move |b: f32, c: f32, d: f32| {
            let mu_b = p.mu * b;
            let gamma_c = p.gamma * c;
            (b - mu_b, c - gamma_c, d + (mu_b + gamma_c))
        },
        perturb: move |d: f32, heads: bool| if heads { d * (1.0 + p.sigma) } else { d * (1.0 - p.sigma) },
    }
}

fn ice_cells(state: &State<f32>, n: usize) -> Vec<(usize, usize)> {
    let mut out = Vec::new();
    for i in 0..n {
        for j in 0..n {
            if state.ice.get(i, j) {
                out.push((i, j));
            }
        }
    }
    out
}

fn total_mass(state: &State<f32>, n: usize) -> f64 {
    let mut total = 0.0f64;
    for i in 0..n {
        for j in 0..n {
            total += state.boundary_mass.get(i, j) as f64;
            total += state.crystal_mass.get(i, j) as f64;
            total += state.vapor.get(i, j) as f64;
        }
    }
    total
}

fn bits(layer: &Layer<f32>, n: usize) -> Vec<u32> {
    let mut out = Vec::new();
    for i in 0..n {
        for j in 0..n {
            out.push(layer.get(i, j).to_bits());
        }
    }
    out
}

const AROUND_SEED: [(usize, usize); 6] = [(6, 5), (4, 5), (5, 6), (5, 4), (4, 6), (6, 4)];

#[test]
fn seed_state_has_one_frozen_cell() {
    let state: State<f32> = State::new(10, 0.0, 0.5, 1.0);
    assert_eq!(ice_cells(&state, 10), vec![(5, 5)]);
    for i in 0..10 {
        for j in 0..10 {
            let centre = (i, j) == (5, 5);
            assert_eq!(state.boundary_mass.get(i, j), 0.0);
            assert_eq!(state.crystal_mass.get(i, j), if centre { 1.0 } else { 0.0 });
            assert_eq!(state.vapor.get(i, j), if centre { 0.0 } else { 0.5 });
        }
    }
}

#[test]
fn seed_of_an_odd_lattice_sits_at_half_the_side_rounded_down() {
    let state: State<f32> = State::new(7, 0.0, 0.25, 1.0);
    assert_eq!(ice_cells(&state, 7), vec![(3, 3)]);
}

#[test]
fn first_step_counts_the_six_neighbours_of_the_seed() {
    let state: State<f32> = State::new(10, 0.0, 0.5, 1.0);
    let counts = neighbor_counts(&state.ice);
    assert_eq!(counts.nrows(), 10);
    assert_eq!(counts.ncols(), 10);
    for i in 0..10 {
        for j in 0..10 {
            let expected = if AROUND_SEED.contains(&(i, j)) { 1 } else { 0 };
            assert_eq!(counts.get(i, j), expected, "cell ({i}, {j})");
            assert_eq!(count_at(&state.ice, i, j), expected);
        }
    }
}

#[test]
fn neighbours_wrap_around_the_edges() {
    let mut ice = Mask::new(4, 4);
    ice.set(0, 0, true);
    let counts = neighbor_counts(&ice);
    let expected = [(1, 0), (3, 0), (0, 1), (0, 3), (3, 1), (1, 3)];
    for i in 0..4 {
        for j in 0..4 {
            let want = if expected.contains(&(i, j)) { 1 } else { 0 };
            assert_eq!(counts.get(i, j), want, "cell ({i}, {j})");
        }
    }
}

#[test]
fn a_cell_surrounded_by_ice_counts_six() {
    let mut ice = Mask::new(5, 5);
    for (i, j) in [(3, 2), (1, 2), (2, 3), (2, 1), (1, 3), (3, 1)] {
        ice.set(i, j, true);
    }
    assert_eq!(count_at(&ice, 2, 2), 6);
    // The two diagonal cells that are no neighbours do not count.
    let mut other = Mask::new(5, 5);
    other.set(3, 3, true);
    other.set(1, 1, true);
    assert_eq!(count_at(&other, 2, 2), 0);
}

#[test]
fn on_a_lattice_of_side_one_the_cell_is_its_own_neighbour() {
    let mut ice = Mask::new(1, 1);
    ice.set(0, 0, true);
    assert_eq!(count_at(&ice, 0, 0), 6);
}

#[test]
fn diffusion_leaves_a_uniform_field_alone() {
    let state: State<f32> = State::new(10, 0.0, 0.5, 1.0);
    let counts = neighbor_counts(&state.ice);
    let out = rules(defaults()).diffusion(&state.ice, &counts, &state.vapor);
    for i in 0..10 {
        for j in 0..10 {
            let expected = if (i, j) == (5, 5) { 0.0 } else { 0.5 };
            assert_eq!(out.get(i, j), expected, "cell ({i}, {j})");
        }
    }
}

#[test]
fn diffusion_averages_own_value_and_neighbours() {
    let ice = Mask::new(4, 4);
    let counts = neighbor_counts(&ice);
    let mut vapor: Layer<f32> = Layer::filled(4, 4, 0.0);
    vapor.set(1, 1, 7.0);
    let out = rules(defaults()).diffusion(&ice, &counts, &vapor);
    let near = [(1, 1), (2, 1), (0, 1), (1, 2), (1, 0), (0, 2), (2, 0)];
    for i in 0..4 {
        for j in 0..4 {
            let expected = if near.contains(&(i, j)) { 1.0 } else { 0.0 };
            assert_eq!(out.get(i, j), expected, "cell ({i}, {j})");
        }
    }
}

#[test]
fn diffusion_reflects_at_ice() {
    let mut ice = Mask::new(4, 4);
    ice.set(2, 1, true);
    let counts = neighbor_counts(&ice);
    let mut vapor: Layer<f32> = Layer::filled(4, 4, 0.0);
    vapor.set(1, 1, 7.0);
    // Ice holds vapor that diffusion must not read as its own.
    vapor.set(2, 1, 0.0);
    let out = rules(defaults()).diffusion(&ice, &counts, &vapor);
    // (7 + 0 * 6 + 1 * 7) / 7
    assert_eq!(out.get(1, 1), 2.0);
    assert_eq!(out.get(2, 1), 0.0);
    assert_eq!(out.get(0, 1), 1.0);
}

#[test]
fn freezing_splits_the_vapor_of_boundary_cells() {
    let mut p = defaults();
    p.kappa = 0.25;
    let state: State<f32> = State::new(10, 0.0, 0.5, 1.0);
    let counts = neighbor_counts(&state.ice);
    let (b, c, d) = rules(p).freezing(
        &state.ice,
        &counts,
        &state.boundary_mass,
        &state.crystal_mass,
        &state.vapor,
    );
    for i in 0..10 {
        for j in 0..10 {
            if AROUND_SEED.contains(&(i, j)) {
                assert_eq!(b.get(i, j), 0.375);
                assert_eq!(c.get(i, j), 0.125);
                assert_eq!(d.get(i, j), 0.0);
            } else if (i, j) == (5, 5) {
                assert_eq!((b.get(i, j), c.get(i, j), d.get(i, j)), (0.0, 1.0, 0.0));
            } else {
                assert_eq!((b.get(i, j), c.get(i, j), d.get(i, j)), (0.0, 0.0, 0.5));
            }
        }
    }
}

#[test]
fn attachment_rule_by_number_of_neighbours() {
    let none = Evidence {
        reaches_tip_threshold: false,
        saturated: false,
        reaches_concave_threshold: false,
        vapor_depleted: false,
    };
    let tip = Evidence { reaches_tip_threshold: true, ..none };
    let saturated = Evidence { saturated: true, ..none };
    let concave = Evidence { reaches_concave_threshold: true, ..none };
    let depleted = Evidence { vapor_depleted: true, ..none };
    let concave_and_depleted = Evidence { vapor_depleted: true, ..concave };

    assert_eq!(attaches(0, tip), Err(StepError::InvariantViolation));
    assert_eq!(attaches(0, none), Err(StepError::InvariantViolation));
    for k in 1..=2 {
        assert_eq!(attaches(k, tip), Ok(true));
        assert_eq!(attaches(k, none), Ok(false));
        assert_eq!(attaches(k, saturated), Ok(false));
        assert_eq!(attaches(k, concave_and_depleted), Ok(false));
    }
    assert_eq!(attaches(3, none), Ok(false));
    assert_eq!(attaches(3, tip), Ok(false));
    assert_eq!(attaches(3, saturated), Ok(true));
    assert_eq!(attaches(3, concave), Ok(false));
    assert_eq!(attaches(3, depleted), Ok(false));
    assert_eq!(attaches(3, concave_and_depleted), Ok(true));
    for k in 4..=6 {
        assert_eq!(attaches(k, none), Ok(true));
    }
}

#[test]
fn attachment_moves_boundary_mass_into_the_crystal() {
    let state: State<f32> = State::new(10, 0.0, 0.5, 1.0);
    let counts = neighbor_counts(&state.ice);
    let mut b: Layer<f32> = Layer::filled(10, 10, 0.0);
    let mut c: Layer<f32> = Layer::filled(10, 10, 0.0);
    // One neighbour of the seed has reached the tip threshold, another has not.
    b.set(6, 5, 1.5);
    c.set(6, 5, 0.25);
    b.set(4, 5, 1.25);
    c.set(4, 5, 0.5);
    // A cell far from the crystal holds more than enough and still stays liquid.
    b.set(0, 0, 9.0);
    let d: Layer<f32> = Layer::filled(10, 10, 0.0);
    let (ice, b2, c2) = rules(defaults()).attachment(&state.ice, &counts, &b, &c, &d);
    assert!(ice.get(5, 5));
    assert!(ice.get(6, 5));
    assert!(!ice.get(4, 5));
    assert!(!ice.get(0, 0));
    assert_eq!((b2.get(6, 5), c2.get(6, 5)), (0.0, 1.75));
    assert_eq!((b2.get(4, 5), c2.get(4, 5)), (1.25, 0.5));
    assert_eq!((b2.get(0, 0), c2.get(0, 0)), (9.0, 0.0));
}

#[test]
fn attachment_at_a_concave_spot_looks_at_the_vapor_around() {
    // Three frozen neighbours around (2, 2).
    let mut ice = Mask::new(6, 6);
    for (i, j) in [(3, 2), (2, 3), (1, 3)] {
        ice.set(i, j, true);
    }
    let counts = neighbor_counts(&ice);
    assert_eq!(counts.get(2, 2), 3);
    let mut b: Layer<f32> = Layer::filled(6, 6, 0.0);
    b.set(2, 2, 0.5);
    let c: Layer<f32> = Layer::filled(6, 6, 0.0);
    let dry: Layer<f32> = Layer::filled(6, 6, 0.0);
    let (grown, b2, c2) = rules(defaults()).attachment(&ice, &counts, &b, &c, &dry);
    assert!(grown.get(2, 2));
    assert_eq!((b2.get(2, 2), c2.get(2, 2)), (0.0, 0.5));

    let mut damp: Layer<f32> = Layer::filled(6, 6, 0.0);
    damp.set(1, 2, 0.005);
    let (grown, b2, _) = rules(defaults()).attachment(&ice, &counts, &b, &c, &damp);
    assert!(!grown.get(2, 2));
    assert_eq!(b2.get(2, 2), 0.5);

    b.set(2, 2, 1.0);
    let (grown, _, c2) = rules(defaults()).attachment(&ice, &counts, &b, &c, &damp);
    assert!(grown.get(2, 2));
    assert_eq!(c2.get(2, 2), 1.0);
}

#[test]
fn melting_returns_mass_to_the_vapor_next_to_ice_only() {
    let mut p = defaults();
    p.mu = 0.5;
    p.gamma = 0.25;
    let state: State<f32> = State::new(10, 0.0, 0.5, 1.0);
    let b: Layer<f32> = Layer::filled(10, 10, 2.0);
    let c: Layer<f32> = Layer::filled(10, 10, 4.0);
    let d: Layer<f32> = Layer::filled(10, 10, 8.0);
    let (b2, c2, d2) = rules(p).melting(&state.ice, &b, &c, &d);
    for i in 0..10 {
        for j in 0..10 {
            let got = (b2.get(i, j), c2.get(i, j), d2.get(i, j));
            if AROUND_SEED.contains(&(i, j)) {
                assert_eq!(got, (1.0, 3.0, 10.0));
            } else {
                assert_eq!(got, (2.0, 4.0, 8.0));
            }
        }
    }
}

#[test]
fn noise_multiplies_by_the_side_of_the_coin() {
    let mut p = defaults();
    p.sigma = 0.5;
    let vapor: Layer<f32> = Layer::filled(2, 2, 2.0);
    let mut coins = Mask::new(2, 2);
    coins.set(0, 1, true);
    coins.set(1, 0, true);
    let out = rules(p).noise(&vapor, &coins);
    assert_eq!(out.get(0, 0), 1.0);
    assert_eq!(out.get(0, 1), 3.0);
    assert_eq!(out.get(1, 0), 3.0);
    assert_eq!(out.get(1, 1), 1.0);
}

#[test]
fn first_step_with_default_parameters() {
    let p = defaults();
    let mut state: State<f32> = State::new(10, 0.0, p.rho, 1.0);
    state.update(&rules(p));
    assert_eq!(ice_cells(&state, 10), vec![(5, 5)]);
    for &(i, j) in AROUND_SEED.iter() {
        let b = (1.0f32 - 0.001) * 0.5;
        let c = 0.001f32 * 0.5;
        let mu_b = 0.06f32 * b;
        let gamma_c = 0.001f32 * c;
        assert_eq!(state.boundary_mass.get(i, j), b - mu_b);
        assert_eq!(state.crystal_mass.get(i, j), c - gamma_c);
        assert_eq!(state.vapor.get(i, j), 0.0 + (mu_b + gamma_c));
    }
    assert_eq!(state.vapor.get(0, 0), 0.5);
    assert_eq!(state.vapor.get(5, 5), 0.0);
    assert_eq!(state.crystal_mass.get(5, 5), 1.0);
}

#[test]
fn ice_only_grows_and_only_at_the_boundary() {
    let p = defaults();
    let n = 24;
    let r = rules(p);
    let mut state: State<f32> = State::new(n, 0.0, 0.6, 1.0);
    let mut grown = false;
    for _ in 0..60 {
        let before = ice_cells(&state, n);
        let counts = neighbor_counts(&state.ice);
        state.update(&r);
        let after = ice_cells(&state, n);
        for cell in &before {
            assert!(after.contains(cell), "cell {cell:?} thawed");
        }
        for &(i, j) in &after {
            if !before.contains(&(i, j)) {
                assert!(counts.get(i, j) > 0, "cell ({i}, {j}) froze away from the crystal");
                grown = true;
            }
        }
        for &(i, j) in &after {
            assert_eq!(state.vapor.get(i, j), 0.0);
            assert_eq!(state.boundary_mass.get(i, j), 0.0);
        }
    }
    assert!(grown, "the crystal never grew");
}

#[test]
fn mass_stays_the_same_up_to_rounding() {
    let p = defaults();
    let n = 20;
    let r = rules(p);
    let mut state: State<f32> = State::new(n, 0.0, 0.5, 1.0);
    let start = total_mass(&state, n);
    assert_eq!(start, 0.5 * 399.0 + 1.0);
    for _ in 0..40 {
        state.update(&r);
        let now = total_mass(&state, n);
        assert!((now - start).abs() < 1e-3, "mass drifted from {start} to {now}");
    }
}

#[test]
fn two_runs_without_noise_agree_bit_for_bit() {
    let p = defaults();
    let n = 16;
    let mut first: State<f32> = State::new(n, 0.0, 0.7, 1.0);
    let mut second: State<f32> = State::new(n, 0.0, 0.7, 1.0);
    for _ in 0..30 {
        first.update(&rules(p));
        second.update(&rules(p));
    }
    assert_eq!(ice_cells(&first, n), ice_cells(&second, n));
    assert_eq!(bits(&first.boundary_mass, n), bits(&second.boundary_mass, n));
    assert_eq!(bits(&first.crystal_mass, n), bits(&second.crystal_mass, n));
    assert_eq!(bits(&first.vapor, n), bits(&second.vapor, n));
}

#[test]
fn crystal_keeps_its_six_fold_symmetry() {
    let p = defaults();
    let n: i64 = 30;
    let side = n as usize;
    let r = rules(p);
    let mut state: State<f32> = State::new(side, 0.0, 0.8, 1.0);
    for _ in 0..40 {
        state.update(&r);
    }
    let cells = ice_cells(&state, side);
    assert!(cells.len() > 7, "the crystal has not grown enough to tell");
    let centre = n / 2;
    for &(i, j) in &cells {
        // Rotation by a sixth of a turn about the centre: (q, r) goes to (-r, q + r).
        let q = i as i64 - centre;
        let r = j as i64 - centre;
        let ri = (centre - r).rem_euclid(n) as usize;
        let rj = (centre + q + r).rem_euclid(n) as usize;
        assert!(state.ice.get(ri, rj), "({i}, {j}) is frozen but its rotation is not");
    }
}

#[test]
fn noise_with_one_seed_gives_one_result() {
    let mut p = defaults();
    p.sigma = 0.1;
    let n = 12;
    let mut first: State<f32> = State::new(n, 0.0, 0.6, 1.0);
    let mut second: State<f32> = State::new(n, 0.0, 0.6, 1.0);
    let mut calm: State<f32> = State::new(n, 0.0, 0.6, 1.0);
    let mut rng_first = StdRng::seed_from_u64(17);
    let mut rng_second = StdRng::seed_from_u64(17);
    for _ in 0..5 {
        first.update_with_noise(&rules(p), &mut rng_first);
        second.update_with_noise(&rules(p), &mut rng_second);
        calm.update(&rules(p));
    }
    assert_eq!(bits(&first.vapor, n), bits(&second.vapor, n));
    assert_ne!(bits(&first.vapor, n), bits(&calm.vapor, n));
    // Every cell far from the crystal was multiplied by 1.1 or by 0.9 in the first step.
    let mut once: State<f32> = State::new(n, 0.0, 0.5, 1.0);
    let mut rng = StdRng::seed_from_u64(3);
    once.update_with_noise(&rules(p), &mut rng);
    let (mut heads, mut tails) = (0, 0);
    for i in 0..n {
        for j in 0..3 {
            let d = once.vapor.get(i, j);
            if d == 0.5f32 * (1.0 + 0.1) {
                heads += 1;
            } else if d == 0.5f32 * (1.0 - 0.1) {
                tails += 1;
            } else {
                panic!("cell ({i}, {j}) holds {d}");
            }
        }
    }
    assert!(heads > 0 && tails > 0);
}

#[test]
fn snapshot_shows_crystal_mass_of_frozen_cells_only() {
    let p = defaults();
    let mut state: State<f32> = State::new(10, 0.0, 0.5, 1.0);
    state.update(&rules(p));
    let shown = state.snapshot(0.0);
    for i in 0..10 {
        for j in 0..10 {
            let expected = if (i, j) == (5, 5) { 1.0 } else { 0.0 };
            assert_eq!(shown.get(i, j), expected);
        }
    }
    assert!(state.crystal_mass.get(6, 5) > 0.0);
}
