use snowflake::lattice::Ring;
use snowflake::rules::{Evidence, Rules};
use snowflake::state::State;

// Quantities as whole numbers of a unit so small that every division below comes
// out even for as many steps as the tests take.
const ONE: i128 = 7i128.pow(12) * 2i128.pow(60);

fn rules() -> Rules<
    i128,
    impl Fn(i128, Ring<i128>, u8) -> i128,
    impl Fn(i128, i128, i128) -> (i128, i128),
    impl Fn(i128, Ring<i128>) -> Evidence,
    impl Fn(i128, i128) -> i128,
    impl Fn(i128, i128, i128) -> (i128, i128, i128),
    impl Fn(i128, bool) -> i128,
> {
    Rules {
        zero: 0i128,
        diffuse: |own: i128, around: Ring<i128>, k: u8| {
            let handed = (1 + k as i128) * own
                + around.east
                + around.west
                + around.north
                + around.south
                + around.north_west
                + around.south_east;
            assert_eq!(handed % 7, 0);
            handed / 7
        },
        // A quarter of the vapor freezes directly.
        freeze: |b: i128, c: i128, d: i128| {
            assert_eq!(d % 4, 0);
            (b + 3 * (d / 4), c + d / 4)
        },
        probe: |b: i128, around: Ring<i128>| Evidence {
            reaches_tip_threshold: 4 * b >= ONE,
            saturated: b >= ONE,
            reaches_concave_threshold: 10 * b >= ONE,
            vapor_depleted: 200 * (around.east + around.west + around.north + around.south
                + around.north_west + around.south_east) < ONE,
        },
        attach: |b: i128, c: i128| c + b,
        // Half of the boundary mass melts, a quarter of the crystal mass sublimates.
        melt: |b: i128, c: i128, d: i128| {
            assert_eq!(b % 2, 0);
            assert_eq!(c % 4, 0);
            (b - b / 2, c - c / 4, d + b / 2 + c / 4)
        },
        perturb: |d: i128, _heads: bool| d,
    }
}

fn total(state: &State<i128>, n: usize) -> i128 {
    let mut sum = 0;
    for i in 0..n {
        for j in 0..n {
            sum += state.boundary_mass.get(i, j) + state.crystal_mass.get(i, j) + state.vapor.get(i, j);
        }
    }
    sum
}

fn turn(n: usize, i: usize, j: usize) -> (usize, usize) {
    let n = n as i64;
    let c = n / 2;
    let (i, j) = (i as i64, j as i64);
    ((2 * c - j).rem_euclid(n) as usize, (i + j - c).rem_euclid(n) as usize)
}

#[test]
fn exact_rules_keep_the_mass_exactly() {
    let n = 12;
    let mut state: State<i128> = State::new(n, 0, ONE / 2, ONE);
    let start = total(&state, n);
    assert_eq!(start, 143 * (ONE / 2) + ONE);
    let r = rules();
    let mut frozen = 1;
    for step in 0..10 {
        state.update(&r);
        assert_eq!(total(&state, n), start, "after step {step}");
        let mut now = 0;
        for i in 0..n {
            for j in 0..n {
                if state.ice.get(i, j) {
                    now += 1;
                }
            }
        }
        assert!(now >= frozen);
        frozen = now;
    }
    assert!(frozen > 1, "the crystal never grew");
}

#[test]
fn exact_rules_keep_all_lattices_symmetric() {
    for n in [11usize, 12] {
        let mut state: State<i128> = State::new(n, 0, ONE / 2, ONE);
        let r = rules();
        for step in 0..10 {
            state.update(&r);
            for i in 0..n {
                for j in 0..n {
                    let (ti, tj) = turn(n, i, j);
                    assert_eq!(state.ice.get(ti, tj), state.ice.get(i, j), "step {step}");
                    assert_eq!(state.vapor.get(ti, tj), state.vapor.get(i, j), "step {step}");
                    assert_eq!(
                        state.boundary_mass.get(ti, tj),
                        state.boundary_mass.get(i, j),
                        "step {step}"
                    );
                    assert_eq!(
                        state.crystal_mass.get(ti, tj),
                        state.crystal_mass.get(i, j),
                        "step {step}"
                    );
                }
            }
        }
    }
}
