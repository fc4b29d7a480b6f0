use ndarray_rand::rand::rngs::StdRng;
use ndarray_rand::rand::SeedableRng;
use snowflake::lattice::Ring;
use snowflake::rules::{Evidence, Rules};
use snowflake::simulation::{
    plan_tick, tick, FieldInner, SimulationConfigInner, SimulationConfigLogInner,
    SimulationConfigLogRecord, Tick,
};
use snowflake::state::State;

fn defaults() -> SimulationConfigInner<f32> {
    SimulationConfigInner {
        rho: 0.5,
        beta: 1.4,
        alpha: 0.1,
        theta: 0.005,
        kappa: 0.001,
        mu: 0.06,
        gamma: 0.001,
        sigma: 0.0,
    }
}

fn rules(
    p: SimulationConfigInner<f32>,
) -> Rules<
    f32,
    impl Fn(f32, Ring<f32>, u8) -> f32,
    impl Fn(f32, f32, f32) -> (f32, f32),
    impl Fn(f32, Ring<f32>) -> Evidence,
    impl Fn(f32, f32) -> f32,
    impl Fn(f32, f32, f32) -> (f32, f32, f32),
    impl Fn(f32, bool) -> f32,
> {
    Rules {
        zero: 0.0f32,
        diffuse: |own: f32, around: Ring<f32>, k: u8| {
            (own + around.east + around.west + around.north + around.south + around.north_west
                + around.south_east + k as f32 * own) / 7.0
        },
        freeze: move |b: f32, c: f32, d: f32| (b + (1.0 - p.kappa) * d, c + p.kappa * d),
        probe: move |b: f32, around: Ring<f32>| Evidence {
            reaches_tip_threshold: b >= p.beta,
            saturated: b >= 1.0,
            reaches_concave_threshold: b >= p.alpha,
            vapor_depleted: around.east + around.west + around.north + around.south
                + around.north_west + around.south_east < p.theta,
        },
        attach: |b: f32, c: f32| c + b,
        melt: move |b: f32, c: f32, d: f32| {
            let mu_b = p.mu * b;
            let gamma_c = p.gamma * c;
            (b - mu_b, c - gamma_c, d + (mu_b + gamma_c))
        },
        perturb: move |d: f32, heads: bool| if heads { d * (1.0 + p.sigma) } else { d * (1.0 - p.sigma) },
    }
}

#[test]
fn plan_at_step_zero_rebuilds_and_records() {
    assert_eq!(
        plan_tick(0, true, false),
        Tick { rebuilt: true, recorded: true, report_mass: true, advanced: true }
    );
    assert_eq!(
        plan_tick(0, false, true),
        Tick { rebuilt: true, recorded: false, report_mass: false, advanced: false }
    );
}

#[test]
fn plan_later_records_changes_only() {
    assert_eq!(
        plan_tick(7, true, false),
        Tick { rebuilt: false, recorded: false, report_mass: false, advanced: true }
    );
    assert_eq!(
        plan_tick(7, true, true),
        Tick { rebuilt: false, recorded: true, report_mass: false, advanced: true }
    );
    assert_eq!(
        plan_tick(7, false, true),
        Tick { rebuilt: false, recorded: false, report_mass: false, advanced: false }
    );
}

#[test]
fn plan_reports_mass_every_hundredth_step() {
    assert!(plan_tick(100, true, false).report_mass);
    assert!(plan_tick(300, true, false).report_mass);
    assert!(!plan_tick(101, true, false).report_mass);
    assert!(!plan_tick(99, true, false).report_mass);
    assert!(!plan_tick(100, false, false).report_mass);
}

#[test]
fn record_copies_the_parameters() {
    let config = SimulationConfigInner {
        rho: 1.0f32,
        beta: 2.0,
        alpha: 3.0,
        theta: 4.0,
        kappa: 5.0,
        mu: 6.0,
        gamma: 7.0,
        sigma: 8.0,
    };
    let record = SimulationConfigLogRecord::new(42, &config);
    assert_eq!(
        record,
        SimulationConfigLogRecord {
            step: 42,
            rho: 1.0,
            beta: 2.0,
            alpha: 3.0,
            theta: 4.0,
            kappa: 5.0,
            mu: 6.0,
            gamma: 7.0,
            sigma: 8.0,
        }
    );
}

#[test]
fn log_keeps_records_in_order_and_forgets_them_on_clear() {
    let mut log: SimulationConfigLogInner<f32> = SimulationConfigLogInner::new();
    assert_eq!(log.len(), 0);
    let mut config = defaults();
    log.push(SimulationConfigLogRecord::new(0, &config));
    config.beta = 2.0;
    log.push(SimulationConfigLogRecord::new(5, &config));
    assert_eq!(log.len(), 2);
    assert_eq!(log.get(0).step, 0);
    assert_eq!(log.get(0).beta, 1.4);
    assert_eq!(log.get(1).step, 5);
    assert_eq!(log.get(1).beta, 2.0);
    log.clear();
    assert_eq!(log.len(), 0);
}

#[test]
fn new_field_is_blank_and_paused() {
    let field: FieldInner<f32> = FieldInner::new(6, 0.0);
    assert_eq!(field.step, 0);
    assert!(!field.is_running);
    assert_eq!(field.cells.rows.len(), 6);
    for row in &field.cells.rows {
        assert_eq!(row, &vec![0.0f32; 6]);
    }
}

#[test]
fn paused_run_at_step_zero_shows_the_seed_and_waits() {
    let config = defaults();
    let mut field: FieldInner<f32> = FieldInner::new(10, 0.0);
    let mut state: State<f32> = State::new(10, 0.0, 0.9, 1.0);
    let mut log: SimulationConfigLogInner<f32> = SimulationConfigLogInner::new();
    log.push(SimulationConfigLogRecord::new(3, &config));
    let mut rng = StdRng::seed_from_u64(1);
    let t = tick(&mut field, &mut state, &mut log, &config, true, 1.0, &rules(config), false, &mut rng);
    assert_eq!(t, Tick { rebuilt: true, recorded: false, report_mass: false, advanced: false });
    assert_eq!(field.step, 0);
    assert_eq!(log.len(), 0);
    assert_eq!(state.vapor.get(0, 0), 0.5);
    assert_eq!(field.cells.get(5, 5), 1.0);
    assert_eq!(field.cells.get(5, 6), 0.0);
}

#[test]
fn running_ticks_count_steps_and_record_changes() {
    let mut config = defaults();
    let mut field: FieldInner<f32> = FieldInner::new(10, 0.0);
    field.is_running = true;
    let mut state: State<f32> = State::new(10, 0.0, config.rho, 1.0);
    let mut log: SimulationConfigLogInner<f32> = SimulationConfigLogInner::new();
    let mut rng = StdRng::seed_from_u64(1);

    let t = tick(&mut field, &mut state, &mut log, &config, false, 1.0, &rules(config), false, &mut rng);
    assert_eq!(t, Tick { rebuilt: true, recorded: true, report_mass: true, advanced: true });
    assert_eq!(field.step, 1);
    assert_eq!(log.len(), 1);
    assert_eq!(log.get(0), SimulationConfigLogRecord::new(0, &config));

    let t = tick(&mut field, &mut state, &mut log, &config, false, 1.0, &rules(config), false, &mut rng);
    assert_eq!(t, Tick { rebuilt: false, recorded: false, report_mass: false, advanced: true });
    assert_eq!(field.step, 2);
    assert_eq!(log.len(), 1);

    config.beta = 1.0;
    let t = tick(&mut field, &mut state, &mut log, &config, true, 1.0, &rules(config), false, &mut rng);
    assert!(t.recorded);
    assert_eq!(field.step, 3);
    assert_eq!(log.len(), 2);
    assert_eq!(log.get(1), SimulationConfigLogRecord::new(2, &config));

    // The picture shows the crystal mass of the frozen cells.
    for i in 0..10 {
        for j in 0..10 {
            let expected = if state.ice.get(i, j) { state.crystal_mass.get(i, j) } else { 0.0 };
            assert_eq!(field.cells.get(i, j), expected);
        }
    }
}

#[test]
fn reset_takes_effect_at_the_next_tick() {
    let config = defaults();
    let mut field: FieldInner<f32> = FieldInner::new(12, 0.0);
    field.is_running = true;
    let mut state: State<f32> = State::new(12, 0.0, config.rho, 1.0);
    let mut log: SimulationConfigLogInner<f32> = SimulationConfigLogInner::new();
    let mut rng = StdRng::seed_from_u64(1);
    for _ in 0..5 {
        tick(&mut field, &mut state, &mut log, &config, false, 1.0, &rules(config), false, &mut rng);
    }
    assert_eq!(field.step, 5);
    assert!(state.boundary_mass.get(7, 6) > 0.0);

    field.step = 0;
    field.is_running = false;
    let t = tick(&mut field, &mut state, &mut log, &config, false, 1.0, &rules(config), false, &mut rng);
    assert!(t.rebuilt && !t.advanced);
    assert_eq!(log.len(), 0);
    assert_eq!(state.boundary_mass.get(7, 6), 0.0);
    assert_eq!(state.vapor.get(7, 6), 0.5);
    assert!(state.ice.get(6, 6));
}

#[test]
fn noisy_tick_perturbs_the_vapor() {
    let mut config = defaults();
    config.sigma = 0.25;
    let mut field: FieldInner<f32> = FieldInner::new(8, 0.0);
    field.is_running = true;
    let mut state: State<f32> = State::new(8, 0.0, config.rho, 1.0);
    let mut log: SimulationConfigLogInner<f32> = SimulationConfigLogInner::new();
    let mut rng = StdRng::seed_from_u64(9);
    tick(&mut field, &mut state, &mut log, &config, false, 1.0, &rules(config), true, &mut rng);
    let d = state.vapor.get(0, 0);
    assert!(d == 0.625 || d == 0.375, "got {d}");
}
