use ndarray_rand::rand::rngs::StdRng;
use ndarray_rand::rand::SeedableRng;
use snowflake::contour::shape_traceable;
use snowflake::grid::{shape_fits, Counts, Mask};
use snowflake::lattice::{neighbors, step_down, step_up};
use snowflake::layer::Layer;
use snowflake::noise::toss;

#[test]
fn new_mask_is_clear() {
    let m = Mask::new(3, 5);
    assert_eq!(m.nrows(), 3);
    assert_eq!(m.ncols(), 5);
    for i in 0..3 {
        for j in 0..5 {
            assert!(!m.get(i, j));
        }
    }
}

#[test]
fn mask_set_changes_one_cell() {
    let mut m = Mask::new(3, 5);
    m.set(2, 4, true);
    m.set(0, 1, true);
    m.set(0, 1, false);
    for i in 0..3 {
        for j in 0..5 {
            assert_eq!(m.get(i, j), (i, j) == (2, 4));
        }
    }
}

#[test]
fn new_counts_are_zero_and_set_changes_one_cell() {
    let mut c = Counts::new(4, 2);
    assert_eq!(c.nrows(), 4);
    assert_eq!(c.ncols(), 2);
    c.set(3, 1, 6);
    for i in 0..4 {
        for j in 0..2 {
            assert_eq!(c.get(i, j), if (i, j) == (3, 1) { 6 } else { 0 });
        }
    }
}

#[test]
fn shapes_that_fit() {
    assert!(shape_fits(0, isize::MAX as usize));
    assert!(shape_fits(isize::MAX as usize, 0));
    assert!(!shape_fits(0, usize::MAX));
    assert!(!shape_fits(usize::MAX, 0));
    assert!(shape_fits(0, 0));
    assert!(shape_fits(1000, 1000));
    assert!(shape_fits(1, isize::MAX as usize));
    assert!(!shape_fits(2, isize::MAX as usize));
    assert!(!shape_fits(usize::MAX, usize::MAX));
}

#[test]
fn mask_without_rows_keeps_its_columns() {
    let m = Mask::new(0, 7);
    assert_eq!(m.nrows(), 0);
    assert_eq!(m.ncols(), 7);
}

#[test]
fn shapes_that_can_be_traced() {
    assert!(shape_traceable(0, 0));
    assert!(shape_traceable(1000, 1000));
    assert!(shape_traceable(0, 715_827_882));
    assert!(!shape_traceable(0, 715_827_883));
    assert!(shape_traceable(1_073_741_823, 1));
    assert!(!shape_traceable(1_073_741_824, 0));
}

#[test]
fn steps_on_a_ring() {
    assert_eq!(step_up(0, 5), 1);
    assert_eq!(step_up(4, 5), 0);
    assert_eq!(step_down(0, 5), 4);
    assert_eq!(step_down(3, 5), 2);
    assert_eq!(step_up(0, 1), 0);
    assert_eq!(step_down(0, 1), 0);
}

#[test]
fn neighbours_in_the_order_of_the_offsets() {
    assert_eq!(neighbors(10, 5, 5), [(6, 5), (4, 5), (5, 6), (5, 4), (4, 6), (6, 4)]);
    assert_eq!(neighbors(10, 0, 9), [(1, 9), (9, 9), (0, 0), (0, 8), (9, 0), (1, 8)]);
}

#[test]
fn layer_filled_get_set_around() {
    let mut l: Layer<u32> = Layer::filled(4, 4, 0);
    for i in 0..4 {
        for j in 0..4 {
            l.set(i, j, (10 * i + j) as u32);
        }
    }
    assert_eq!(l.get(2, 3), 23);
    let r = l.around(0, 3);
    assert_eq!(
        (r.east, r.west, r.north, r.south, r.north_west, r.south_east),
        (13, 33, 0, 2, 30, 12)
    );
}

#[test]
fn toss_gives_a_coin_for_every_cell() {
    let mut rng = StdRng::seed_from_u64(5);
    let coins = toss(&mut rng, 16, 32);
    assert_eq!(coins.nrows(), 16);
    assert_eq!(coins.ncols(), 32);
    let mut heads = 0;
    for i in 0..16 {
        for j in 0..32 {
            if coins.get(i, j) {
                heads += 1;
            }
        }
    }
    assert!(heads > 0 && heads < 512);
    let mut again = StdRng::seed_from_u64(5);
    let same = toss(&mut again, 16, 32);
    for i in 0..16 {
        for j in 0..32 {
            assert_eq!(coins.get(i, j), same.get(i, j));
        }
    }
}
