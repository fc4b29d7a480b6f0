use fnv::FnvHashMap;
use snowflake::contour::{extract_contours, walk};
use snowflake::grid::Mask;

fn mask_of(rows: usize, cols: usize, set: &[(usize, usize)]) -> Mask {
    let mut m = Mask::new(rows, cols);
    for &(i, j) in set {
        m.set(i, j, true);
    }
    m
}

fn rotate_to_start(path: &[(i32, i32)], start: (i32, i32)) -> Vec<(i32, i32)> {
    let open = &path[..path.len() - 1];
    let at = open.iter().position(|p| *p == start).expect("start is on the path");
    let mut out: Vec<(i32, i32)> = Vec::new();
    for t in 0..open.len() {
        out.push(open[(at + t) % open.len()]);
    }
    out
}

#[test]
fn empty_mask_has_no_contour() {
    let m = mask_of(4, 4, &[]);
    assert!(extract_contours(&m).is_empty());
}

#[test]
fn single_cell_gives_one_hexagon() {
    let m = mask_of(5, 5, &[(2, 1)]);
    let contours = extract_contours(&m);
    assert_eq!(contours.len(), 1);
    let path = &contours[0];
    assert_eq!(path.len(), 7);
    assert_eq!(path[0], path[6]);
    // Centre (2 * 2 + 1, 3 * 1) = (5, 3); corners counter-clockwise from (+1, +1).
    let expected = vec![(6, 4), (5, 5), (4, 4), (4, 2), (5, 1), (6, 2)];
    assert_eq!(rotate_to_start(path, (6, 4)), expected);
}

#[test]
fn block_of_four_cancels_its_inner_edges() {
    let m = mask_of(2, 2, &[(0, 0), (0, 1), (1, 0), (1, 1)]);
    let contours = extract_contours(&m);
    assert_eq!(contours.len(), 1);
    let path = &contours[0];
    // Four hexagons have 24 edges; five pairs of cells touch, so ten cancel.
    assert_eq!(path.len() - 1, 14);
    assert_eq!(path[0], path[path.len() - 1]);
    let mut seen = path[..path.len() - 1].to_vec();
    seen.sort();
    seen.dedup();
    assert_eq!(seen.len(), 14);
}

#[test]
fn two_cells_apart_give_two_hexagons() {
    let m = mask_of(6, 6, &[(1, 1), (4, 4)]);
    let contours = extract_contours(&m);
    assert_eq!(contours.len(), 2);
    for path in &contours {
        assert_eq!(path.len(), 7);
        assert_eq!(path[0], path[6]);
    }
}

#[test]
fn ring_of_six_has_an_outer_and_an_inner_contour() {
    // The six neighbours of (2, 2), without the cell itself.
    let m = mask_of(5, 5, &[(3, 2), (1, 2), (2, 3), (2, 1), (1, 3), (3, 1)]);
    let mut lengths: Vec<usize> = extract_contours(&m).iter().map(|p| p.len() - 1).collect();
    lengths.sort();
    assert_eq!(lengths, vec![6, 18]);
}

#[test]
fn scaled_points_of_a_cell_at_the_origin() {
    let m = mask_of(1, 1, &[(0, 0)]);
    let contours = extract_contours(&m);
    let path = rotate_to_start(&contours[0], (1, 1));
    let scale = 2.0f32;
    let points: Vec<(f32, f32)> = path
        .iter()
        .map(|&(x, y)| (scale * x as f32 / 2.0, scale * y as f32 / 2.0 / 3.0f32.sqrt()))
        .collect();
    assert_eq!(points[0], (1.0, 1.0 / 3.0f32.sqrt()));
    assert_eq!(points[1], (0.0, 2.0 / 3.0f32.sqrt()));
    assert_eq!(points[3], (-1.0, -1.0 / 3.0f32.sqrt()));
}

#[test]
fn walk_follows_a_chain_that_does_not_close() {
    let mut m: FnvHashMap<(i32, i32), (i32, i32)> = FnvHashMap::default();
    m.insert((0, 0), (1, 0));
    m.insert((1, 0), (2, 0));
    m.insert((2, 0), (3, 0));
    let paths = walk(m);
    let steps: usize = paths.iter().map(|p| p.len() - 1).sum();
    assert_eq!(steps, 3);
    for path in &paths {
        assert!(path.len() >= 2);
        for pair in path.windows(2) {
            assert_eq!(pair[1], (pair[0].0 + 1, 0));
        }
    }
}

#[test]
fn walk_closes_a_triangle() {
    let mut m: FnvHashMap<(i32, i32), (i32, i32)> = FnvHashMap::default();
    m.insert((0, 0), (2, 0));
    m.insert((2, 0), (1, 2));
    m.insert((1, 2), (0, 0));
    let paths = walk(m);
    assert_eq!(paths.len(), 1);
    assert_eq!(paths[0].len(), 4);
    assert_eq!(paths[0][0], paths[0][3]);
}
