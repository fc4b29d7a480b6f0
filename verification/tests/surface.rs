use snowflake::grid::Mask;
use snowflake::rim::collect_rim;
use snowflake::surface::{cap_facets, cells_to_triangles, rim_contours, side_facets, walk_rim, Corner, Facet};

fn mask_of(n: usize, set: &[(usize, usize)]) -> Mask {
    let mut m = Mask::new(n, n);
    for &(i, j) in set {
        m.set(i, j, true);
    }
    m
}

fn top(i: usize, j: usize) -> Corner {
    Corner { i, j, top: true }
}

fn bottom(i: usize, j: usize) -> Corner {
    Corner { i, j, top: false }
}

fn rotate_to_start(path: &[(usize, usize)], start: (usize, usize)) -> Vec<(usize, usize)> {
    let open = &path[..path.len() - 1];
    let at = open.iter().position(|p| *p == start).expect("start is on the path");
    let mut out = Vec::new();
    for t in 0..open.len() {
        out.push(open[(at + t) % open.len()]);
    }
    out
}

#[test]
fn nothing_solid_gives_no_facet() {
    assert!(cells_to_triangles(&mask_of(4, &[])).is_empty());
    assert!(cells_to_triangles(&mask_of(0, &[])).is_empty());
    assert!(cells_to_triangles(&mask_of(1, &[(0, 0)])).is_empty());
}

#[test]
fn two_solid_cells_span_no_triangle() {
    assert!(cells_to_triangles(&mask_of(3, &[(0, 0), (1, 0)])).is_empty());
}

#[test]
fn lower_triangle_has_two_caps_and_six_sides() {
    let solid = mask_of(2, &[(0, 0), (1, 0), (0, 1)]);
    let caps = cap_facets(&solid);
    assert_eq!(
        caps,
        vec![
            Facet(top(0, 0), top(1, 0), top(0, 1)),
            Facet(bottom(0, 1), bottom(1, 0), bottom(0, 0)),
        ]
    );
    let contours = rim_contours(&solid);
    assert_eq!(contours.len(), 1);
    assert_eq!(contours[0].len(), 4);
    assert_eq!(contours[0][0], contours[0][3]);
    assert_eq!(rotate_to_start(&contours[0], (0, 0)), vec![(0, 0), (1, 0), (0, 1)]);
    let facets = cells_to_triangles(&solid);
    assert_eq!(facets.len(), 8);
    assert_eq!(&facets[..2], &caps[..]);
}

#[test]
fn upper_triangle_alone() {
    let solid = mask_of(2, &[(1, 0), (1, 1), (0, 1)]);
    assert_eq!(
        cap_facets(&solid),
        vec![
            Facet(top(1, 0), top(1, 1), top(0, 1)),
            Facet(bottom(0, 1), bottom(1, 1), bottom(1, 0)),
        ]
    );
    let contours = rim_contours(&solid);
    assert_eq!(contours.len(), 1);
    assert_eq!(rotate_to_start(&contours[0], (1, 0)), vec![(1, 0), (1, 1), (0, 1)]);
}

#[test]
fn full_cell_cancels_its_diagonal() {
    let solid = mask_of(2, &[(0, 0), (1, 0), (0, 1), (1, 1)]);
    let caps = cap_facets(&solid);
    assert_eq!(
        caps,
        vec![
            Facet(top(0, 0), top(1, 0), top(0, 1)),
            Facet(bottom(0, 1), bottom(1, 0), bottom(0, 0)),
            Facet(top(1, 0), top(1, 1), top(0, 1)),
            Facet(bottom(0, 1), bottom(1, 1), bottom(1, 0)),
        ]
    );
    let contours = rim_contours(&solid);
    assert_eq!(contours.len(), 1);
    assert_eq!(
        rotate_to_start(&contours[0], (0, 0)),
        vec![(0, 0), (1, 0), (1, 1), (0, 1)]
    );
    assert_eq!(cells_to_triangles(&solid).len(), 4 + 8);
}

#[test]
fn side_facets_of_one_step() {
    let contours = vec![vec![(2usize, 3usize), (3, 3)]];
    assert_eq!(
        side_facets(&contours),
        vec![
            Facet(top(3, 3), top(2, 3), bottom(3, 3)),
            Facet(bottom(2, 3), bottom(3, 3), top(2, 3)),
        ]
    );
}

#[test]
fn side_facets_follow_paths_and_steps_in_order() {
    let contours = vec![vec![(0usize, 0usize), (1, 0), (0, 1)], vec![(5, 5), (5, 6)]];
    let facets = side_facets(&contours);
    assert_eq!(facets.len(), 6);
    assert_eq!(facets[0], Facet(top(1, 0), top(0, 0), bottom(1, 0)));
    assert_eq!(facets[2], Facet(top(0, 1), top(1, 0), bottom(0, 1)));
    assert_eq!(facets[4], Facet(top(5, 6), top(5, 5), bottom(5, 6)));
    assert_eq!(facets[5], Facet(bottom(5, 5), bottom(5, 6), top(5, 5)));
}

#[test]
fn rows_of_caps_come_in_order() {
    let solid = mask_of(3, &[(0, 0), (1, 0), (0, 1), (1, 1), (2, 1), (1, 2)]);
    let caps = cap_facets(&solid);
    // Cell (0, 0): both triangles; cell (1, 1): the lower triangle.
    assert_eq!(caps.len(), 6);
    assert_eq!(caps[0], Facet(top(0, 0), top(1, 0), top(0, 1)));
    assert_eq!(caps[2], Facet(top(1, 0), top(1, 1), top(0, 1)));
    assert_eq!(caps[4], Facet(top(1, 1), top(2, 1), top(1, 2)));
    assert_eq!(caps[5], Facet(bottom(1, 2), bottom(2, 1), bottom(1, 1)));
}

#[test]
fn two_triangles_that_touch_in_a_point() {
    // The upper triangle of cell (0, 0) and the lower triangle of cell (1, 1) share
    // the point (1, 1) and nothing else.
    let solid = mask_of(3, &[(1, 0), (1, 1), (0, 1), (2, 1), (1, 2)]);
    assert_eq!(cap_facets(&solid).len(), 4);
    let contours = rim_contours(&solid);
    let mut starts: Vec<(usize, usize)> = Vec::new();
    for path in &contours {
        assert!(path.len() >= 2);
        for t in 0..path.len() - 1 {
            starts.push(path[t]);
        }
    }
    starts.sort();
    // One step leaves from every point of the rim, whichever way the walk turned
    // at the shared point.
    assert_eq!(starts, vec![(0, 1), (1, 0), (1, 1), (1, 2), (2, 1)]);
    assert_eq!(cells_to_triangles(&solid).len(), 4 + 10);
}

#[test]
fn rim_map_of_a_full_cell() {
    let solid = mask_of(2, &[(0, 0), (1, 0), (0, 1), (1, 1)]);
    let m = collect_rim(&solid);
    assert_eq!(m.len(), 4);
    for (start, end) in [((0, 0), (1, 0)), ((1, 0), (1, 1)), ((1, 1), (0, 1)), ((0, 1), (0, 0))] {
        let ends = m.get(&start).expect("an edge starts here");
        assert_eq!(ends.len(), 1);
        assert!(ends.contains(&end));
    }
    let contours = walk_rim(m);
    assert_eq!(contours.len(), 1);
    assert_eq!(contours[0].len(), 5);
}

#[test]
fn hole_in_the_region_gives_a_second_contour() {
    // All cells of a 4 by 4 lattice but (1, 1) and (2, 2)... a single missing cell
    // takes six triangles with it.
    let mut cells = Vec::new();
    for i in 0..5 {
        for j in 0..5 {
            if (i, j) != (2, 2) {
                cells.push((i, j));
            }
        }
    }
    let solid = mask_of(5, &cells);
    let contours = rim_contours(&solid);
    let mut lengths: Vec<usize> = contours.iter().map(|p| p.len() - 1).collect();
    lengths.sort();
    assert_eq!(lengths, vec![6, 16]);
    // 16 cells start two triangles each; six triangles touch the missing point.
    assert_eq!(cap_facets(&solid).len(), 2 * (32 - 6));
}
