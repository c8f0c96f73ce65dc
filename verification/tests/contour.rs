use terrain::contour::extract_contours;
use terrain::contour::simplify;
use terrain::contour::stitched_density_rows;
use terrain::grid::MapData;
use terrain::grid::MapDataValue;

#[test]
fn all_empty_grid_yields_zero_loops() {
    let g = MapData::new(8, 8);
    assert_eq!(g.to_paths().len(), 0);
}

#[test]
fn all_occupied_grid_yields_zero_loops() {
    // the pinned convention: a field that is inside everywhere has no
    // threshold crossing, so no border loop is emitted either
    let mut g = MapData::new(8, 8);
    g.fill(MapDataValue::Sand);
    assert_eq!(g.to_paths().len(), 0);
}

#[test]
fn square_region_yields_loops_within_bounds() {
    let mut g = MapData::new(10, 10);
    for x in 3..7 {
        for y in 3..7 {
            g.set(x, y, MapDataValue::Sand).unwrap();
        }
    }
    let paths = g.to_paths();
    assert!(paths.len() > 0);
    for p in &paths {
        assert!(p.len() >= 2);
        for &(x, y) in p {
            assert!((0..10).contains(&x));
            assert!((0..10).contains(&y));
        }
    }
}

#[test]
fn loops_are_explicitly_closed() {
    let mut g = MapData::new(10, 10);
    for x in 3..7 {
        for y in 3..7 {
            g.set(x, y, MapDataValue::Sand).unwrap();
        }
    }
    let paths = g.to_paths();
    assert!(paths.len() > 0);
    for p in &paths {
        assert_eq!(p.first(), p.last());
    }
}

#[test]
fn single_cell_yields_a_loop() {
    let mut g = MapData::new(4, 4);
    g.set(1, 1, MapDataValue::Rock).unwrap();
    assert!(g.to_paths().len() > 0);
}

#[test]
fn simplify_removes_collinear_vertices() {
    let line = vec![(0i64, 0i64), (1, 0), (2, 0), (2, 2)];
    assert_eq!(simplify(&line), vec![(0, 0), (2, 0), (2, 2)]);
}

#[test]
fn simplify_is_idempotent() {
    let loops = vec![
        vec![(0i64, 0i64), (1, 0), (2, 0), (2, 1), (2, 2), (0, 2), (0, 0)],
        vec![(0i64, 0i64), (5, 1), (3, 7), (0, 0)],
        vec![(0i64, 0i64), (1, 1)],
    ];
    for l in loops {
        let once = simplify(&l);
        let twice = simplify(&once);
        assert_eq!(once, twice);
    }
}

#[test]
fn simplify_never_increases_vertex_count() {
    let inputs = vec![
        vec![(0i64, 0i64), (1, 0), (2, 0), (3, 0)],
        vec![(0i64, 0i64), (2, 3), (4, 1), (0, 0)],
        vec![(1i64, 1i64)],
    ];
    for l in inputs {
        assert!(simplify(&l).len() <= l.len());
    }
}

#[test]
fn simplify_keeps_endpoints_of_a_closed_loop() {
    let l = vec![(0i64, 0i64), (1, 0), (3, 0), (3, 3), (0, 3), (0, 1), (0, 0)];
    let s = simplify(&l);
    assert_eq!(s.first(), Some(&(0, 0)));
    assert_eq!(s.last(), Some(&(0, 0)));
    assert!(s.len() >= 2);
}

#[test]
fn simplify_drops_repeated_points() {
    let l = vec![(0i64, 0i64), (1, 1), (1, 1), (1, 1), (4, 0)];
    assert_eq!(simplify(&l), vec![(0, 0), (1, 1), (4, 0)]);
}

#[test]
fn stitched_field_sees_the_neighbor_boundary() {
    let mut current = MapData::new(6, 6);
    current.fill(MapDataValue::Sand);
    let right = MapData::new(6, 6);
    let top = MapData::new(6, 6);
    let top_right = MapData::new(6, 6);

    // alone, a fully occupied chunk has no boundary at all
    assert_eq!(current.to_paths().len(), 0);

    // stitched against empty neighbors, its right and top edges become a
    // boundary the extraction can see
    let rows = stitched_density_rows(&current, &right, &top, &top_right);
    assert_eq!(rows.len(), 7);
    for row in &rows {
        assert_eq!(row.len(), 7);
    }
    assert_eq!(rows[0][0], 1);
    assert_eq!(rows[0][6], 0);
    assert_eq!(rows[6][0], 0);
    assert_eq!(rows[6][6], 0);
    let loops = extract_contours(&rows, 7, 7, 0);
    assert!(loops.len() > 0);
}

#[test]
fn extract_contours_empty_field_has_no_loops() {
    let rows = vec![vec![0i16; 5]; 4];
    assert_eq!(extract_contours(&rows, 5, 4, 0).len(), 0);
}

#[test]
fn extraction_at_a_nonzero_threshold() {
    // a small heightmap rather than a 0/1 density field: one tall column
    // in flat ground, cut at a mid height
    let mut rows = vec![vec![0i16; 5]; 5];
    rows[2][2] = 10;
    let loops = extract_contours(&rows, 5, 5, 5);
    assert!(loops.len() > 0);
    assert_eq!(extract_contours(&rows, 5, 5, 10).len(), 0);
}
