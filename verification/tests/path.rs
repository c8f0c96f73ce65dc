use terrain::grid::MapData;
use terrain::grid::MapDataValue;
use terrain::path::PathRasterizer;
use terrain::path::apply_drag;
use terrain::path::to_cell;

#[test]
fn ten_step_horizontal_drag_samples_strictly_between() {
    let rast = PathRasterizer::new((0, 0), (10, 0), 10);
    let points = rast.points();
    assert_eq!(points.len(), 9);
    let mut prev_x = 0i64;
    for (i, p) in points.iter().enumerate() {
        assert_eq!(*p, ((i as i64) + 1, 0));
        assert!(p.0 > 0 && p.0 < 10);
        assert!(p.0 > prev_x);
        prev_x = p.0;
    }
}

#[test]
fn next_hands_out_each_sample_once() {
    let mut rast = PathRasterizer::new((0, 0), (10, 0), 10);
    for i in 1..10i64 {
        assert_eq!(rast.next(), Some((i, 0)));
    }
    assert_eq!(rast.next(), None);
    assert_eq!(rast.next(), None);
}

#[test]
fn point_at_is_the_interpolation() {
    let rast = PathRasterizer::new((-8, 4), (8, -4), 4);
    assert_eq!(rast.point_at(1), (-4, 2));
    assert_eq!(rast.point_at(2), (0, 0));
    assert_eq!(rast.point_at(3), (4, -2));
}

#[test]
fn uneven_steps_round_toward_begin() {
    let rast = PathRasterizer::new((0, 0), (10, 0), 3);
    assert_eq!(rast.point_at(1), (3, 0));
    assert_eq!(rast.point_at(2), (6, 0));
}

#[test]
fn to_cell_takes_signed_offsets_and_rejects_outside() {
    assert_eq!(to_cell((10, 20), (10, 20), 5, 5), Some((0, 0)));
    assert_eq!(to_cell((14, 24), (10, 20), 5, 5), Some((4, 4)));
    assert_eq!(to_cell((15, 24), (10, 20), 5, 5), None);
    assert_eq!(to_cell((14, 25), (10, 20), 5, 5), None);
    // a point west or south of the chunk's origin is rejected, not folded
    // back into range by its absolute value
    assert_eq!(to_cell((9, 22), (10, 20), 5, 5), None);
    assert_eq!(to_cell((12, 19), (10, 20), 5, 5), None);
    assert_eq!(to_cell((-3, -3), (-5, -5), 5, 5), Some((2, 2)));
}

#[test]
fn erase_drag_leaves_band_empty_and_neighbors_intact() {
    let mut chunk = MapData::new(500, 500);
    chunk.fill(MapDataValue::Sand);
    apply_drag(&mut chunk, (0, 0), (100, 100), (200, 100), 100, MapDataValue::Empty);
    // samples land on (101, 100) .. (199, 100); both drag endpoints are
    // excluded
    for x in 101..200 {
        assert_eq!(chunk.get(x, 100).unwrap(), MapDataValue::Empty);
    }
    assert_eq!(chunk.get(100, 100).unwrap(), MapDataValue::Sand);
    assert_eq!(chunk.get(200, 100).unwrap(), MapDataValue::Sand);
    assert_eq!(chunk.get(150, 99).unwrap(), MapDataValue::Sand);
    assert_eq!(chunk.get(150, 101).unwrap(), MapDataValue::Sand);
    // the erased band is a boundary, so re-extraction now yields contours
    let paths = chunk.to_paths();
    assert!(paths.len() > 0);
    for p in &paths {
        assert!(p.len() >= 2);
    }
}

#[test]
fn paint_drag_writes_sand_into_empty_chunk() {
    let mut chunk = MapData::new(50, 50);
    apply_drag(&mut chunk, (0, 0), (10, 10), (20, 30), 10, MapDataValue::Sand);
    // sample i sits at (10 + i, 10 + 2 * i)
    for i in 1..10 {
        assert_eq!(chunk.get(10 + i, 10 + 2 * i).unwrap(), MapDataValue::Sand);
    }
    assert_eq!(chunk.get(10, 10).unwrap(), MapDataValue::Empty);
    assert_eq!(chunk.get(20, 30).unwrap(), MapDataValue::Empty);
}

#[test]
fn drag_samples_outside_the_chunk_are_dropped() {
    let mut chunk = MapData::new(5, 5);
    // the drag runs mostly west of the chunk's origin
    apply_drag(&mut chunk, (0, 0), (-10, 2), (4, 2), 14, MapDataValue::Sand);
    for i in 1..14i64 {
        let x = -10 + i;
        if (0..5).contains(&x) {
            assert_eq!(chunk.get(x as usize, 2).unwrap(), MapDataValue::Sand);
        }
    }
    assert_eq!(chunk.get(0, 0).unwrap(), MapDataValue::Empty);
    assert_eq!(chunk.get(4, 2).unwrap(), MapDataValue::Empty);
}
