use terrain::TerrainError;
use terrain::grid::MapData;
use terrain::grid::MapDataValue;

#[test]
fn access() {
    let mapdata = MapData::new(5, 5);
    assert_eq!(mapdata.get(0, 0).unwrap(), MapDataValue::Empty);
    assert_eq!(mapdata.get(4, 4).unwrap(), MapDataValue::Empty);
}

#[test]
fn set() {
    let mut mapdata = MapData::new(5, 5);
    mapdata.set(0, 0, MapDataValue::Sand).unwrap();
    mapdata.set(4, 4, MapDataValue::Sand).unwrap();
    assert_eq!(mapdata.get(0, 0).unwrap(), MapDataValue::Sand);
    assert_eq!(mapdata.get(4, 4).unwrap(), MapDataValue::Sand);
    assert_eq!(mapdata.get(1, 1).unwrap(), MapDataValue::Empty);
}

#[test]
#[should_panic]
fn out_of_bounds_read_x() {
    let mapdata = MapData::new(5, 5);
    mapdata.get(5, 0).unwrap();
}

#[test]
#[should_panic]
fn out_of_bounds_read_y() {
    let mapdata = MapData::new(5, 5);
    mapdata.get(0, 5).unwrap();
}

#[test]
fn set_updates_only_target() {
    let mut g = MapData::new(7, 3);
    g.set(2, 1, MapDataValue::Rock).unwrap();
    for x in 0..7 {
        for y in 0..3 {
            let expected = if (x, y) == (2, 1) { MapDataValue::Rock } else { MapDataValue::Empty };
            assert_eq!(g.get(x, y).unwrap(), expected);
        }
    }
    g.set(2, 1, MapDataValue::Wall).unwrap();
    assert_eq!(g.get(2, 1).unwrap(), MapDataValue::Wall);
}

#[test]
fn out_of_bounds_at_exact_edge() {
    let mut g = MapData::new(1, 1);
    assert_eq!(g.get(1, 0), Err(TerrainError::OutOfBounds));
    assert_eq!(g.get(0, 1), Err(TerrainError::OutOfBounds));
    assert_eq!(g.set(1, 0, MapDataValue::Sand), Err(TerrainError::OutOfBounds));
    assert_eq!(g.set(0, 1, MapDataValue::Sand), Err(TerrainError::OutOfBounds));
    assert_eq!(g.get(0, 0).unwrap(), MapDataValue::Empty);

    let mut g = MapData::new(9, 4);
    assert_eq!(g.get(9, 0), Err(TerrainError::OutOfBounds));
    assert_eq!(g.get(0, 4), Err(TerrainError::OutOfBounds));
    assert_eq!(g.set(9, 3, MapDataValue::Base), Err(TerrainError::OutOfBounds));
    assert_eq!(g.set(8, 4, MapDataValue::Base), Err(TerrainError::OutOfBounds));
    assert_eq!(g.get(8, 3).unwrap(), MapDataValue::Empty);
}

#[test]
fn fill_overwrites_every_cell() {
    let mut g = MapData::new(6, 5);
    g.set(1, 1, MapDataValue::Rock).unwrap();
    g.fill(MapDataValue::Sand);
    for x in 0..6 {
        for y in 0..5 {
            assert_eq!(g.get(x, y).unwrap(), MapDataValue::Sand);
        }
    }
    g.set(3, 2, MapDataValue::Empty).unwrap();
    assert_eq!(g.get(3, 2).unwrap(), MapDataValue::Empty);
    assert_eq!(g.get(4, 2).unwrap(), MapDataValue::Sand);
    assert_eq!(g.get(0, 0).unwrap(), MapDataValue::Sand);
}

#[test]
fn dimensions_reports_size() {
    let g = MapData::new(12, 34);
    assert_eq!(g.dimensions(), (12, 34));
}

#[test]
fn fill_rect_paints_only_the_rectangle() {
    let mut g = MapData::new(500, 500);
    g.fill_rect(200, 200, 300, 300, MapDataValue::Sand);
    assert_eq!(g.get(200, 200).unwrap(), MapDataValue::Sand);
    assert_eq!(g.get(299, 299).unwrap(), MapDataValue::Sand);
    assert_eq!(g.get(250, 250).unwrap(), MapDataValue::Sand);
    assert_eq!(g.get(199, 250).unwrap(), MapDataValue::Empty);
    assert_eq!(g.get(300, 250).unwrap(), MapDataValue::Empty);
    assert_eq!(g.get(250, 199).unwrap(), MapDataValue::Empty);
    assert_eq!(g.get(250, 300).unwrap(), MapDataValue::Empty);
}
