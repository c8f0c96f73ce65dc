use terrain::TerrainError;
use terrain::chunks::ChunkGrid;

#[test]
fn duplicate_coordinate_is_rejected() {
    let mut reg = ChunkGrid::new();
    assert_eq!(reg.set(3, -2, 41), Ok(()));
    assert_eq!(reg.set(3, -2, 99), Err(TerrainError::DuplicateChunk));
    assert_eq!(reg.get(3, -2), Some(41));
}

#[test]
fn distinct_coordinates_are_independent() {
    let mut reg = ChunkGrid::new();
    assert_eq!(reg.set(0, 0, 1), Ok(()));
    assert_eq!(reg.set(1, 0, 2), Ok(()));
    assert_eq!(reg.set(0, 1, 3), Ok(()));
    assert_eq!(reg.set(-1, -1, 4), Ok(()));
    assert_eq!(reg.get(0, 0), Some(1));
    assert_eq!(reg.get(1, 0), Some(2));
    assert_eq!(reg.get(0, 1), Some(3));
    assert_eq!(reg.get(-1, -1), Some(4));
}

#[test]
fn missing_coordinate_resolves_to_none() {
    let mut reg = ChunkGrid::new();
    assert_eq!(reg.get(5, 5), None);
    reg.set(5, 5, 7).unwrap();
    assert_eq!(reg.get(5, 5), Some(7));
    assert_eq!(reg.get(5, 6), None);
    assert_eq!(reg.get(-5, 5), None);
}
