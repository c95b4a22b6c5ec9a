use termgame::{ChunkCoordinate, ChunkMap};

#[test]
fn check_chunk_coordinate() {
    let c = ChunkCoordinate::get_from_coordinates(3, 3);
    assert!(c.x == 0);
    assert!(c.y == 0);
    let c = ChunkCoordinate::get_from_coordinates(72, 3);
    assert!(c.x == 64);
    assert!(c.y == 0);
}

#[test]
fn get_none_chunkmap() {
    let c = ChunkMap::<i32>::new();
    assert_eq!(c.get(0, 0), None);
}

#[test]
fn get_some_chunkmap() {
    let mut c = ChunkMap::<i32>::new();
    c.insert(3, 3, 7);
    assert_eq!(c.get(3, 3), Some(7));
    c.insert(103, 103, 7);
    assert_eq!(c.get(103, 103), Some(7));
}

#[test]
fn check_chunkmap_default() {
    let mut c = ChunkMap::<i32>::new();
    c.insert(4, 3, 0);
    assert_eq!(c.get(4, 3), Some(0));
    assert_eq!(c.get(5, 3), None);
    assert_eq!(c.get(65, 3), None);
}

#[test]
fn tiling_resolves_chunk_corners() {
    let c = ChunkCoordinate::get_from_coordinates(3, 3);
    assert_eq!((c.x, c.y), (0, 0));
    let c = ChunkCoordinate::get_from_coordinates(63, 63);
    assert_eq!((c.x, c.y), (0, 0));
    let c = ChunkCoordinate::get_from_coordinates(64, 3);
    assert_eq!((c.x, c.y), (64, 0));
    let c = ChunkCoordinate::get_from_coordinates(-1, -1);
    assert_eq!((c.x, c.y), (-64, -64));
}

#[test]
fn offsets_within_chunk() {
    let c = ChunkCoordinate::get_from_coordinates(-1, -30);
    assert_eq!(c.x_offset(-1), 63);
    assert_eq!(c.y_offset(-30), 34);
    let c = ChunkCoordinate::get_from_coordinates(70, 3);
    assert_eq!(c.x_offset(70), 6);
    assert_eq!(c.y_offset(3), 3);
}

#[test]
fn get_never_written_allocates_nothing() {
    let g = ChunkMap::<char>::new();
    assert_eq!(g.chunk_count(), 0);
    assert_eq!(g.get(12, -7), None);
    assert_eq!(g.get(0, 0), None);
    assert_eq!(g.chunk_count(), 0);
}

#[test]
fn insert_then_get_returns_value() {
    let mut g = ChunkMap::<u8>::new();
    g.insert(0, 0, 1);
    assert_eq!(g.get(0, 0), Some(1));
    g.insert(-1, -1, 2);
    assert_eq!(g.get(-1, -1), Some(2));
    g.insert(-1000, 999, 3);
    assert_eq!(g.get(-1000, 999), Some(3));
}

#[test]
fn last_write_wins() {
    let mut g = ChunkMap::<i32>::new();
    g.insert(9, -9, 41);
    g.insert(9, -9, 42);
    assert_eq!(g.get(9, -9), Some(42));
}

#[test]
fn remove_untouched_is_a_no_op() {
    let mut g = ChunkMap::<i32>::new();
    assert_eq!(g.chunk_count(), 0);
    assert_eq!(g.remove(5, 5), None);
    assert_eq!(g.chunk_count(), 0);
}

#[test]
fn insert_then_remove_clears_the_cell() {
    let mut g = ChunkMap::<i32>::new();
    g.insert(5, 5, 99);
    assert_eq!(g.remove(5, 5), Some(99));
    assert_eq!(g.get(5, 5), None);
    // the chunk itself stays materialised
    assert_eq!(g.chunk_count(), 1);
    assert_eq!(g.remove(5, 5), None);
    assert_eq!(g.chunk_count(), 1);
}

#[test]
fn far_apart_writes_are_independent() {
    let mut g = ChunkMap::<i32>::new();
    g.insert(0, 0, 1);
    g.insert(10_000, 10_000, 2);
    assert_eq!(g.get(0, 0), Some(1));
    assert_eq!(g.get(10_000, 10_000), Some(2));
    assert_eq!(g.chunk_count(), 2);
}

#[test]
fn writes_in_one_chunk_share_it() {
    let mut g = ChunkMap::<i32>::new();
    g.insert(3, 3, 1);
    g.insert(63, 63, 2);
    assert_eq!(g.chunk_count(), 1);
    g.insert(64, 64, 3);
    assert_eq!(g.chunk_count(), 2);
    assert_eq!(g.get(3, 3), Some(1));
    assert_eq!(g.get(63, 63), Some(2));
    assert_eq!(g.get(64, 64), Some(3));
}

#[test]
fn swapping_grids_exchanges_contents() {
    let mut a = ChunkMap::<char>::new();
    let mut b = ChunkMap::<char>::new();
    a.insert(1, 1, 'a');
    a.insert(-70, 4, 'b');
    b.insert(2, 2, 'z');
    a.swap(&mut b);
    assert_eq!(a.get(2, 2), Some('z'));
    assert_eq!(a.get(1, 1), None);
    assert_eq!(b.get(1, 1), Some('a'));
    assert_eq!(b.get(-70, 4), Some('b'));
    assert_eq!(b.get(2, 2), None);
    assert_eq!(a.chunk_count(), 1);
    assert_eq!(b.chunk_count(), 2);
}
