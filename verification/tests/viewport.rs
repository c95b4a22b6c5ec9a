use termgame::{ChunkMap, ViewportLocation, ViewportProjector};

#[test]
fn viewport_shows_one_written_cell() {
    let mut g = ChunkMap::<char>::new();
    g.insert(4, 3, 'x');
    let vp = ViewportProjector::new(ViewportLocation { x: 0, y: 0 }, 10, 10);
    assert_eq!(vp.visible_cells(&g), vec![(4, 3, 'x')]);
}

#[test]
fn viewport_pans_the_cell_out_of_view() {
    let mut g = ChunkMap::<char>::new();
    g.insert(4, 3, 'x');
    let mut vp = ViewportProjector::new(ViewportLocation { x: 0, y: 0 }, 10, 10);
    vp.set_anchor(ViewportLocation { x: 5, y: 0 });
    assert_eq!(vp.visible_cells(&g), vec![]);
}

#[test]
fn viewport_offsets_are_relative_to_the_anchor() {
    let mut g = ChunkMap::<char>::new();
    g.insert(4, 3, 'x');
    let vp = ViewportProjector::new(ViewportLocation { x: 2, y: 2 }, 10, 10);
    assert_eq!(vp.visible_cells(&g), vec![(2, 1, 'x')]);
}

#[test]
fn viewport_sees_negative_coordinates() {
    let mut g = ChunkMap::<char>::new();
    g.insert(-3, -2, 'n');
    let vp = ViewportProjector::new(ViewportLocation { x: -5, y: -5 }, 6, 6);
    assert_eq!(vp.visible_cells(&g), vec![(2, 3, 'n')]);
}

#[test]
fn viewport_degenerate_sizes_yield_nothing() {
    let mut g = ChunkMap::<char>::new();
    g.insert(0, 0, 'x');
    let vp = ViewportProjector::new(ViewportLocation { x: 0, y: 0 }, 0, 10);
    assert_eq!(vp.visible_cells(&g), vec![]);
    let vp = ViewportProjector::new(ViewportLocation { x: 0, y: 0 }, 10, -1);
    assert_eq!(vp.visible_cells(&g), vec![]);
}

#[test]
fn viewport_skips_empty_cells_only() {
    let mut g = ChunkMap::<i32>::new();
    g.insert(0, 0, 1);
    g.insert(2, 0, 2);
    g.insert(1, 1, 3);
    g.insert(9, 9, 4);
    let mut vp = ViewportProjector::new(ViewportLocation { x: 0, y: 0 }, 3, 3);
    let cells = vp.visible_cells(&g);
    assert_eq!(cells.len(), 3);
    assert!(cells.contains(&(0, 0, 1)));
    assert!(cells.contains(&(2, 0, 2)));
    assert!(cells.contains(&(1, 1, 3)));
    vp.set_size(10, 10);
    assert_eq!(vp.visible_cells(&g).len(), 4);
}

#[test]
fn viewport_rebuilds_from_current_state() {
    let mut g = ChunkMap::<i32>::new();
    let vp = ViewportProjector::new(ViewportLocation { x: 0, y: 0 }, 4, 4);
    assert_eq!(vp.visible_cells(&g), vec![]);
    g.insert(1, 2, 5);
    assert_eq!(vp.visible_cells(&g), vec![(1, 2, 5)]);
    g.remove(1, 2);
    assert_eq!(vp.visible_cells(&g), vec![]);
}
