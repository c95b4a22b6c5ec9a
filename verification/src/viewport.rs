use crate::chunkmap::{coord_in_range, ChunkMap};
use vstd::prelude::*;

verus! {

/// The top-left coordinate currently in view.  Coordinates run down and
/// to the right, as is usual on computer displays.
#[derive(Debug, Clone, Copy)]
pub struct ViewportLocation {
    /// The x coordinate.
    pub x: i32,
    /// The y coordinate.
    pub y: i32,
}

/// What the window offset `(dx, dy)` contributes to a projection of the
/// grid map `m` anchored at `(ax, ay)`: one triple when the grid holds
/// a value at the absolute coordinate `(ax + dx, ay + dy)`, and nothing
/// at all — not an empty entry — when it does not.
pub open spec fn cell_at<T>(m: Map<(int, int), T>, ax: int, ay: int, dx: int, dy: int) -> Seq<
    (i32, i32, T),
> {
    if m.contains_key((ax + dx, ay + dy)) {
        seq![(dx as i32, dy as i32, m[(ax + dx, ay + dy)])]
    } else {
        Seq::empty()
    }
}

/// The occupied cells among the first `w` offsets of window row `dy`,
/// ordered by increasing `dx`.
pub open spec fn row_cells<T>(m: Map<(int, int), T>, ax: int, ay: int, dy: int, w: int) -> Seq<
    (i32, i32, T),
>
    decreases w,
{
    if w <= 0 {
        Seq::empty()
    } else {
        row_cells(m, ax, ay, dy, w - 1) + cell_at(m, ax, ay, w - 1, dy)
    }
}

/// The occupied cells of the first `h` rows of a `w`-wide window
/// anchored at `(ax, ay)`, row by row from the top.
pub open spec fn window_cells<T>(m: Map<(int, int), T>, ax: int, ay: int, w: int, h: int) -> Seq<
    (i32, i32, T),
>
    decreases h,
{
    if h <= 0 {
        Seq::empty()
    } else {
        window_cells(m, ax, ay, w, h - 1) + row_cells(m, ax, ay, h - 1, w)
    }
}

/// An element is in a concatenation exactly when it is in one of the
/// parts.
proof fn lemma_concat_contains<A>(s1: Seq<A>, s2: Seq<A>, e: A)
    ensures
        (s1 + s2).contains(e) <==> s1.contains(e) || s2.contains(e),
{
    if (s1 + s2).contains(e) {
        let i = choose|i: int| 0 <= i < (s1 + s2).len() && (s1 + s2)[i] == e;
        if i < s1.len() {
            assert(s1[i] == e);
        } else {
            assert(s2[i - s1.len()] == e);
        }
    }
    if s1.contains(e) {
        let i = choose|i: int| 0 <= i < s1.len() && s1[i] == e;
        assert((s1 + s2)[i] == e);
    }
    if s2.contains(e) {
        let i = choose|i: int| 0 <= i < s2.len() && s2[i] == e;
        assert((s1 + s2)[s1.len() + i] == e);
    }
}

/// A triple appears among the first `w` cells of window row `dy`
/// exactly when its offset lies in the row, it names that row, and the
/// grid holds its value at the corresponding absolute coordinate.
pub proof fn lemma_row_cells_membership<T>(
    m: Map<(int, int), T>,
    ax: int,
    ay: int,
    dy: int,
    w: int,
    e: (i32, i32, T),
)
    requires
        i32::MIN <= dy <= i32::MAX,
        w <= i32::MAX + 1,
    ensures
        row_cells(m, ax, ay, dy, w).contains(e) <==> {
            &&& 0 <= e.0 < w
            &&& e.1 == dy
            &&& m.contains_key((ax + e.0, ay + dy))
            &&& e.2 == m[(ax + e.0, ay + dy)]
        },
    decreases w,
{
    if w > 0 {
        lemma_row_cells_membership(m, ax, ay, dy, w - 1, e);
        let s2 = cell_at(m, ax, ay, w - 1, dy);
        lemma_concat_contains(row_cells(m, ax, ay, dy, w - 1), s2, e);
        if m.contains_key((ax + w - 1, ay + dy)) {
            let t = ((w - 1) as i32, dy as i32, m[(ax + w - 1, ay + dy)]);
            assert(s2[0] == t);
            if s2.contains(e) {
                let i = choose|i: int| 0 <= i < s2.len() && s2[i] == e;
                assert(e == t);
            }
            if e == t {
                assert(s2.contains(e)) by {
                    assert(s2[0] == e);
                }
            }
        } else {
            assert(!s2.contains(e));
        }
    }
}

/// Law: a projection of the `w x h` window anchored at `(ax, ay)`
/// yields the triple `(dx, dy, v)` exactly when the offset lies inside
/// the window and the grid holds `v` at `(ax + dx, ay + dy)`: every
/// occupied cell in view appears, and nothing else does.
pub proof fn lemma_window_cells_membership<T>(
    m: Map<(int, int), T>,
    ax: int,
    ay: int,
    w: int,
    h: int,
    e: (i32, i32, T),
)
    requires
        w <= i32::MAX + 1,
        h <= i32::MAX + 1,
    ensures
        window_cells(m, ax, ay, w, h).contains(e) <==> {
            &&& 0 <= e.0 < w
            &&& 0 <= e.1 < h
            &&& m.contains_key((ax + e.0, ay + e.1))
            &&& e.2 == m[(ax + e.0, ay + e.1)]
        },
    decreases h,
{
    if h > 0 {
        lemma_window_cells_membership(m, ax, ay, w, h - 1, e);
        lemma_row_cells_membership(m, ax, ay, h - 1, w, e);
        lemma_concat_contains(window_cells(m, ax, ay, w, h - 1), row_cells(m, ax, ay, h - 1, w), e);
    }
}

/// A read-only view over a [`ChunkMap`] that projects the rectangular
/// window of cells below and to the right of an anchor coordinate.  It
/// holds only configuration: every projection is rebuilt from the
/// grid's current state, so panning the anchor takes effect on the next
/// call with no carried-over state.
#[derive(Debug, Clone, Copy)]
pub struct ViewportProjector {
    /// The grid coordinate shown at the window's top-left cell.
    pub anchor: ViewportLocation,
    /// The window width in cells; a non-positive width shows nothing.
    pub width: i32,
    /// The window height in cells; a non-positive height shows nothing.
    pub height: i32,
}

impl ViewportProjector {
    /// Creates a projector for the window of `width x height` cells
    /// whose top-left cell shows the grid at `anchor`.
    pub fn new(anchor: ViewportLocation, width: i32, height: i32) -> (vp: ViewportProjector)
        ensures
            vp.anchor == anchor,
            vp.width == width,
            vp.height == height,
    {
        ViewportProjector { anchor, width, height }
    }

    /// Pans the window: the next projection starts from the new anchor.
    pub fn set_anchor(&mut self, anchor: ViewportLocation)
        ensures
            final(self).anchor == anchor,
            final(self).width == old(self).width,
            final(self).height == old(self).height,
    {
        self.anchor = anchor;
    }

    /// Resizes the window for the next projection.
    pub fn set_size(&mut self, width: i32, height: i32)
        ensures
            final(self).anchor == old(self).anchor,
            final(self).width == width,
            final(self).height == height,
    {
        self.width = width;
        self.height = height;
    }

    /// Projects the window once: queries the grid at each window offset
    /// in row-major order and collects `(dx, dy, value)` for exactly
    /// the offsets whose query found a value.  Offsets the grid has
    /// nothing at are skipped, a degenerate window yields no cells, and
    /// the grid is never changed — one point query per visible cell and
    /// no allocation along the read path.
    pub fn visible_cells<T: Copy>(&self, grid: &ChunkMap<T>) -> (cells: Vec<(i32, i32, T)>)
        ensures
            cells@ == window_cells(
                grid@,
                self.anchor.x as int,
                self.anchor.y as int,
                self.width as int,
                self.height as int,
            ),
    {
        proof {
            grid.lemma_domain_in_range();
        }
        let ax = self.anchor.x;
        let ay = self.anchor.y;
        let w = self.width;
        let h = self.height;
        let mut cells: Vec<(i32, i32, T)> = Vec::new();
        let mut dy: i32 = 0;
        while dy < h
            invariant
                0 <= dy,
                dy <= (if h > 0 { h } else { 0 }),
                cells@ == window_cells(grid@, ax as int, ay as int, w as int, dy as int),
                forall|p: (int, int)| #[trigger]
                    grid@.contains_key(p) ==> coord_in_range(p.0) && coord_in_range(p.1),
            decreases h - dy,
        {
            let mut dx: i32 = 0;
            while dx < w
                invariant
                    0 <= dy < h,
                    0 <= dx,
                    dx <= (if w > 0 { w } else { 0 }),
                    cells@ == window_cells(grid@, ax as int, ay as int, w as int, dy as int)
                        + row_cells(grid@, ax as int, ay as int, dy as int, dx as int),
                    forall|p: (int, int)| #[trigger]
                        grid@.contains_key(p) ==> coord_in_range(p.0) && coord_in_range(p.1),
                decreases w - dx,
            {
                let sx: i64 = ax as i64 + dx as i64;
                let sy: i64 = ay as i64 + dy as i64;
                if i32::MIN as i64 <= sx && sx <= i32::MAX as i64 && i32::MIN as i64 <= sy && sy
                    <= i32::MAX as i64 {
                    match grid.get(sx as i32, sy as i32) {
                        Some(v) => cells.push((dx, dy, v)),
                        None => (),
                    }
                } else {
                    // a coordinate beyond the grid's range holds nothing
                    proof {
                        assert(!grid@.contains_key((ax + dx, ay + dy)));
                    }
                }
                proof {
                    assert(cells@ =~= window_cells(grid@, ax as int, ay as int, w as int, dy as int)
                        + row_cells(grid@, ax as int, ay as int, dy as int, dx + 1));
                }
                dx = dx + 1;
            }
            proof {
                assert(cells@ =~= window_cells(grid@, ax as int, ay as int, w as int, dy + 1));
            }
            dy = dy + 1;
        }
        cells
    }
}

} // verus!
