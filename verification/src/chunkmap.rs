use std::collections::HashMap;
use vstd::arithmetic::div_mod::{lemma_div_is_ordered, lemma_fundamental_div_mod, lemma_mod_bound};
use vstd::prelude::*;

verus! {

broadcast use vstd::std_specs::hash::group_hash_axioms;

/// Chunks in the [`ChunkMap`] are always `CHUNK_SIZE x CHUNK_SIZE`.
///
/// Larger chunk sizes mean more memory is used; but also mean
/// fewer lookups of the backing map.
pub const CHUNK_SIZE: i32 = 64;

/// The floor quotient of a coordinate by the chunk edge length: the
/// chunk column (or row) that the coordinate falls in.  Spec-level `/`
/// on `int` is Euclidean division, which for a positive divisor is
/// exactly floor division, so negative coordinates tile contiguously.
pub open spec fn chunk_quot(c: int) -> int {
    c / (CHUNK_SIZE as int)
}

/// The left (or top) edge of the chunk containing coordinate `c`:
/// the floor quotient multiplied back by the chunk edge length.
pub open spec fn chunk_corner(c: int) -> int {
    chunk_quot(c) * (CHUNK_SIZE as int)
}

/// The position of coordinate `c` within its chunk, always in
/// `[0, CHUNK_SIZE)` whatever the sign of `c`.
pub open spec fn chunk_offset(c: int) -> int {
    c % (CHUNK_SIZE as int)
}

/// A coordinate value representable by the grid's coordinate type.
pub open spec fn coord_in_range(c: int) -> bool {
    i32::MIN <= c <= i32::MAX
}

/// The corner and offset decompose a coordinate exactly:
/// `c == chunk_corner(c) + chunk_offset(c)`, with the offset in
/// `[0, CHUNK_SIZE)`.
pub proof fn lemma_chunk_decomposition(c: int)
    ensures
        c == chunk_corner(c) + chunk_offset(c),
        0 <= chunk_offset(c) < CHUNK_SIZE,
        chunk_corner(c) <= c < chunk_corner(c) + CHUNK_SIZE,
{
    lemma_fundamental_div_mod(c, CHUNK_SIZE as int);
    lemma_mod_bound(c, CHUNK_SIZE as int);
}

/// The floor quotient of an `i32` coordinate stays well inside `i32`.
pub proof fn lemma_chunk_quot_bounds(c: int)
    requires
        coord_in_range(c),
    ensures
        -0x0200_0000 <= chunk_quot(c) < 0x0200_0000,
{
    lemma_div_is_ordered(i32::MIN as int, c, CHUNK_SIZE as int);
    lemma_div_is_ordered(c, i32::MAX as int, CHUNK_SIZE as int);
}

/// Floor division of a coordinate by the chunk edge length, correct for
/// negative operands (Rust's plain `/` truncates toward zero instead).
fn div_floor_chunk(c: i32) -> (q: i32)
    ensures
        q == chunk_quot(c as int),
{
    proof {
        lemma_chunk_quot_bounds(c as int);
    }
    c.checked_div_euclid(CHUNK_SIZE).unwrap()
}

/// Half the number of chunk columns (or rows) that fit in the `i32`
/// coordinate range: chunk quotients lie in `[-QUOT_BIAS, QUOT_BIAS)`.
const QUOT_BIAS: i64 = 0x0200_0000;

/// The number of distinct chunk quotients per axis, used as the radix
/// when the two quotients of a chunk are packed into one map key.
const KEY_RADIX: i64 = 0x0400_0000;

/// The backing-map key of the chunk containing the cell `(x, y)`: the
/// two floor quotients, each shifted to be non-negative, packed into a
/// single integer.  Injective over the whole coordinate range, so every
/// cell is reachable through exactly one key.
pub closed spec fn chunk_key(x: int, y: int) -> u64 {
    (((chunk_quot(x) + QUOT_BIAS) * KEY_RADIX) + (chunk_quot(y) + QUOT_BIAS)) as u64
}

/// Two cells lie in the same chunk exactly when their floor quotients
/// agree on both axes.
pub open spec fn same_chunk(x1: int, y1: int, x2: int, y2: int) -> bool {
    chunk_quot(x1) == chunk_quot(x2) && chunk_quot(y1) == chunk_quot(y2)
}

/// Two cells share a backing-map key exactly when they lie in the same
/// chunk: the packing loses nothing.
pub proof fn lemma_chunk_key_injective(x1: int, y1: int, x2: int, y2: int)
    requires
        coord_in_range(x1),
        coord_in_range(y1),
        coord_in_range(x2),
        coord_in_range(y2),
    ensures
        chunk_key(x1, y1) == chunk_key(x2, y2) <==> same_chunk(x1, y1, x2, y2),
{
    lemma_chunk_quot_bounds(x1);
    lemma_chunk_quot_bounds(y1);
    lemma_chunk_quot_bounds(x2);
    lemma_chunk_quot_bounds(y2);
}

/// Computes the backing-map key of the chunk containing `(x, y)`.
fn chunk_key_exec(x: i32, y: i32) -> (k: u64)
    ensures
        k == chunk_key(x as int, y as int),
{
    proof {
        lemma_chunk_quot_bounds(x as int);
        lemma_chunk_quot_bounds(y as int);
    }
    let qx = div_floor_chunk(x);
    let qy = div_floor_chunk(y);
    ((qx as i64 + QUOT_BIAS) * KEY_RADIX + (qy as i64 + QUOT_BIAS)) as u64
}

/// The coordinate of the top-left corner of one chunk.  Derived from a
/// cell coordinate by independently floor-dividing each axis by
/// [`CHUNK_SIZE`] and multiplying back.
#[derive(Debug, Clone, Copy, PartialEq, Eq, Structural)]
pub struct ChunkCoordinate {
    /// The x coordinate of the chunk's corner, a multiple of [`CHUNK_SIZE`].
    pub x: i32,
    /// The y coordinate of the chunk's corner, a multiple of [`CHUNK_SIZE`].
    pub y: i32,
}

impl ChunkCoordinate {
    /// Computes the corner of the chunk containing the cell `(x, y)`,
    /// flooring (never truncating) on each axis, so that for instance
    /// coordinate `-1` resolves to corner `-CHUNK_SIZE`, not `0`.
    pub fn get_from_coordinates(x: i32, y: i32) -> (c: ChunkCoordinate)
        ensures
            c.x == chunk_corner(x as int),
            c.y == chunk_corner(y as int),
    {
        proof {
            lemma_chunk_quot_bounds(x as int);
            lemma_chunk_quot_bounds(y as int);
        }
        ChunkCoordinate { x: div_floor_chunk(x) * CHUNK_SIZE, y: div_floor_chunk(y) * CHUNK_SIZE }
    }

    /// The x position of the cell `(x, _)` within this chunk.  Only
    /// meaningful when this corner was derived consistently with `x`;
    /// anything else is a defect in the tiling arithmetic, excluded here
    /// rather than reported to the caller.
    pub fn x_offset(&self, x: i32) -> (off: usize)
        requires
            self.x <= x < self.x + CHUNK_SIZE,
        ensures
            off == x - self.x,
    {
        (x - self.x) as usize
    }

    /// The y position of the cell `(_, y)` within this chunk, under the
    /// same consistency condition as [`Self::x_offset`].
    pub fn y_offset(&self, y: i32) -> (off: usize)
        requires
            self.y <= y < self.y + CHUNK_SIZE,
        ensures
            off == y - self.y,
    {
        (y - self.y) as usize
    }
}

/// The number of slots in one chunk: `CHUNK_SIZE * CHUNK_SIZE`.
const CHUNK_AREA: usize = 4096;

/// The slot holding cell `(x, y)` within its chunk's slot array, laid
/// out row-by-row along the x axis.
spec fn slot_index(x: int, y: int) -> int {
    chunk_offset(x) * (CHUNK_SIZE as int) + chunk_offset(y)
}

/// Within one chunk, distinct cells occupy distinct slots.
proof fn lemma_slot_index_injective(x1: int, y1: int, x2: int, y2: int)
    requires
        same_chunk(x1, y1, x2, y2),
        slot_index(x1, y1) == slot_index(x2, y2),
    ensures
        x1 == x2,
        y1 == y2,
{
    lemma_chunk_decomposition(x1);
    lemma_chunk_decomposition(y1);
    lemma_chunk_decomposition(x2);
    lemma_chunk_decomposition(y2);
}

/// A `ChunkMap` is an infinite 2D plane of optional elements of type
/// `T`.  It behaves as a map from coordinate pairs to values, but a
/// naive per-cell map would have poor locality; so values are stored in
/// square chunks.  Each chunk sits in a backing [`HashMap`], and an
/// individual cell is reached by deriving its chunk's key, then
/// indexing the chunk by offset.  A chunk is materialised by the first
/// write that touches it and is never given back while the grid lives.
#[derive(Debug)]
pub struct ChunkMap<T> {
    map: HashMap<u64, Vec<Option<T>>>,
}

impl<T> ChunkMap<T> {
    /// Every chunk in the backing map has exactly `CHUNK_AREA` slots.
    #[verifier::type_invariant]
    spec fn wf(self) -> bool {
        forall|k: u64| #[trigger]
            self.map@.contains_key(k) ==> self.map@[k]@.len() == CHUNK_AREA
    }

    /// The slot contents at cell `(x, y)`: `None` when the chunk was
    /// never materialised or the slot is empty.
    spec fn slot_of(self, x: int, y: int) -> Option<T> {
        if self.map@.contains_key(chunk_key(x, y)) {
            self.map@[chunk_key(x, y)]@[slot_index(x, y)]
        } else {
            None
        }
    }

    /// The set of backing-map keys of the chunks that have been
    /// materialised by some write since creation.
    pub closed spec fn chunk_keys(self) -> Set<u64> {
        self.map@.dom()
    }
}

impl<T> ChunkMap<T> {
    /// Every coordinate the grid maps a value at is representable in
    /// the grid's coordinate type: nothing lives outside the plane the
    /// grid can address.
    pub proof fn lemma_domain_in_range(&self)
        ensures
            forall|p: (int, int)| #[trigger]
                self@.contains_key(p) ==> coord_in_range(p.0) && coord_in_range(p.1),
    {
    }
}

impl<T> View for ChunkMap<T> {
    type V = Map<(int, int), T>;

    /// A grid abstracts to the partial map from coordinates to the
    /// values present there; empty slots and absent chunks alike are
    /// simply absent from the map.
    closed spec fn view(&self) -> Map<(int, int), T> {
        Map::new(
            |p: (int, int)|
                coord_in_range(p.0) && coord_in_range(p.1) && self.slot_of(p.0, p.1) is Some,
            |p: (int, int)| self.slot_of(p.0, p.1)->Some_0,
        )
    }
}

impl<T: Copy> ChunkMap<T> {
    /// Creates a new, empty [`ChunkMap`]: no value at any coordinate,
    /// and no chunk allocated.
    pub fn new() -> (grid: ChunkMap<T>)
        ensures
            grid@ == Map::<(int, int), T>::empty(),
            grid.chunk_keys() == Set::<u64>::empty(),
    {
        let grid = ChunkMap { map: HashMap::new() };
        proof {
            assert(grid@ =~= Map::<(int, int), T>::empty());
            assert(grid.chunk_keys() =~= Set::<u64>::empty());
        }
        grid
    }

    /// Returns the value at `(x, y)` if there is one.  A pure read: no
    /// chunk is allocated on this path, whatever the coordinate.
    pub fn get(&self, x: i32, y: i32) -> (r: Option<T>)
        ensures
            r == if self@.contains_key((x as int, y as int)) {
                Some(self@[(x as int, y as int)])
            } else {
                None::<T>
            },
    {
        proof {
            use_type_invariant(&*self);
            lemma_chunk_decomposition(x as int);
            lemma_chunk_decomposition(y as int);
        }
        let key = chunk_key_exec(x, y);
        match self.map.get(&key) {
            None => None,
            Some(chunk) => {
                let coord = ChunkCoordinate::get_from_coordinates(x, y);
                let xo: usize = coord.x_offset(x);
                let yo: usize = coord.y_offset(y);
                assert(xo < CHUNK_SIZE && yo < CHUNK_SIZE);
                let idx: usize = xo * (CHUNK_SIZE as usize) + yo;
                chunk[idx]
            },
        }
    }

    /// Inserts `value` at `(x, y)`, overwriting whatever was there.
    /// The chunk containing the cell is materialised if this is the
    /// first write to touch it; no other chunk is disturbed.
    pub fn insert(&mut self, x: i32, y: i32, value: T)
        ensures
            final(self)@ == old(self)@.insert((x as int, y as int), value),
            final(self).chunk_keys() == old(self).chunk_keys().insert(
                chunk_key(x as int, y as int),
            ),
    {
        proof {
            use_type_invariant(&*self);
            lemma_chunk_decomposition(x as int);
            lemma_chunk_decomposition(y as int);
        }
        let ghost old_self = *self;
        let key = chunk_key_exec(x, y);
        let mut m: HashMap<u64, Vec<Option<T>>> = HashMap::new();
        core::mem::swap(&mut self.map, &mut m);
        let mut chunk: Vec<Option<T>> = match m.remove(&key) {
            Some(c) => c,
            None => new_chunk(),
        };
        let coord = ChunkCoordinate::get_from_coordinates(x, y);
        let xo: usize = coord.x_offset(x);
        let yo: usize = coord.y_offset(y);
        assert(xo < CHUNK_SIZE && yo < CHUNK_SIZE);
        let idx: usize = xo * (CHUNK_SIZE as usize) + yo;
        chunk.set(idx, Some(value));
        m.insert(key, chunk);
        self.map = m;
        proof {
            assert(self.map@.dom() =~= old_self.map@.dom().insert(key));
            self.lemma_write_updates_view(old_self, x as int, y as int, Some(value));
            assert(self.chunk_keys() =~= old_self.chunk_keys().insert(
                chunk_key(x as int, y as int),
            ));
        }
    }

    /// Removes and returns the value at `(x, y)` if there was one.  If
    /// the cell's chunk was never materialised there is nothing to
    /// remove and the grid is left untouched; in no case is a chunk
    /// allocated or deallocated.
    pub fn remove(&mut self, x: i32, y: i32) -> (r: Option<T>)
        ensures
            r == if old(self)@.contains_key((x as int, y as int)) {
                Some(old(self)@[(x as int, y as int)])
            } else {
                None::<T>
            },
            final(self)@ == old(self)@.remove((x as int, y as int)),
            final(self).chunk_keys() == old(self).chunk_keys(),
    {
        proof {
            use_type_invariant(&*self);
            lemma_chunk_decomposition(x as int);
            lemma_chunk_decomposition(y as int);
        }
        let ghost old_self = *self;
        let key = chunk_key_exec(x, y);
        let mut m: HashMap<u64, Vec<Option<T>>> = HashMap::new();
        core::mem::swap(&mut self.map, &mut m);
        // If the chunk does not exist, there can be nothing to remove.
        let mut chunk: Vec<Option<T>> = match m.remove(&key) {
            Some(c) => c,
            None => {
                core::mem::swap(&mut self.map, &mut m);
                proof {
                    // removing an absent key leaves the backing map as it was
                    assert(!old_self.map@.contains_key(key));
                    assert(self.map@ =~= old_self.map@);
                    assert(self.chunk_keys() =~= old_self.chunk_keys());
                    assert(self@ =~= old_self@);
                    assert(!old_self@.contains_key((x as int, y as int)));
                    assert(old_self@.remove((x as int, y as int)) =~= old_self@);
                }
                return None;
            },
        };
        let coord = ChunkCoordinate::get_from_coordinates(x, y);
        let xo: usize = coord.x_offset(x);
        let yo: usize = coord.y_offset(y);
        assert(xo < CHUNK_SIZE && yo < CHUNK_SIZE);
        let idx: usize = xo * (CHUNK_SIZE as usize) + yo;
        let r: Option<T> = chunk[idx];
        chunk.set(idx, None);
        m.insert(key, chunk);
        self.map = m;
        proof {
            assert(self.map@.dom() =~= old_self.map@.dom().insert(key));
            self.lemma_write_updates_view(old_self, x as int, y as int, None);
            assert(self.chunk_keys() =~= old_self.chunk_keys());
        }
        r
    }

    /// After writing `slot` into the slot of `(x, y)` — reusing the old
    /// chunk when there was one — the grid's view is the old view with
    /// the one cell updated, and no other cell has moved.
    proof fn lemma_write_updates_view(self, prev: Self, x: int, y: int, slot: Option<T>)
        requires
            prev.wf(),
            coord_in_range(x),
            coord_in_range(y),
            self.map@.dom() == prev.map@.dom().insert(chunk_key(x, y)),
            self.map@[chunk_key(x, y)]@ == if prev.map@.contains_key(chunk_key(x, y)) {
                prev.map@[chunk_key(x, y)]@.update(slot_index(x, y), slot)
            } else {
                Seq::new(CHUNK_AREA as nat, |i: int| None::<T>).update(slot_index(x, y), slot)
            },
            forall|k: u64| #[trigger]
                prev.map@.contains_key(k) && k != chunk_key(x, y) ==> self.map@.contains_key(k)
                    && self.map@[k] == prev.map@[k],
        ensures
            self@ == (match slot {
                Some(v) => prev@.insert((x, y), v),
                None => prev@.remove((x, y)),
            }),
    {
        lemma_chunk_decomposition(x);
        lemma_chunk_decomposition(y);
        assert forall|p: (int, int)|
            coord_in_range(p.0) && coord_in_range(p.1) && p != (x, y) implies self.slot_of(
            p.0,
            p.1,
        ) == prev.slot_of(p.0, p.1) by {
            lemma_chunk_key_injective(p.0, p.1, x, y);
            if same_chunk(p.0, p.1, x, y) {
                lemma_chunk_decomposition(p.0);
                lemma_chunk_decomposition(p.1);
                if slot_index(p.0, p.1) == slot_index(x, y) {
                    lemma_slot_index_injective(p.0, p.1, x, y);
                }
            } else {
                assert(chunk_key(p.0, p.1) != chunk_key(x, y));
            }
        }
        assert(self.slot_of(x, y) == slot);
        match slot {
            Some(v) => {
                assert(self@ =~= prev@.insert((x, y), v));
            },
            None => {
                assert(self@ =~= prev@.remove((x, y)));
            },
        }
    }
}

impl<T: Copy> ChunkMap<T> {
    /// The number of chunks materialised so far.  Reads never change
    /// it; a write changes it only when it is the first to touch its
    /// chunk.
    pub fn chunk_count(&self) -> (n: usize)
        ensures
            n == self.chunk_keys().len(),
    {
        self.map.len()
    }

    /// Exchanges the entire contents of two grids in one move, without
    /// copying any chunk.  Each grid ends up with exactly the cells and
    /// chunks the other had.
    pub fn swap(&mut self, other: &mut ChunkMap<T>)
        ensures
            final(self)@ == old(other)@,
            final(other)@ == old(self)@,
            final(self).chunk_keys() == old(other).chunk_keys(),
            final(other).chunk_keys() == old(self).chunk_keys(),
    {
        core::mem::swap(self, other);
    }
}

/// Law: a value just written is the value read back.  After
/// `insert(x, y, v)` turns a grid's map `m` into `m.insert((x, y), v)`,
/// `get(x, y)` — which returns the map's entry at `(x, y)` — yields `v`.
pub proof fn lemma_insert_then_get<T>(m: Map<(int, int), T>, x: int, y: int, v: T)
    ensures
        m.insert((x, y), v).contains_key((x, y)),
        m.insert((x, y), v)[(x, y)] == v,
{
}

/// Law: the last write wins.  Writing `v1` and then `v2` at one
/// coordinate leaves the grid exactly as writing `v2` alone would, so a
/// read there yields `v2`.
pub proof fn lemma_last_write_wins<T>(m: Map<(int, int), T>, x: int, y: int, v1: T, v2: T)
    ensures
        m.insert((x, y), v1).insert((x, y), v2) == m.insert((x, y), v2),
        m.insert((x, y), v1).insert((x, y), v2)[(x, y)] == v2,
{
    assert(m.insert((x, y), v1).insert((x, y), v2) =~= m.insert((x, y), v2));
}

/// Law: a write followed by a removal at the same coordinate hands the
/// written value back — `remove` returns the map's entry — and leaves
/// the coordinate empty for any later read.
pub proof fn lemma_insert_then_remove<T>(m: Map<(int, int), T>, x: int, y: int, v: T)
    ensures
        m.insert((x, y), v)[(x, y)] == v,
        !m.insert((x, y), v).remove((x, y)).contains_key((x, y)),
{
}

/// Law: writes to distinct coordinates — however far apart — never
/// disturb each other: after both, each value is retrievable at its own
/// coordinate.
pub proof fn lemma_independent_writes<T>(
    m: Map<(int, int), T>,
    x1: int,
    y1: int,
    v1: T,
    x2: int,
    y2: int,
    v2: T,
)
    requires
        (x1, y1) != (x2, y2),
    ensures
        m.insert((x1, y1), v1).insert((x2, y2), v2).contains_key((x1, y1)),
        m.insert((x1, y1), v1).insert((x2, y2), v2)[(x1, y1)] == v1,
        m.insert((x1, y1), v1).insert((x2, y2), v2).contains_key((x2, y2)),
        m.insert((x1, y1), v1).insert((x2, y2), v2)[(x2, y2)] == v2,
{
}

/// Builds a fresh chunk with every slot empty.
fn new_chunk<T: Copy>() -> (c: Vec<Option<T>>)
    ensures
        c@ == Seq::new(CHUNK_AREA as nat, |i: int| None::<T>),
{
    let mut c: Vec<Option<T>> = Vec::new();
    let mut i: usize = 0;
    while i < CHUNK_AREA
        invariant
            i <= CHUNK_AREA,
            c@.len() == i,
            forall|j: int| 0 <= j < i ==> c@[j] is None,
        decreases CHUNK_AREA - i,
    {
        c.push(None);
        i = i + 1;
    }
    proof {
        assert(c@ =~= Seq::new(CHUNK_AREA as nat, |i: int| None::<T>));
    }
    c
}

} // verus!
