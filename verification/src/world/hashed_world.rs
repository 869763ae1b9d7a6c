//! The sparse grid: chunks of 16 by 16 cells in a hash map, set aside on the
//! first write to one of their cells.

use vstd::prelude::*;
use vstd::std_specs::hash::*;
use vstd::std_specs::iter::IteratorSpec;
use std::collections::HashMap;
use metrohash::MetroBuildHasher;
use crate::utils::Pos;
use crate::world::{lemma_snap_to, lemma_snap_to_unique, snap, snap_to, written, Cell, World};

verus! {

broadcast use vstd::std_specs::hash::group_hash_axioms;

/// The side length of a chunk, in cells.
pub const CHUNK_SIZE: usize = 16;

/// std's `BuildHasherDefault`, which builds each hasher with `H::default()`.
/// Nothing is known of a value of it.
#[verifier::external_type_specification]
#[verifier::external_body]
#[verifier::reject_recursive_types(H)]
pub struct ExBuildHasherDefault<H>(std::hash::BuildHasherDefault<H>);

/// metrohash's 64-bit hasher. Nothing is known of a value of it.
#[verifier::external_type_specification]
#[verifier::external_body]
pub struct ExMetroHash64(metrohash::MetroHash64);

/// The origin of the chunk that covers `pos`: both coordinates snapped down
/// to a multiple of the chunk's side.
pub open spec fn origin_of(pos: Pos) -> Pos {
    Pos { x: snap_to(pos.x as int, 16) as i32, y: snap_to(pos.y as int, 16) as i32 }
}

/// Where the cell at `pos` lies within its chunk: row by row, the row chosen
/// by the distance from the origin in x.
pub open spec fn slot_of(pos: Pos) -> int {
    (pos.x - origin_of(pos).x) * 16 + (pos.y - origin_of(pos).y)
}

/// The number under which the chunk with the given origin is filed. Distinct
/// origins have distinct numbers.
pub open spec fn key_at(origin: Pos) -> u64 {
    ((origin.x + 0x8000_0000) * 0x1_0000_0000 + (origin.y + 0x8000_0000)) as u64
}

/// Whether `origin` is the origin of a chunk.
pub open spec fn is_origin(origin: Pos) -> bool {
    origin.x as int % 16 == 0 && origin.y as int % 16 == 0
}

/// The origin of a chunk is a pair of multiples of the side that fits the
/// coordinate type, a cell lies less than one side from its origin in both
/// axes, and a cell is determined by its chunk and its place in it.
pub proof fn lemma_origin_of(pos: Pos)
    ensures
        is_origin(origin_of(pos)),
        origin_of(pos).x == snap_to(pos.x as int, 16),
        origin_of(pos).y == snap_to(pos.y as int, 16),
        0 <= pos.x - origin_of(pos).x < 16,
        0 <= pos.y - origin_of(pos).y < 16,
        0 <= slot_of(pos) < 256,
{
    lemma_snap_to(pos.x as int, 16);
    lemma_snap_to(pos.y as int, 16);
}

/// The origin whose chunk is filed under `key`.
pub open spec fn origin_at(key: u64) -> Pos {
    Pos {
        x: (key / 0x1_0000_0000 - 0x8000_0000) as i32,
        y: (key % 0x1_0000_0000 - 0x8000_0000) as i32,
    }
}

/// Filing numbers and origins stand one to one.
pub proof fn lemma_key_round_trip(origin: Pos, key: u64)
    ensures
        origin_at(key_at(origin)) == origin,
        key_at(origin_at(key)) == key,
{
}

/// Whether `local` is a place within a chunk, relative to its origin.
pub open spec fn in_chunk(local: Pos) -> bool {
    0 <= local.x < 16 && 0 <= local.y < 16
}

/// The cell that lies at `local` relative to `origin`.
pub open spec fn place(origin: Pos, local: Pos) -> Pos {
    Pos { x: (origin.x + local.x) as i32, y: (origin.y + local.y) as i32 }
}

/// Whether `key` is among the first `n` of `keys`.
pub open spec fn filed_among(keys: Seq<&u64>, n: int, key: u64) -> bool {
    exists|j: int| 0 <= j < n && *#[trigger] keys[j] == key
}

/// Whether `pos` is the cell at one of the first `n` of `locals`, relative to
/// `origin`.
pub open spec fn placed_among(locals: Seq<Pos>, n: int, origin: Pos, pos: Pos) -> bool {
    exists|j: int| 0 <= j < n && place(origin, #[trigger] locals[j]) == pos
}

/// The cell that lies at `local` within the chunk at `origin` is covered by
/// that chunk, in the slot that `local` gives.
pub proof fn lemma_cell_of_chunk(origin: Pos, local: Pos)
    requires
        is_origin(origin),
        in_chunk(local),
    ensures
        Pos::representable(origin.plus(local)),
        origin_of(place(origin, local)) == origin,
        slot_of(place(origin, local)) == local.x * 16 + local.y,
{
    lemma_snap_to_unique(origin.x + local.x, origin.x as int, 16);
    lemma_snap_to_unique(origin.y + local.y, origin.y as int, 16);
}

/// Distinct places within one chunk are distinct cells.
pub proof fn lemma_place_injective(origin: Pos, a: Pos, b: Pos)
    requires
        is_origin(origin),
        in_chunk(a),
        in_chunk(b),
        place(origin, a) == place(origin, b),
    ensures
        a == b,
{
}

/// A cell is determined by the chunk that covers it and its slot there.
pub proof fn lemma_cell_identity(p: Pos, q: Pos)
    requires
        origin_of(p) == origin_of(q),
        slot_of(p) == slot_of(q),
    ensures
        p == q,
{
    lemma_origin_of(p);
    lemma_origin_of(q);
}

/// A tile of 16 by 16 cells, the unit in which the grid sets storage aside.
#[derive(Debug, Clone)]
pub struct Chunk {
    cells: Vec<Cell>,
}

impl Chunk {
    /// A chunk holds all of its 256 cells.
    pub closed spec fn wf(&self) -> bool {
        self.cells@.len() == 256
    }

    /// Whether the cell in the given slot is alive.
    pub closed spec fn alive_at(&self, slot: int) -> bool {
        self.cells@[slot].alive()
    }

    /// A chunk of dead cells.
    pub fn new() -> (chunk: Chunk)
        ensures
            chunk.wf(),
            forall|slot: int| 0 <= slot < 256 ==> !chunk.alive_at(slot),
    {
        let mut cells: Vec<Cell> = Vec::new();
        let mut i: usize = 0;
        while i < 256
            invariant
                i <= 256,
                cells@.len() == i,
                forall|slot: int| 0 <= slot < i ==> !(#[trigger] cells@[slot]).alive(),
            decreases 256 - i,
        {
            cells.push(Cell::inactive());
            i = i + 1;
        }
        Chunk { cells }
    }

    /// The state of the cell of this chunk that the world coordinate `pos`
    /// names.
    pub fn get(&self, pos: Pos) -> (c: Cell)
        requires
            self.wf(),
        ensures
            c.alive() == self.alive_at(slot_of(pos)),
    {
        let local = HashedWorld::get_local_pos(pos);
        self.cells[(local.x * 16 + local.y) as usize]
    }

    /// Writes the cell of this chunk that the world coordinate `pos` names.
    pub fn set(&mut self, pos: Pos, cell: Cell)
        requires
            old(self).wf(),
        ensures
            final(self).wf(),
            forall|slot: int|
                0 <= slot < 256 ==> #[trigger] final(self).alive_at(slot) == if slot == slot_of(pos) {
                    cell.alive()
                } else {
                    old(self).alive_at(slot)
                },
    {
        let local = HashedWorld::get_local_pos(pos);
        self.cells.set((local.x * 16 + local.y) as usize, cell);
    }

    /// The places within this chunk, relative to its origin, whose cells are
    /// alive: each once.
    pub fn get_actives(&self) -> (v: Vec<Pos>)
        requires
            self.wf(),
        ensures
            v@.no_duplicates(),
            forall|local: Pos|
                #[trigger] v@.contains(local) <==> in_chunk(local) && self.alive_at(
                    local.x * 16 + local.y,
                ),
    {
        let mut v: Vec<Pos> = Vec::new();
        let mut slot: usize = 0;
        while slot < 256
            invariant
                slot <= 256,
                self.wf(),
                v@.no_duplicates(),
                forall|local: Pos|
                    #[trigger] v@.contains(local) <==> in_chunk(local) && local.x * 16 + local.y
                        < slot && self.alive_at(local.x * 16 + local.y),
            decreases 256 - slot,
        {
            if self.cells[slot].is_active() {
                let local = Pos { x: (slot / 16) as i32, y: (slot % 16) as i32 };
                let ghost before = v@;
                v.push(local);
                proof {
                    assert(!before.contains(local));
                    assert forall|q: Pos| #[trigger] v@.contains(q) <==> before.contains(q) || q == local by {
                        if before.contains(q) {
                            let i = choose|i: int| 0 <= i < before.len() && before[i] == q;
                            assert(v@[i] == q);
                        }
                        if q == local {
                            assert(v@[before.len() as int] == q);
                        }
                    }
                }
            }
            slot = slot + 1;
        }
        v
    }
}

/// An unbounded grid of cells that stores only the chunks that were written
/// to. Chunks are filed in a hash map under the number of their origin.
#[derive(Debug)]
pub struct HashedWorld {
    chunks: HashMap<u64, Chunk, MetroBuildHasher>,
}

/// What holds of a table of chunks that was just built: it holds nothing, and
/// the hashers that it builds for its keys are deterministic.
pub open spec fn is_fresh_table(table: HashMap<u64, Chunk, MetroBuildHasher>) -> bool {
    table@ == Map::<u64, Chunk>::empty() && builds_valid_hashers::<MetroBuildHasher>()
}

/// An empty table of chunks that hashes with `metrohash::MetroBuildHasher`,
/// built by `HashMap::with_hasher` from `MetroBuildHasher::default()`.
/// The contract claims, and nothing proves, that the table is empty and that
/// the hasher builder is deterministic: it is std's `BuildHasherDefault` over
/// `MetroHash64`, whose `Default` starts every hasher from seed 0, so equal
/// keys hash alike.
#[verifier::external_body]
fn new_chunk_table() -> (table: HashMap<u64, Chunk, MetroBuildHasher>)
    ensures
        is_fresh_table(table),
{
    HashMap::with_hasher(MetroBuildHasher::default())
}

impl HashedWorld {
    /// Whether the cell at `pos` is recorded as alive.
    pub closed spec fn cell_at(&self, pos: Pos) -> bool {
        let key = key_at(origin_of(pos));
        self.chunks@.contains_key(key) && self.chunks@[key].alive_at(slot_of(pos))
    }

    /// Whether the chunk that covers `pos` is stored.
    pub closed spec fn chunk_at(&self, pos: Pos) -> bool {
        self.chunks@.contains_key(key_at(origin_of(pos)))
    }

    /// Every stored chunk is whole and is filed under the number of an origin.
    pub closed spec fn inv(&self) -> bool {
        &&& builds_valid_hashers::<MetroBuildHasher>()
        &&& forall|key: u64| #[trigger]
            self.chunks@.contains_key(key) ==> self.chunks@[key].wf() && is_origin(origin_at(key))
    }

    /// The origin of the chunk that covers `pos`.
    pub fn get_chunk_pos(pos: Pos) -> (origin: Pos)
        ensures
            origin == origin_of(pos),
    {
        proof {
            lemma_origin_of(pos);
        }
        Pos { x: snap(pos.x, CHUNK_SIZE as i32), y: snap(pos.y, CHUNK_SIZE as i32) }
    }

    /// The place of the cell at `pos` relative to the origin of its chunk.
    pub fn get_local_pos(pos: Pos) -> (local: Pos)
        ensures
            local.x == pos.x - origin_of(pos).x,
            local.y == pos.y - origin_of(pos).y,
            0 <= local.x < 16,
            0 <= local.y < 16,
    {
        proof {
            lemma_origin_of(pos);
        }
        let origin = Self::get_chunk_pos(pos);
        pos - origin
    }

    /// The number under which the chunk that covers `pos` is filed.
    fn get_chunk_key(pos: Pos) -> (key: u64)
        ensures
            key == key_at(origin_of(pos)),
    {
        let origin = Self::get_chunk_pos(pos);
        let high: u64 = (origin.x as i64 + 0x8000_0000) as u64;
        let low: u64 = (origin.y as i64 + 0x8000_0000) as u64;
        high * 0x1_0000_0000 + low
    }

    /// The origin of the chunk that is filed under `key`.
    fn get_key_origin(key: u64) -> (origin: Pos)
        ensures
            origin == origin_at(key),
    {
        let high: u64 = key / 0x1_0000_0000;
        let low: u64 = key % 0x1_0000_0000;
        Pos { x: (high as i64 - 0x8000_0000) as i32, y: (low as i64 - 0x8000_0000) as i32 }
    }

    /// The stored chunk that covers `pos`, if there is one.
    fn get_chunk(&self, pos: Pos) -> (found: Option<&Chunk>)
        requires
            self.inv(),
        ensures
            found is Some == self.chunk_at(pos),
            found matches Some(chunk) ==> chunk.wf() && forall|slot: int|
                chunk.alive_at(slot) == self.chunks@[key_at(origin_of(pos))].alive_at(slot),
    {
        let key = Self::get_chunk_key(pos);
        self.chunks.get(&key)
    }

    /// Takes the chunk that covers `pos` out of the store, if there is one.
    fn take_chunk(&mut self, pos: Pos) -> (found: Option<Chunk>)
        requires
            old(self).inv(),
        ensures
            final(self).inv(),
            final(self).chunks@ == old(self).chunks@.remove(key_at(origin_of(pos))),
            found is Some == old(self).chunk_at(pos),
            found matches Some(chunk) ==> chunk == old(self).chunks@[key_at(origin_of(pos))],
    {
        let key = Self::get_chunk_key(pos);
        self.chunks.remove(&key)
    }

    /// Files `chunk` as the chunk that covers `pos`.
    fn push_chunk(&mut self, pos: Pos, chunk: Chunk)
        requires
            old(self).inv(),
            chunk.wf(),
        ensures
            final(self).inv(),
            final(self).chunks@ == old(self).chunks@.insert(key_at(origin_of(pos)), chunk),
    {
        let key = Self::get_chunk_key(pos);
        proof {
            lemma_origin_of(pos);
            lemma_key_round_trip(origin_of(pos), key);
        }
        self.chunks.insert(key, chunk);
    }
}

impl Clone for HashedWorld {
    /// An independent copy: it holds the same cells and the same chunks.
    fn clone(&self) -> (w: Self)
        ensures
            self.wf() ==> w.wf(),
            w.live() == self.live(),
            w.loaded() == self.loaded(),
    {
        let w = HashedWorld { chunks: self.chunks.clone() };
        assert(w.live() =~= self.live());
        assert(w.loaded() =~= self.loaded());
        w
    }
}

impl Default for HashedWorld {
    /// The world in which every cell is dead and no chunk is stored.
    fn default() -> (w: Self)
        ensures
            w.wf(),
            w.live() == Set::<Pos>::empty(),
            w.loaded() == Set::<Pos>::empty(),
    {
        Self::empty()
    }
}

impl World for HashedWorld {
    open spec fn wf(&self) -> bool {
        self.inv()
    }

    open spec fn live(&self) -> Set<Pos> {
        Set::new(|pos: Pos| self.cell_at(pos))
    }

    open spec fn loaded(&self) -> Set<Pos> {
        Set::new(|pos: Pos| self.chunk_at(pos))
    }

    /// A write sets aside the whole chunk that covers the written cell.
    open spec fn extent(pos: Pos) -> Set<Pos> {
        Set::new(|other: Pos| origin_of(other) == origin_of(pos))
    }

    proof fn lemma_live_is_loaded(&self, pos: Pos) {
    }

    fn empty() -> (w: Self) {
        let w = HashedWorld { chunks: new_chunk_table() };
        assert(w.live() =~= Set::<Pos>::empty());
        assert(w.loaded() =~= Set::<Pos>::empty());
        w
    }

    fn get(&self, pos: Pos) -> (c: Cell) {
        match self.get_chunk(pos) {
            Some(chunk) => chunk.get(pos),
            None => Cell::inactive(),
        }
    }

    fn set(&mut self, pos: Pos, cell: Cell) {
        let mut chunk = match self.take_chunk(pos) {
            Some(chunk) => chunk,
            None => Chunk::new(),
        };
        chunk.set(pos, cell);
        self.push_chunk(pos, chunk);
        proof {
            let key = key_at(origin_of(pos));
            lemma_origin_of(pos);
            assert forall|q: Pos| #[trigger] final(self).cell_at(q) == (if q == pos {
                cell.alive()
            } else {
                old(self).cell_at(q)
            }) by {
                lemma_origin_of(q);
                lemma_key_round_trip(origin_of(q), key);
                lemma_key_round_trip(origin_of(pos), key);
                if key_at(origin_of(q)) == key && q != pos {
                    if slot_of(q) == slot_of(pos) {
                        lemma_cell_identity(q, pos);
                    }
                }
            }
            assert forall|q: Pos| #[trigger] final(self).chunk_at(q) == (old(self).chunk_at(q)
                || origin_of(q) == origin_of(pos)) by {
                lemma_key_round_trip(origin_of(q), key);
                lemma_key_round_trip(origin_of(pos), key);
            }
            assert(final(self).live() =~= written(old(self).live(), pos, cell));
            assert(final(self).loaded() =~= old(self).loaded().union(Self::extent(pos)));
        }
    }

    fn actives(&self) -> (v: Vec<Pos>) {
        let mut v: Vec<Pos> = Vec::new();
        proof {
            let keys = spec_keys_iter(&self.chunks).remaining();
            assert forall|key: u64| #[trigger] self.chunks@.contains_key(key) implies filed_among(
                keys,
                keys.len() as int,
                key,
            ) by {
                assert(keys.unref().to_set().contains(key));
                assert(keys.unref().contains(key));
                let j = choose|j: int| 0 <= j < keys.unref().len() && keys.unref()[j] == key;
                assert(*keys[j] == key);
            }
        }
        for key in it: self.chunks.keys()
            invariant
                self.inv(),
                forall|key: u64| #[trigger]
                    self.chunks@.contains_key(key) ==> filed_among(
                        it.seq(),
                        it.seq().len() as int,
                        key,
                    ),
                v@.no_duplicates(),
                it.seq().no_duplicates(),
                it.seq().unref().to_set() == self.chunks@.dom(),
                forall|pos: Pos|
                    #[trigger] v@.contains(pos) <==> self.cell_at(pos) && filed_among(
                        it.seq(),
                        it.index(),
                        key_at(origin_of(pos)),
                    ),
        {
            let ghost keys = it.seq();
            let ghost at = it.index();
            assert(keys.unref()[at] == *key);
            assert(self.chunks@.dom().contains(*key));
            let origin = Self::get_key_origin(*key);
            let chunk = self.chunks.get(key).unwrap();
            let locals = chunk.get_actives();
            proof {
                lemma_key_round_trip(origin, *key);
            }
            let mut i: usize = 0;
            while i < locals.len()
                invariant
                    i <= locals.len(),
                    self.inv(),
                    0 <= at < keys.len(),
                    *keys[at] == *key,
                    keys.no_duplicates(),
                    self.chunks@.contains_key(*key),
                    *chunk == self.chunks@[*key],
                    origin == origin_at(*key),
                    is_origin(origin),
                    key_at(origin) == *key,
                    locals@.no_duplicates(),
                    forall|local: Pos|
                        #[trigger] locals@.contains(local) <==> in_chunk(local) && chunk.alive_at(
                            local.x * 16 + local.y,
                        ),
                    v@.no_duplicates(),
                    forall|pos: Pos|
                        #[trigger] v@.contains(pos) <==> (self.cell_at(pos) && filed_among(
                            keys,
                            at,
                            key_at(origin_of(pos)),
                        )) || placed_among(locals@, i as int, origin, pos),
                decreases locals.len() - i,
            {
                let local = locals[i];
                assert(locals@.contains(local));
                proof {
                    lemma_cell_of_chunk(origin, local);
                }
                let pos = origin + local;
                let ghost before = v@;
                proof {
                    if before.contains(pos) {
                        if placed_among(locals@, i as int, origin, pos) {
                            let j = choose|j: int| 0 <= j < i && place(origin, #[trigger] locals@[j]) == pos;
                            assert(locals@.contains(locals@[j]));
                            lemma_cell_of_chunk(origin, locals@[j]);
                            lemma_place_injective(origin, locals@[j], local);
                        } else {
                            let j = choose|j: int| 0 <= j < at && *#[trigger] keys[j] == *key;
                            assert(keys[j] == keys[at]);
                        }
                    }
                }
                v.push(pos);
                proof {
                    assert forall|q: Pos| #[trigger] v@.contains(q) <==> before.contains(q) || q == pos by {
                        if before.contains(q) {
                            let n = choose|n: int| 0 <= n < before.len() && before[n] == q;
                            assert(v@[n] == q);
                        }
                        if q == pos {
                            assert(v@[before.len() as int] == q);
                        }
                    }
                    assert forall|q: Pos| placed_among(locals@, i + 1, origin, q) <==> placed_among(
                        locals@,
                        i as int,
                        origin,
                        q,
                    ) || q == pos by {
                        if q == pos {
                            assert(place(origin, locals@[i as int]) == q);
                        }
                    }
                }
                i = i + 1;
            }
            proof {
                assert forall|pos: Pos|
                    #[trigger] v@.contains(pos) <==> self.cell_at(pos) && filed_among(
                        keys,
                        at + 1,
                        key_at(origin_of(pos)),
                    ) by {
                    let there = key_at(origin_of(pos));
                    lemma_origin_of(pos);
                    lemma_key_round_trip(origin_of(pos), there);
                    if placed_among(locals@, locals@.len() as int, origin, pos) {
                        let j = choose|j: int|
                            0 <= j < locals@.len() && place(origin, #[trigger] locals@[j]) == pos;
                        assert(locals@.contains(locals@[j]));
                        lemma_cell_of_chunk(origin, locals@[j]);
                        assert(*keys[at] == there);
                    }
                    if self.cell_at(pos) && there == *key {
                        let local = Pos {
                            x: (pos.x - origin.x) as i32,
                            y: (pos.y - origin.y) as i32,
                        };
                        assert(place(origin, local) == pos);
                        assert(locals@.contains(local));
                        let j = choose|j: int| 0 <= j < locals@.len() && locals@[j] == local;
                        assert(place(origin, locals@[j]) == pos);
                    }
                    if filed_among(keys, at + 1, there) && there != *key {
                        let j = choose|j: int| 0 <= j < at + 1 && *#[trigger] keys[j] == there;
                        assert(j < at);
                    }
                    if filed_among(keys, at, there) {
                        let j = choose|j: int| 0 <= j < at && *#[trigger] keys[j] == there;
                        assert(0 <= j < at + 1);
                    }
                }
            }
        }
        proof {
            assert(v@.to_set() =~= self.live());
        }
        v
    }

    fn dbg_is_loaded(&self, pos: Pos) -> (b: bool) {
        self.get_chunk(pos).is_some()
    }

    fn duplicate(&self) -> (w: Self) {
        self.clone()
    }
}

} // verus!
