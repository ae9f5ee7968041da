//! The loaded world: chunk voxel data by chunk coordinate, and the render
//! entity of each meshed chunk.
use vstd::prelude::*;
use std::collections::{HashMap, HashSet};
use vstd::std_specs::iter::IteratorSpec;
use crate::chunk_data::{ChunkData, cell_index, in_chunk};
use crate::block::{BlockType, block_code};
use crate::coords::{IVec3, CHUNK_VOLUME};
use crate::keys::{key, key_of, pos_of, pos_of_key, is_pos_key, lemma_key_roundtrip, lemma_pos_key_roundtrip, lemma_key_injective};
use crate::keys::set_by_pos;

verus! {

/// The map by position of a table keyed by position keys.
pub open spec fn by_pos<V>(m: Map<u128, V>) -> Map<IVec3, V> {
    Map::new(|p: IVec3| m.contains_key(key_of(p)), |p: IVec3| m[key_of(p)])
}

/// Entries of `m` whose position satisfies `keep`.
pub open spec fn restrict_by<V>(m: Map<IVec3, V>, keep: spec_fn(IVec3) -> bool) -> Map<IVec3, V> {
    Map::new(|p: IVec3| m.contains_key(p) && keep(p), |p: IVec3| m[p])
}

proof fn lemma_by_pos_insert<V>(m: Map<u128, V>, p: IVec3, v: V)
    ensures
        by_pos(m.insert(key_of(p), v)) == by_pos(m).insert(p, v),
{
    assert forall|q: IVec3| #[trigger] by_pos(m.insert(key_of(p), v)).contains_key(q)
        == by_pos(m).insert(p, v).contains_key(q) by {
        lemma_key_injective(p, q);
    }
    assert forall|q: IVec3| by_pos(m.insert(key_of(p), v)).contains_key(q) implies
        #[trigger] by_pos(m.insert(key_of(p), v))[q] == by_pos(m).insert(p, v)[q] by {
        lemma_key_injective(p, q);
    }
    assert(by_pos(m.insert(key_of(p), v)) =~= by_pos(m).insert(p, v));
}

proof fn lemma_by_pos_remove<V>(m: Map<u128, V>, p: IVec3)
    ensures
        by_pos(m.remove(key_of(p))) == by_pos(m).remove(p),
{
    assert forall|q: IVec3| #[trigger] by_pos(m.remove(key_of(p))).contains_key(q)
        == by_pos(m).remove(p).contains_key(q) by {
        lemma_key_injective(p, q);
    }
    assert(by_pos(m.remove(key_of(p))) =~= by_pos(m).remove(p));
}

/// The positions of distinct position keys are distinct, and they are the
/// positions of the key set.
proof fn lemma_positions_of_keys(s: Seq<u128>, r: Seq<IVec3>, keys: Set<u128>)
    requires
        s.no_duplicates(),
        s.to_set() == keys,
        forall|k: u128| #[trigger] keys.contains(k) ==> is_pos_key(k),
        r.len() == s.len(),
        forall|i: int| 0 <= i < r.len() ==> #[trigger] r[i] == pos_of_key(s[i]),
    ensures
        r.no_duplicates(),
        r.to_set() == set_by_pos(keys),
{
    assert forall|i: int, j: int| 0 <= i < r.len() && 0 <= j < r.len() && i != j implies r[i] != r[j] by {
        assert(s.contains(s[i]) && s.contains(s[j]));
        assert(s.to_set().contains(s[i]) && s.to_set().contains(s[j]));
        lemma_pos_key_roundtrip(s[i]);
        lemma_pos_key_roundtrip(s[j]);
    }
    assert forall|p: IVec3| #[trigger] r.to_set().contains(p) == set_by_pos(keys).contains(p) by {
        if r.to_set().contains(p) {
            let i = choose|i: int| 0 <= i < r.len() && r[i] == p;
            assert(s.contains(s[i]));
            assert(s.to_set().contains(s[i]));
            lemma_pos_key_roundtrip(s[i]);
        }
        if set_by_pos(keys).contains(p) {
            assert(s.to_set().contains(key_of(p)));
            let i = choose|i: int| 0 <= i < s.len() && s[i] == key_of(p);
            lemma_key_roundtrip(p);
            assert(r[i] == p);
        }
    }
    assert(r.to_set() =~= set_by_pos(keys));
}

/// `s` with `c` pushed contains exactly the elements of `s` and `c`.
pub proof fn lemma_push_contains(s: Seq<IVec3>, c: IVec3)
    ensures
        forall|d: IVec3| #[trigger] s.push(c).contains(d) <==> (s.contains(d) || d == c),
{
    assert forall|d: IVec3| #[trigger] s.push(c).contains(d) <==> (s.contains(d) || d == c) by {
        if s.contains(d) {
            let j = choose|j: int| 0 <= j < s.len() && s[j] == d;
            assert(s.push(c)[j] == d);
        }
        if d == c {
            assert(s.push(c)[s.len() as int] == d);
        }
        if s.push(c).contains(d) {
            let j = choose|j: int| 0 <= j < s.len() + 1 && s.push(c)[j] == d;
            if j < s.len() {
                assert(s[j] == d);
            }
        }
    }
}

/// True when `c` is within `rx` of `center` on x, `ry` on y and `rz` on z.
pub open spec fn in_box(center: IVec3, c: IVec3, rx: int, ry: int, rz: int) -> bool {
    &&& -rx <= c.x - center.x <= rx
    &&& -ry <= c.y - center.y <= ry
    &&& -rz <= c.z - center.z <= rz
}

fn in_box_exec(center: IVec3, c: IVec3, rx: i32, ry: i32, rz: i32) -> (r: bool)
    ensures
        r == in_box(center, c, rx as int, ry as int, rz as int),
{
    let dx = c.x as i64 - center.x as i64;
    let dy = c.y as i64 - center.y as i64;
    let dz = c.z as i64 - center.z as i64;
    -(rx as i64) <= dx && dx <= rx as i64 && -(ry as i64) <= dy && dy <= ry as i64 && -(rz as i64) <= dz
        && dz <= rz as i64
}

/// A table from positions to values.
pub struct PosMap<V> {
    table: HashMap<u128, V>,
}

impl<V> View for PosMap<V> {
    type V = Map<IVec3, V>;

    closed spec fn view(&self) -> Map<IVec3, V> {
        by_pos(self.table@)
    }
}

impl<V> PosMap<V> {
    /// Every key of the table is the key of a position.
    pub closed spec fn wf(self) -> bool {
        forall|k: u128| #[trigger] self.table@.contains_key(k) ==> is_pos_key(k)
    }

    pub fn new() -> (r: Self)
        ensures
            r@ == Map::<IVec3, V>::empty(),
            r.wf(),
    {
        let r = PosMap { table: HashMap::new() };
        assert(r@ =~= Map::<IVec3, V>::empty());
        r
    }

    pub fn contains_key(&self, p: IVec3) -> (r: bool)
        ensures
            r == self@.contains_key(p),
    {
        self.table.contains_key(&key(p))
    }

    pub fn get(&self, p: IVec3) -> (r: Option<&V>)
        ensures
            match r {
                Some(v) => self@.contains_key(p) && *v == self@[p],
                None => !self@.contains_key(p),
            },
    {
        self.table.get(&key(p))
    }

    pub fn insert(&mut self, p: IVec3, v: V)
        requires
            old(self).wf(),
        ensures
            final(self)@ == old(self)@.insert(p, v),
            final(self).wf(),
    {
        let k = key(p);
        proof {
            lemma_key_roundtrip(p);
            lemma_by_pos_insert(self.table@, p, v);
        }
        self.table.insert(k, v);
    }

    pub fn remove(&mut self, p: IVec3) -> (r: Option<V>)
        requires
            old(self).wf(),
        ensures
            final(self)@ == old(self)@.remove(p),
            final(self).wf(),
            match r {
                Some(v) => old(self)@.contains_key(p) && v == old(self)@[p],
                None => !old(self)@.contains_key(p),
            },
    {
        proof {
            lemma_by_pos_remove(self.table@, p);
        }
        self.table.remove(&key(p))
    }

    /// Drops every entry outside the box of half-widths `rx`, `ry`, `rz` around `center`.
    pub fn retain_box(&mut self, center: IVec3, rx: i32, ry: i32, rz: i32)
        requires
            old(self).wf(),
        ensures
            final(self).wf(),
            final(self)@ == restrict_by(old(self)@, |c: IVec3| in_box(center, c, rx as int, ry as int, rz as int)),
    {
        let coords = self.coords();
        let mut i: usize = 0;
        while i < coords.len()
            invariant
                i <= coords@.len(),
                self.wf(),
                coords@.to_set() == old(self)@.dom(),
                self@ == Map::new(
                    |c: IVec3| old(self)@.contains_key(c) && (in_box(center, c, rx as int, ry as int, rz as int)
                        || !coords@.take(i as int).contains(c)),
                    |c: IVec3| old(self)@[c],
                ),
            decreases coords@.len() - i,
        {
            let c = coords[i];
            if !in_box_exec(center, c, rx, ry, rz) {
                self.remove(c);
            }
            assert(coords@.take(i + 1) =~= coords@.take(i as int).push(c));
            proof {
                lemma_push_contains(coords@.take(i as int), c);
            }
            assert(self@ =~= Map::new(
                |d: IVec3| old(self)@.contains_key(d) && (in_box(center, d, rx as int, ry as int, rz as int)
                    || !coords@.take(i + 1).contains(d)),
                |d: IVec3| old(self)@[d],
            ));
            i = i + 1;
        }
        assert(coords@.take(coords@.len() as int) =~= coords@);
        assert forall|c: IVec3| old(self)@.contains_key(c) implies #[trigger] coords@.contains(c) by {
            assert(coords@.to_set().contains(c));
        }
        assert(self@ =~= restrict_by(old(self)@, |c: IVec3| in_box(center, c, rx as int, ry as int, rz as int)));
    }

    /// All positions of the table, each once, in table order.
    pub fn coords(&self) -> (r: Vec<IVec3>)
        requires
            self.wf(),
        ensures
            r@.no_duplicates(),
            r@.to_set() == self@.dom(),
    {
        let mut r: Vec<IVec3> = Vec::new();
        let keys = self.table.keys();
        let ghost full = keys.remaining().unref();
        for k in it: keys
            invariant
                self.wf(),
                full.to_set() == self.table@.dom(),
                full.no_duplicates(),
                it.seq().unref() == full,
                r@.len() == it.index(),
                forall|i: int| 0 <= i < r@.len() ==> #[trigger] r@[i] == pos_of_key(full[i]),
            ensures
                r@.len() == full.len(),
                forall|i: int| 0 <= i < r@.len() ==> #[trigger] r@[i] == pos_of_key(full[i]),
        {
            r.push(pos_of(*k));
        }
        proof {
            lemma_positions_of_keys(full, r@, self.table@.dom());
            assert(self@.dom() =~= set_by_pos(self.table@.dom()));
        }
        r
    }
}

/// The bytes of every loaded chunk, by chunk coordinate.
pub open spec fn cells_of(m: Map<IVec3, ChunkData>) -> Map<IVec3, Seq<u8>> {
    Map::new(|p: IVec3| m.contains_key(p), |p: IVec3| m[p]@)
}

/// Every loaded chunk holds one byte per block.
pub open spec fn cells_wf(cells: Map<IVec3, Seq<u8>>) -> bool {
    forall|c: IVec3| #[trigger] cells.contains_key(c) ==> cells[c].len() == CHUNK_VOLUME
}

/// A set of positions.
pub struct PosSet {
    positions: HashSet<u128>,
}

impl View for PosSet {
    type V = Set<IVec3>;

    closed spec fn view(&self) -> Set<IVec3> {
        set_by_pos(self.positions@)
    }
}

impl PosSet {
    pub closed spec fn wf(self) -> bool {
        forall|k: u128| #[trigger] self.positions@.contains(k) ==> is_pos_key(k)
    }

    pub fn new() -> (r: Self)
        ensures
            r@ == Set::<IVec3>::empty(),
            r.wf(),
    {
        let r = PosSet { positions: HashSet::new() };
        assert(r@ =~= Set::<IVec3>::empty());
        r
    }

    pub fn insert(&mut self, p: IVec3)
        requires
            old(self).wf(),
        ensures
            final(self)@ == old(self)@.insert(p),
            final(self).wf(),
    {
        let k = key(p);
        proof {
            lemma_key_roundtrip(p);
        }
        self.positions.insert(k);
        assert forall|q: IVec3| #[trigger] self@.contains(q) == old(self)@.insert(p).contains(q) by {
            lemma_key_injective(p, q);
        }
        assert(self@ =~= old(self)@.insert(p));
    }

    pub fn contains(&self, p: IVec3) -> (r: bool)
        ensures
            r == self@.contains(p),
    {
        self.positions.contains(&key(p))
    }

    /// Empties the set and gives its positions, each once, in table order.
    pub fn take_all(&mut self) -> (r: Vec<IVec3>)
        requires
            old(self).wf(),
        ensures
            final(self).wf(),
            final(self)@ == Set::<IVec3>::empty(),
            r@.no_duplicates(),
            r@.to_set() == old(self)@,
    {
        let mut r: Vec<IVec3> = Vec::new();
        let keys = self.positions.iter();
        let ghost full = keys.remaining().unref();
        for k in it: keys
            invariant
                self.wf(),
                full.to_set() == self.positions@,
                full.no_duplicates(),
                it.seq().unref() == full,
                r@.len() == it.index(),
                forall|i: int| 0 <= i < r@.len() ==> #[trigger] r@[i] == pos_of_key(full[i]),
            ensures
                r@.len() == full.len(),
                forall|i: int| 0 <= i < r@.len() ==> #[trigger] r@[i] == pos_of_key(full[i]),
        {
            r.push(pos_of(*k));
        }
        proof {
            lemma_positions_of_keys(full, r@, old(self).positions@);
        }
        self.positions.clear();
        assert(self@ =~= Set::<IVec3>::empty());
        r
    }
}

/// Voxel data of every loaded chunk, by chunk coordinate.
pub struct ChunkDataStore {
    chunks: PosMap<ChunkData>,
}

impl View for ChunkDataStore {
    type V = Map<IVec3, ChunkData>;

    closed spec fn view(&self) -> Map<IVec3, ChunkData> {
        self.chunks@
    }
}

impl ChunkDataStore {
    /// Every stored chunk holds one byte per block.
    pub closed spec fn wf(self) -> bool {
        &&& self.chunks.wf()
        &&& forall|p: IVec3| #[trigger] self@.contains_key(p) ==> self@[p].wf()
    }

    /// Every chunk of a well-formed store holds one byte per block.
    pub proof fn lemma_chunks_wf(self, p: IVec3)
        requires
            self.wf(),
            self@.contains_key(p),
        ensures
            self@[p].wf(),
    {
    }

    /// The bytes of a well-formed store's chunks have one byte per block.
    pub proof fn lemma_cells_wf(self)
        requires
            self.wf(),
        ensures
            cells_wf(cells_of(self@)),
    {
        assert forall|c: IVec3| #[trigger] cells_of(self@).contains_key(c) implies cells_of(self@)[c].len()
            == CHUNK_VOLUME by {
            assert(self@.contains_key(c));
        }
    }

    pub fn new() -> (r: Self)
        ensures
            r@ == Map::<IVec3, ChunkData>::empty(),
            r.wf(),
    {
        ChunkDataStore { chunks: PosMap::new() }
    }

    pub fn contains_key(&self, p: IVec3) -> (r: bool)
        ensures
            r == self@.contains_key(p),
    {
        self.chunks.contains_key(p)
    }

    pub fn get(&self, p: IVec3) -> (r: Option<&ChunkData>)
        requires
            self.wf(),
        ensures
            match r {
                Some(c) => self@.contains_key(p) && *c == self@[p] && c.wf(),
                None => !self@.contains_key(p),
            },
    {
        self.chunks.get(p)
    }

    pub fn insert(&mut self, p: IVec3, data: ChunkData)
        requires
            old(self).wf(),
            data.wf(),
        ensures
            final(self)@ == old(self)@.insert(p, data),
            final(self).wf(),
    {
        self.chunks.insert(p, data);
        assert forall|q: IVec3| #[trigger] self@.contains_key(q) implies self@[q].wf() by {
            if q != p {
                assert(old(self)@.contains_key(q));
            }
        }
    }

    pub fn remove(&mut self, p: IVec3) -> (r: Option<ChunkData>)
        requires
            old(self).wf(),
        ensures
            final(self)@ == old(self)@.remove(p),
            final(self).wf(),
            match r {
                Some(c) => old(self)@.contains_key(p) && c == old(self)@[p] && c.wf(),
                None => !old(self)@.contains_key(p),
            },
    {
        let r = self.chunks.remove(p);
        assert forall|q: IVec3| #[trigger] self@.contains_key(q) implies self@[q].wf() by {
            assert(old(self)@.contains_key(q));
        }
        r
    }

    /// Writes `block` at local position `(x, y, z)` of chunk `c` if that chunk is
    /// loaded, and says whether it was.
    pub fn set_local(&mut self, c: IVec3, x: usize, y: usize, z: usize, block: BlockType) -> (r: bool)
        requires
            old(self).wf(),
            in_chunk(x as int, y as int, z as int),
        ensures
            final(self).wf(),
            r == old(self)@.contains_key(c),
            r ==> final(self)@ == old(self)@.insert(c, final(self)@[c]),
            r ==> final(self)@[c]@ == old(self)@[c].with_block(cell_index(x as int, y as int, z as int), block),
            r ==> cells_of(final(self)@) == cells_of(old(self)@).insert(
                c,
                cells_of(old(self)@)[c].update(cell_index(x as int, y as int, z as int), block_code(block)),
            ),
            !r ==> final(self)@ == old(self)@,
    {
        match self.remove(c) {
            Some(mut data) => {
                data.set(x, y, z, block);
                self.insert(c, data);
                proof {
                    assert(self@ =~= old(self)@.insert(c, self@[c]));
                    assert(cells_of(self@) =~= cells_of(old(self)@).insert(
                        c,
                        cells_of(old(self)@)[c].update(cell_index(x as int, y as int, z as int), block_code(block)),
                    ));
                }
                true
            },
            None => {
                proof {
                    assert(self@ =~= old(self)@);
                }
                false
            },
        }
    }

    /// The coordinates of all loaded chunks, each once, in table order.
    /// Drops every chunk outside the box of half-widths `rx`, `ry`, `rz` around `center`.
    pub fn retain_box(&mut self, center: IVec3, rx: i32, ry: i32, rz: i32)
        requires
            old(self).wf(),
        ensures
            final(self).wf(),
            final(self)@ == restrict_by(old(self)@, |c: IVec3| in_box(center, c, rx as int, ry as int, rz as int)),
    {
        self.chunks.retain_box(center, rx, ry, rz);
        assert forall|q: IVec3| #[trigger] self@.contains_key(q) implies self@[q].wf() by {
            assert(old(self)@.contains_key(q));
        }
    }

    pub fn coords(&self) -> (r: Vec<IVec3>)
        requires
            self.wf(),
        ensures
            r@.no_duplicates(),
            r@.to_set() == self@.dom(),
    {
        self.chunks.coords()
    }
}

/// The render entity of every meshed chunk, by chunk coordinate; entities are
/// kept as their 64-bit identifiers.
pub struct ChunkMap {
    entities: PosMap<u64>,
}

impl View for ChunkMap {
    type V = Map<IVec3, u64>;

    closed spec fn view(&self) -> Map<IVec3, u64> {
        self.entities@
    }
}

impl ChunkMap {
    pub closed spec fn wf(self) -> bool {
        self.entities.wf()
    }

    pub fn new() -> (r: Self)
        ensures
            r@ == Map::<IVec3, u64>::empty(),
            r.wf(),
    {
        ChunkMap { entities: PosMap::new() }
    }

    pub fn contains_key(&self, p: IVec3) -> (r: bool)
        ensures
            r == self@.contains_key(p),
    {
        self.entities.contains_key(p)
    }

    pub fn get(&self, p: IVec3) -> (r: Option<u64>)
        ensures
            match r {
                Some(e) => self@.contains_key(p) && e == self@[p],
                None => !self@.contains_key(p),
            },
    {
        match self.entities.get(p) {
            Some(e) => Some(*e),
            None => None,
        }
    }

    pub fn insert(&mut self, p: IVec3, entity: u64)
        requires
            old(self).wf(),
        ensures
            final(self)@ == old(self)@.insert(p, entity),
            final(self).wf(),
    {
        self.entities.insert(p, entity);
    }

    pub fn remove(&mut self, p: IVec3) -> (r: Option<u64>)
        requires
            old(self).wf(),
        ensures
            final(self)@ == old(self)@.remove(p),
            final(self).wf(),
            match r {
                Some(e) => old(self)@.contains_key(p) && e == old(self)@[p],
                None => !old(self)@.contains_key(p),
            },
    {
        self.entities.remove(p)
    }

    /// Drops every entity outside the box of half-widths `rx`, `ry`, `rz` around `center`.
    pub fn retain_box(&mut self, center: IVec3, rx: i32, ry: i32, rz: i32)
        requires
            old(self).wf(),
        ensures
            final(self).wf(),
            final(self)@ == restrict_by(old(self)@, |c: IVec3| in_box(center, c, rx as int, ry as int, rz as int)),
    {
        self.entities.retain_box(center, rx, ry, rz);
    }

    /// The coordinates of all chunks that have an entity, each once, in table order.
    pub fn coords(&self) -> (r: Vec<IVec3>)
        requires
            self.wf(),
        ensures
            r@.no_duplicates(),
            r@.to_set() == self@.dom(),
    {
        self.entities.coords()
    }
}

/// The chunks the player has changed.
pub struct ModifiedChunks(pub PosSet);

} // verus!
