//! The queue of chunks waiting to be meshed, without duplicate work.
//!
//! Each waiting coordinate is in the queue once. `push_back` and `push_front`
//! add a coordinate that is not waiting yet; `reprioritize` always puts the
//! coordinate at the front and takes it out of its old place, so that no
//! stale entry is ever handed out; `pop_front` hands out the first one.
use vstd::prelude::*;
use std::collections::{HashSet, VecDeque};
use crate::coords::IVec3;
use crate::keys::{key, key_of, set_by_pos, is_pos_key, lemma_key_roundtrip, lemma_key_injective};
use crate::world::ChunkDataStore;

verus! {

/// Number of chunks meshed per frame at most.
pub const MESH_BUDGET: usize = 8;

/// `q` with every occurrence of `c` taken out, the rest in order.
pub open spec fn without(q: Seq<IVec3>, c: IVec3) -> Seq<IVec3>
    decreases q.len(),
{
    if q.len() == 0 {
        q
    } else if q[0] == c {
        without(q.drop_first(), c)
    } else {
        seq![q[0]] + without(q.drop_first(), c)
    }
}

/// Taking out a coordinate that does not occur leaves the sequence as it is.
pub proof fn lemma_without_absent(q: Seq<IVec3>, c: IVec3)
    requires
        !q.contains(c),
    ensures
        without(q, c) == q,
    decreases q.len(),
{
    if q.len() > 0 {
        assert(q[0] != c);
        assert forall|i: int| 0 <= i < q.drop_first().len() implies q.drop_first()[i] != c by {
            assert(q.drop_first()[i] == q[i + 1]);
        }
        lemma_without_absent(q.drop_first(), c);
        assert(seq![q[0]] + q.drop_first() =~= q);
    }
}

/// Taking out `c` keeps every other coordinate.
pub proof fn lemma_without_keeps(q: Seq<IVec3>, c: IVec3, y: IVec3)
    requires
        q.contains(y),
        y != c,
    ensures
        without(q, c).contains(y),
    decreases q.len(),
{
    let j = choose|j: int| 0 <= j < q.len() && q[j] == y;
    if j == 0 {
        assert((seq![q[0]] + without(q.drop_first(), c))[0] == y);
    } else {
        assert(q.drop_first()[j - 1] == y);
        lemma_without_keeps(q.drop_first(), c, y);
        let w = without(q.drop_first(), c);
        let k = choose|k: int| 0 <= k < w.len() && w[k] == y;
        if q[0] != c {
            assert((seq![q[0]] + w)[k + 1] == y);
        }
    }
}

/// Taking out a coordinate that occurs once, at `i`, removes index `i`.
pub proof fn lemma_without_at(q: Seq<IVec3>, c: IVec3, i: int)
    requires
        q.no_duplicates(),
        0 <= i < q.len(),
        q[i] == c,
    ensures
        without(q, c) == q.remove(i),
    decreases q.len(),
{
    let t = q.drop_first();
    assert(t.no_duplicates()) by {
        assert forall|a: int, b: int| 0 <= a < t.len() && 0 <= b < t.len() && a != b implies t[a] != t[b] by {
            assert(t[a] == q[a + 1] && t[b] == q[b + 1]);
        }
    }
    if i == 0 {
        assert forall|j: int| 0 <= j < t.len() implies t[j] != c by {
            assert(t[j] == q[j + 1]);
        }
        lemma_without_absent(t, c);
        assert(q.remove(0) =~= t);
    } else {
        assert(q[0] != c);
        assert(t[i - 1] == c);
        lemma_without_at(t, c, i - 1);
        assert(seq![q[0]] + t.remove(i - 1) =~= q.remove(i));
    }
}

/// What `pop_front` does: hand out the first coordinate and drop it.
pub open spec fn pop_spec(q: Seq<IVec3>) -> (Seq<IVec3>, Option<IVec3>) {
    if q.len() == 0 {
        (q, None)
    } else {
        (q.drop_first(), Some(q[0]))
    }
}

/// What meshing one frame takes from the queue: pop until `budget` loaded chunks
/// are found or the queue is empty; popped chunks that are not loaded are
/// dropped and do not count. Gives the chunks to mesh and the new queue.
pub open spec fn mesh_batch(q: Seq<IVec3>, loaded: Set<IVec3>, budget: nat) -> (Seq<IVec3>, Seq<IVec3>)
    decreases q.len(),
{
    if budget == 0 || q.len() == 0 {
        (Seq::empty(), q)
    } else if loaded.contains(q[0]) {
        let (b, q2) = mesh_batch(q.drop_first(), loaded, (budget - 1) as nat);
        (seq![q[0]] + b, q2)
    } else {
        mesh_batch(q.drop_first(), loaded, budget)
    }
}

/// What `push_back(c)` does: append `c` unless it is waiting already.
pub open spec fn push_back_spec(q: Seq<IVec3>, c: IVec3) -> Seq<IVec3> {
    if q.contains(c) {
        q
    } else {
        q.push(c)
    }
}

/// What `push_front(c)` does: put `c` first unless it is waiting already.
pub open spec fn push_front_spec(q: Seq<IVec3>, c: IVec3) -> Seq<IVec3> {
    if q.contains(c) {
        q
    } else {
        seq![c] + q
    }
}

/// What `reprioritize(c)` does: put `c` first, taking it out of its old place.
pub open spec fn reprioritize_spec(q: Seq<IVec3>, c: IVec3) -> Seq<IVec3> {
    seq![c] + without(q, c)
}

/// The queue after `push_back` of each coordinate of `list` in turn.
pub open spec fn push_back_all(q: Seq<IVec3>, list: Seq<IVec3>) -> Seq<IVec3>
    decreases list.len(),
{
    if list.len() == 0 {
        q
    } else {
        push_back_spec(push_back_all(q, list.drop_last()), list.last())
    }
}

/// The chunks waiting to be meshed.
pub struct MeshingQueue {
    queue: VecDeque<IVec3>,
    in_queue: HashSet<u128>,
}

impl View for MeshingQueue {
    /// The waiting coordinates in the order `pop_front` hands them out.
    type V = Seq<IVec3>;

    closed spec fn view(&self) -> Seq<IVec3> {
        self.queue@
    }
}

impl MeshingQueue {
    /// The queue holds each coordinate once, and the key set registers exactly
    /// the coordinates of the queue.
    pub closed spec fn wf(self) -> bool {
        &&& forall|k: u128| #[trigger] self.in_queue@.contains(k) ==> is_pos_key(k)
        &&& self.queue@.no_duplicates()
        &&& forall|p: IVec3| #[trigger] set_by_pos(self.in_queue@).contains(p) <==> self.queue@.contains(p)
    }

    /// A well-formed queue never holds a coordinate twice.
    pub proof fn lemma_no_duplicates(self)
        requires
            self.wf(),
        ensures
            self@.no_duplicates(),
    {
    }

    pub fn new() -> (r: Self)
        ensures
            r@ == Seq::<IVec3>::empty(),
            r.wf(),
    {
        MeshingQueue { queue: VecDeque::new(), in_queue: HashSet::new() }
    }

    proof fn lemma_insert_view(s: Set<u128>, c: IVec3)
        ensures
            set_by_pos(s.insert(key_of(c))) == set_by_pos(s).insert(c),
    {
        assert forall|p: IVec3| #[trigger] set_by_pos(s.insert(key_of(c))).contains(p)
            == set_by_pos(s).insert(c).contains(p) by {
            lemma_key_injective(p, c);
        }
        assert(set_by_pos(s.insert(key_of(c))) =~= set_by_pos(s).insert(c));
    }

    proof fn lemma_remove_view(s: Set<u128>, c: IVec3)
        ensures
            set_by_pos(s.remove(key_of(c))) == set_by_pos(s).remove(c),
    {
        assert forall|p: IVec3| #[trigger] set_by_pos(s.remove(key_of(c))).contains(p)
            == set_by_pos(s).remove(c).contains(p) by {
            lemma_key_injective(p, c);
        }
        assert(set_by_pos(s.remove(key_of(c))) =~= set_by_pos(s).remove(c));
    }

    /// True when `coord` is waiting.
    fn contains(&self, coord: IVec3) -> (r: bool)
        requires
            self.wf(),
        ensures
            r == self@.contains(coord),
    {
        proof {
            lemma_key_roundtrip(coord);
        }
        let r = self.in_queue.contains(&key(coord));
        assert(set_by_pos(self.in_queue@).contains(coord) == r);
        r
    }

    /// Appends `coord` unless it is waiting already.
    pub fn push_back(&mut self, coord: IVec3)
        requires
            old(self).wf(),
        ensures
            final(self).wf(),
            final(self)@ == push_back_spec(old(self)@, coord),
    {
        if !self.contains(coord) {
            proof {
                lemma_key_roundtrip(coord);
                Self::lemma_insert_view(self.in_queue@, coord);
            }
            self.in_queue.insert(key(coord));
            self.queue.push_back(coord);
            assert(self.queue@[self.queue@.len() - 1] == coord);
            assert forall|p: IVec3| #[trigger] set_by_pos(self.in_queue@).contains(p) <==> self.queue@.contains(p) by {
                if old(self).queue@.contains(p) {
                    let i = choose|i: int| 0 <= i < old(self).queue@.len() && old(self).queue@[i] == p;
                    assert(self.queue@[i] == p);
                }
                if self.queue@.contains(p) && p != coord {
                    let i = choose|i: int| 0 <= i < self.queue@.len() && self.queue@[i] == p;
                    assert(old(self).queue@[i] == p);
                }
            }
        }
    }

    /// Puts `coord` first unless it is waiting already.
    pub fn push_front(&mut self, coord: IVec3)
        requires
            old(self).wf(),
        ensures
            final(self).wf(),
            final(self)@ == push_front_spec(old(self)@, coord),
    {
        if !self.contains(coord) {
            proof {
                lemma_key_roundtrip(coord);
                Self::lemma_insert_view(self.in_queue@, coord);
            }
            self.in_queue.insert(key(coord));
            self.queue.push_front(coord);
            proof {
                Self::lemma_front(old(self).queue@, coord);
            }
        }
    }

    proof fn lemma_front(q: Seq<IVec3>, c: IVec3)
        requires
            q.no_duplicates(),
            !q.contains(c),
        ensures
            (seq![c] + q).no_duplicates(),
            forall|p: IVec3| #[trigger] (seq![c] + q).contains(p) <==> (q.contains(p) || p == c),
    {
        let q2 = seq![c] + q;
        assert(q2[0] == c);
        assert forall|p: IVec3| #[trigger] q2.contains(p) <==> (q.contains(p) || p == c) by {
            if q.contains(p) {
                let i = choose|i: int| 0 <= i < q.len() && q[i] == p;
                assert(q2[i + 1] == p);
            }
            if q2.contains(p) && p != c {
                let i = choose|i: int| 0 <= i < q2.len() && q2[i] == p;
                assert(q[i - 1] == p);
            }
        }
        assert forall|a: int, b: int| 0 <= a < q2.len() && 0 <= b < q2.len() && a != b implies q2[a] != q2[b] by {
            if a == 0 {
                assert(q2[b] == q[b - 1]);
            } else if b == 0 {
                assert(q2[a] == q[a - 1]);
            } else {
                assert(q2[a] == q[a - 1] && q2[b] == q[b - 1]);
            }
        }
    }

    /// Index of `coord` in the queue, which holds it.
    fn position(&self, coord: IVec3) -> (r: usize)
        requires
            self@.contains(coord),
        ensures
            r < self@.len(),
            self@[r as int] == coord,
    {
        let mut i: usize = 0;
        while i < self.queue.len()
            invariant
                i <= self@.len(),
                self@.contains(coord),
                forall|j: int| 0 <= j < i ==> self@[j] != coord,
            decreases self@.len() - i,
        {
            if self.queue[i] == coord {
                return i;
            }
            i = i + 1;
        }
        proof {
            let j = choose|j: int| 0 <= j < self@.len() && self@[j] == coord;
            assert(self@[j] != coord);
        }
        0
    }

    /// Puts `coord` first and takes it out of its old place, if it was waiting,
    /// so that it is meshed next.
    pub fn reprioritize(&mut self, coord: IVec3)
        requires
            old(self).wf(),
        ensures
            final(self).wf(),
            final(self)@ == reprioritize_spec(old(self)@, coord),
    {
        proof {
            lemma_key_roundtrip(coord);
        }
        if self.contains(coord) {
            let i = self.position(coord);
            proof {
                lemma_without_at(self.queue@, coord, i as int);
                Self::lemma_remove_view(self.in_queue@, coord);
            }
            let ghost q0 = self.queue@;
            self.queue.remove(i);
            self.in_queue.remove(&key(coord));
            assert forall|p: IVec3| #[trigger] set_by_pos(self.in_queue@).contains(p) <==> self.queue@.contains(p) by {
                if q0.contains(p) && p != coord {
                    let j = choose|j: int| 0 <= j < q0.len() && q0[j] == p;
                    assert(j != i);
                    if j < i {
                        assert(self.queue@[j] == p);
                    } else {
                        assert(self.queue@[j - 1] == p);
                    }
                }
                if self.queue@.contains(p) {
                    let j = choose|j: int| 0 <= j < self.queue@.len() && self.queue@[j] == p;
                    if j < i {
                        assert(q0[j] == p);
                        assert(i != j);
                    } else {
                        assert(q0[j + 1] == p);
                    }
                }
            }
            assert(self.queue@.no_duplicates()) by {
                let q1 = self.queue@;
                assert forall|a: int, b: int| 0 <= a < q1.len() && 0 <= b < q1.len() && a != b implies q1[a] != q1[b] by {
                    let a0 = if a < i { a } else { a + 1 };
                    let b0 = if b < i { b } else { b + 1 };
                    assert(q1[a] == q0[a0] && q1[b] == q0[b0]);
                }
            }
        } else {
            proof {
                lemma_without_absent(self.queue@, coord);
            }
        }
        let ghost q1 = self.queue@;
        proof {
            Self::lemma_insert_view(self.in_queue@, coord);
        }
        self.in_queue.insert(key(coord));
        self.queue.push_front(coord);
        proof {
            Self::lemma_front(q1, coord);
        }
    }

    /// Takes the first waiting coordinate off the queue.
    pub fn pop_front(&mut self) -> (r: Option<IVec3>)
        requires
            old(self).wf(),
        ensures
            final(self).wf(),
            (final(self)@, r) == pop_spec(old(self)@),
    {
        match self.queue.pop_front() {
            None => None,
            Some(coord) => {
                let ghost q0 = old(self).queue@;
                proof {
                    lemma_key_roundtrip(coord);
                    Self::lemma_remove_view(self.in_queue@, coord);
                    assert(q0[0] == coord);
                    assert(self.queue@ =~= q0.drop_first());
                }
                self.in_queue.remove(&key(coord));
                assert forall|p: IVec3| #[trigger] set_by_pos(self.in_queue@).contains(p) <==> self.queue@.contains(p) by {
                    if q0.contains(p) && p != coord {
                        let j = choose|j: int| 0 <= j < q0.len() && q0[j] == p;
                        assert(self.queue@[j - 1] == p);
                    }
                    if self.queue@.contains(p) {
                        let j = choose|j: int| 0 <= j < self.queue@.len() && self.queue@[j] == p;
                        assert(q0[j + 1] == p);
                    }
                }
                Some(coord)
            },
        }
    }

    /// True when no coordinate is waiting.
    pub fn is_empty(&self) -> (r: bool)
        ensures
            r == (self@.len() == 0),
    {
        self.queue.len() == 0
    }
}

/// The chunks to mesh this frame: pops until `MESH_BUDGET` loaded chunks are
/// found or the queue is empty; popped chunks that are not loaded are dropped.
pub fn take_mesh_batch(queue: &mut MeshingQueue, store: &ChunkDataStore) -> (r: Vec<IVec3>)
    requires
        old(queue).wf(),
    ensures
        final(queue).wf(),
        (r@, final(queue)@) == mesh_batch(old(queue)@, store@.dom(), MESH_BUDGET as nat),
{
    let mut r: Vec<IVec3> = Vec::new();
    while r.len() < MESH_BUDGET && !queue.is_empty()
        invariant
            queue.wf(),
            r@.len() <= MESH_BUDGET,
            ({
                let (b, q2) = mesh_batch(queue@, store@.dom(), (MESH_BUDGET - r@.len()) as nat);
                (r@ + b, q2) == mesh_batch(old(queue)@, store@.dom(), MESH_BUDGET as nat)
            }),
        decreases queue@.len(),
    {
        let ghost n = (MESH_BUDGET - r@.len()) as nat;
        let coord = queue.pop_front().unwrap();
        if store.contains_key(coord) {
            let ghost rest = mesh_batch(queue@, store@.dom(), (n - 1) as nat);
            r.push(coord);
            assert(r@ + rest.0 =~= r@.drop_last() + (seq![coord] + rest.0));
        }
    }
    proof {
        let (b, q2) = mesh_batch(queue@, store@.dom(), (MESH_BUDGET - r@.len()) as nat);
        assert(b =~= Seq::<IVec3>::empty());
        assert(r@ + b =~= r@);
    }
    r
}

/// After `reprioritize(c)`, the next `pop_front` hands out `c`, and the
/// coordinates after it come in their old order, without `c`.
pub proof fn lemma_reprioritize_then_pop(q: Seq<IVec3>, c: IVec3)
    ensures
        pop_spec(reprioritize_spec(q, c)) == (without(q, c), Some(c)),
{
    assert((seq![c] + without(q, c)).drop_first() =~= without(q, c));
}

/// After `reprioritize(c)` on a queue where `c` waits at `i`, the later pops
/// hand out `c` and then the old order with index `i` left out: the old
/// entry of `c` is never handed out a second time.
pub proof fn lemma_reprioritize_moves(q: Seq<IVec3>, c: IVec3, i: int)
    requires
        q.no_duplicates(),
        0 <= i < q.len(),
        q[i] == c,
    ensures
        reprioritize_spec(q, c) == seq![c] + q.remove(i),
        reprioritize_spec(q, c).len() == q.len(),
{
    lemma_without_at(q, c, i);
}

/// The coordinates handed out by `n` pops in a row, and the queue left after them.
pub open spec fn pops(q: Seq<IVec3>, n: nat) -> (Seq<IVec3>, Seq<IVec3>)
    decreases n,
{
    if n == 0 {
        (Seq::empty(), q)
    } else {
        let (out, rest) = pops(q, (n - 1) as nat);
        match pop_spec(rest) {
            (rest2, Some(c)) => (out.push(c), rest2),
            (rest2, None) => (out, rest2),
        }
    }
}

/// The view of the queue is the order of later pops: `n` pops in a row hand
/// out the first `n` waiting coordinates, front first, and leave the rest.
pub proof fn lemma_pops_in_order(q: Seq<IVec3>, n: nat)
    requires
        n <= q.len(),
    ensures
        pops(q, n) == (q.take(n as int), q.skip(n as int)),
    decreases n,
{
    if n == 0 {
        assert(q.take(0) =~= Seq::<IVec3>::empty());
        assert(q.skip(0) =~= q);
    } else {
        lemma_pops_in_order(q, (n - 1) as nat);
        assert(q.take(n as int) =~= q.take(n - 1).push(q[n - 1]));
        assert(q.skip(n - 1).drop_first() =~= q.skip(n as int));
    }
}

/// `push_back` of a coordinate that is not waiting puts it last, behind every
/// waiting coordinate, whatever `reprioritize` did before.
pub proof fn lemma_push_back_last(q: Seq<IVec3>, c: IVec3)
    requires
        !q.contains(c),
    ensures
        push_back_spec(q, c) == q.push(c),
        push_back_spec(q, c).last() == c,
{
}

/// A frame's batch holds only loaded chunks that were waiting, each at most
/// once, and no more than the budget; the chunks of the batch no longer wait,
/// and the rest of the queue keeps its order.
pub proof fn lemma_mesh_batch(q: Seq<IVec3>, loaded: Set<IVec3>, budget: nat)
    requires
        q.no_duplicates(),
    ensures
        mesh_batch(q, loaded, budget).0.len() <= budget,
        mesh_batch(q, loaded, budget).0.no_duplicates(),
        mesh_batch(q, loaded, budget).1.no_duplicates(),
        forall|i: int| 0 <= i < mesh_batch(q, loaded, budget).0.len() ==> {
            let c = #[trigger] mesh_batch(q, loaded, budget).0[i];
            loaded.contains(c) && q.contains(c) && !mesh_batch(q, loaded, budget).1.contains(c)
        },
        mesh_batch(q, loaded, budget).1.len() <= q.len(),
        mesh_batch(q, loaded, budget).1 == q.skip(q.len() - mesh_batch(q, loaded, budget).1.len()),
    decreases q.len(),
{
    if budget == 0 || q.len() == 0 {
        assert(q.skip(0) =~= q);
    } else {
        let t = q.drop_first();
        assert(t.no_duplicates()) by {
            assert forall|a: int, b: int| 0 <= a < t.len() && 0 <= b < t.len() && a != b implies t[a] != t[b] by {
                assert(t[a] == q[a + 1] && t[b] == q[b + 1]);
            }
        }
        assert forall|p: IVec3| t.contains(p) implies q.contains(p) && p != q[0] by {
            let j = choose|j: int| 0 <= j < t.len() && t[j] == p;
            assert(q[j + 1] == p);
        }
        let nb: nat = if loaded.contains(q[0]) { (budget - 1) as nat } else { budget };
        lemma_mesh_batch(t, loaded, nb);
        let (b, q2) = mesh_batch(t, loaded, nb);
        assert(q2 =~= q.skip(q.len() - q2.len())) by {
            assert forall|j: int| 0 <= j < q2.len() implies q2[j] == q.skip(q.len() - q2.len())[j] by {
                assert(q2[j] == t.skip(t.len() - q2.len())[j]);
            }
        }
        assert forall|p: IVec3| q2.contains(p) implies t.contains(p) by {
            let j = choose|j: int| 0 <= j < q2.len() && q2[j] == p;
            assert(t[t.len() - q2.len() + j] == p);
        }
        if loaded.contains(q[0]) {
            let full = seq![q[0]] + b;
            assert forall|i: int| 0 <= i < full.len() implies {
                let d = #[trigger] full[i];
                loaded.contains(d) && q.contains(d) && !q2.contains(d)
            } by {
                if i > 0 {
                    assert(full[i] == b[i - 1]);
                    assert(t.contains(b[i - 1]));
                } else {
                    assert(q[0] == full[0]);
                }
            }
            assert forall|i: int, j: int| 0 <= i < j < full.len() implies full[i] != full[j] by {
                assert(full[j] == b[j - 1]);
                assert(t.contains(b[j - 1]));
                if i > 0 {
                    assert(full[i] == b[i - 1]);
                }
            }
        }
    }
}

} // verus!
