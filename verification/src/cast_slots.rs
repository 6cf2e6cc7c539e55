//! Body slots of the Cast World sample.
//!
//! The sample keeps up to `MAX_COUNT` bodies in a ring of slots. Each new
//! body takes the slot under the cursor (destroying the body that held it)
//! and the cursor moves on, wrapping. A slot's position decides the body's
//! type and whether casts ignore it (every slot `i` with `i & 7 == 7`).
use vstd::prelude::*;

use crate::kinds::BodyKind;

verus! {

/// Number of body slots.
pub const MAX_COUNT: usize = 64;

/// Slots `i` with `i & IGNORE_BASE == IGNORE_BASE` hold bodies that casts ignore.
pub const IGNORE_BASE: usize = 7;

/// Shape kinds the sample can create.
#[derive(Clone, Copy, PartialEq, Eq, Structural)]
pub enum CastShape {
    Capsule,
    Height,
    Hull,
    Mesh,
    Sphere,
}

/// The shape kind of a UI shape code, if it names one (codes follow the
/// engine's shape-type numbering).
pub open spec fn shape_of_code(code: i32) -> Option<CastShape> {
    if code == 0 {
        Some(CastShape::Capsule)
    } else if code == 2 {
        Some(CastShape::Height)
    } else if code == 3 {
        Some(CastShape::Hull)
    } else if code == 4 {
        Some(CastShape::Mesh)
    } else if code == 5 {
        Some(CastShape::Sphere)
    } else {
        None
    }
}

/// Map a UI shape code to a shape kind; other codes create nothing.
pub fn shape_from_code(code: i32) -> (r: Option<CastShape>)
    ensures
        r == shape_of_code(code),
{
    match code {
        0 => Some(CastShape::Capsule),
        2 => Some(CastShape::Height),
        3 => Some(CastShape::Hull),
        4 => Some(CastShape::Mesh),
        5 => Some(CastShape::Sphere),
        _ => None,
    }
}

/// The engine's shape-type number of a shape kind, which is the UI code that
/// creates it.
pub open spec fn shape_code(shape: CastShape) -> i32 {
    match shape {
        CastShape::Capsule => 0,
        CastShape::Height => 2,
        CastShape::Hull => 3,
        CastShape::Mesh => 4,
        CastShape::Sphere => 5,
    }
}

/// A UI code names exactly the shape kind whose engine shape-type number it
/// is, so every shape kind has one code and no two kinds share one.
pub proof fn lemma_shape_code_round_trip(code: i32, shape: CastShape)
    ensures
        shape_of_code(code) == Some(shape) <==> shape_code(shape) == code,
{
}

/// The body type slot `idx` gives a body of shape `shape`: height fields are
/// static; otherwise slots divisible by 3 are kinematic, other even slots
/// dynamic, odd slots static.
pub open spec fn slot_type_spec(idx: int, shape: CastShape) -> BodyKind {
    if shape == CastShape::Height {
        BodyKind::Static
    } else if idx % 3 == 0 {
        BodyKind::Kinematic
    } else if idx % 2 == 0 {
        BodyKind::Dynamic
    } else {
        BodyKind::Static
    }
}

/// The body type of a new body in slot `idx`.
pub fn slot_body_type(idx: usize, shape: CastShape) -> (t: BodyKind)
    ensures
        t == slot_type_spec(idx as int, shape),
{
    let mut t = if idx % 3 == 0 {
        BodyKind::Kinematic
    } else if idx % 2 == 0 {
        BodyKind::Dynamic
    } else {
        BodyKind::Static
    };
    if shape == CastShape::Height {
        t = BodyKind::Static;
    }
    t
}

/// Whether casts ignore the body in slot `idx`.
pub open spec fn slot_ignored_spec(idx: int) -> bool {
    idx % 8 == 7
}

/// Whether casts ignore the body in slot `idx` (`idx & 7 == 7`).
pub fn slot_is_ignored(idx: usize) -> (r: bool)
    ensures
        r == slot_ignored_spec(idx as int),
{
    assert((idx & 7usize) == 7usize <==> idx % 8usize == 7usize) by (bit_vector);
    (idx & IGNORE_BASE) == IGNORE_BASE
}

/// The user material id of a shape kind.
pub open spec fn material_spec(shape: CastShape) -> u64 {
    match shape {
        CastShape::Sphere => 11,
        CastShape::Capsule => 22,
        CastShape::Hull => 33,
        CastShape::Mesh => 44,
        CastShape::Height => 55,
    }
}

/// The user material id of a shape kind.
pub fn shape_material_id(shape: CastShape) -> (m: u64)
    ensures
        m == material_spec(shape),
{
    match shape {
        CastShape::Sphere => 11,
        CastShape::Capsule => 22,
        CastShape::Hull => 33,
        CastShape::Mesh => 44,
        CastShape::Height => 55,
    }
}

/// Number of occupied slots in `s`.
pub open spec fn occupied<Id>(s: Seq<Option<Id>>) -> nat
    decreases s.len(),
{
    if s.len() == 0 {
        0
    } else {
        occupied(s.drop_last()) + if s.last() is Some {
            1nat
        } else {
            0nat
        }
    }
}

proof fn lemma_occupied_bound<Id>(s: Seq<Option<Id>>)
    ensures
        occupied(s) <= s.len(),
    decreases s.len(),
{
    if s.len() > 0 {
        lemma_occupied_bound(s.drop_last());
    }
}

proof fn lemma_occupied_update<Id>(s: Seq<Option<Id>>, i: int, v: Option<Id>)
    requires
        0 <= i < s.len(),
    ensures
        occupied(s.update(i, v)) + (if s[i] is Some {
            1nat
        } else {
            0nat
        }) == occupied(s) + (if v is Some {
            1nat
        } else {
            0nat
        }),
    decreases s.len(),
{
    let t = s.update(i, v);
    if i == s.len() - 1 {
        assert(t.drop_last() =~= s.drop_last());
    } else {
        lemma_occupied_update(s.drop_last(), i, v);
        assert(t.drop_last() =~= s.drop_last().update(i, v));
    }
}

proof fn lemma_occupied_push<Id>(s: Seq<Option<Id>>, v: Option<Id>)
    ensures
        occupied(s.push(v)) == occupied(s) + if v is Some {
            1nat
        } else {
            0nat
        },
{
    assert(s.push(v).drop_last() =~= s);
}

/// The ring of body slots with its cursor. `Id` is the world's body handle;
/// each occupied slot also records its body's index.
pub struct CastSlots<Id> {
    bodies: Vec<Option<Id>>,
    keys: Vec<i32>,
    cursor: usize,
}

impl<Id: Copy> CastSlots<Id> {
    /// Contents of each slot.
    pub closed spec fn slots(&self) -> Seq<Option<Id>> {
        self.bodies@
    }

    /// Body index recorded for each slot.
    pub closed spec fn keys(&self) -> Seq<i32> {
        self.keys@
    }

    /// The slot the next body takes.
    pub closed spec fn cursor(&self) -> int {
        self.cursor as int
    }

    /// There are `MAX_COUNT` slots and the cursor names one of them.
    pub open spec fn wf(&self) -> bool {
        &&& self.slots().len() == MAX_COUNT
        &&& self.keys().len() == MAX_COUNT
        &&& 0 <= self.cursor() < MAX_COUNT
    }

    /// All slots empty, cursor at slot 0.
    pub fn new() -> (r: Self)
        ensures
            r.wf(),
            r.cursor() == 0,
            forall|i: int| 0 <= i < MAX_COUNT ==> #[trigger] r.slots()[i] is None,
            occupied(r.slots()) == 0,
    {
        let mut bodies: Vec<Option<Id>> = Vec::new();
        let mut keys: Vec<i32> = Vec::new();
        let mut i: usize = 0;
        while i < MAX_COUNT
            invariant
                i <= MAX_COUNT,
                bodies@.len() == i,
                keys@.len() == i,
                forall|j: int| 0 <= j < i ==> #[trigger] bodies@[j] is None,
                occupied(bodies@) == 0,
            decreases MAX_COUNT - i,
        {
            proof {
                lemma_occupied_push(bodies@, None);
            }
            bodies.push(None);
            keys.push(-1);
            i += 1;
        }
        CastSlots { bodies, keys, cursor: 0 }
    }

    /// Number of occupied slots.
    pub fn occupied_count(&self) -> (n: u32)
        requires
            self.wf(),
        ensures
            n == occupied(self.slots()),
    {
        let mut n: u32 = 0;
        let mut i: usize = 0;
        while i < MAX_COUNT
            invariant
                self.wf(),
                i <= MAX_COUNT,
                n == occupied(self.slots().subrange(0, i as int)),
            decreases MAX_COUNT - i,
        {
            let ghost pre = self.slots().subrange(0, i as int);
            let ghost next = self.slots().subrange(0, i + 1);
            proof {
                assert(next.drop_last() =~= pre);
                lemma_occupied_bound(pre);
            }
            if self.bodies[i].is_some() {
                n += 1;
            }
            i += 1;
        }
        assert(self.slots().subrange(0, MAX_COUNT as int) =~= self.slots());
        n
    }

    /// Take the slot under the cursor for a new body: the slot is emptied and
    /// its previous body (to be destroyed) returned with the slot number.
    pub fn claim_slot(&mut self) -> (r: (usize, Option<Id>))
        requires
            old(self).wf(),
        ensures
            final(self).wf(),
            r.0 == old(self).cursor(),
            r.1 == old(self).slots()[r.0 as int],
            final(self).slots() == old(self).slots().update(r.0 as int, None),
            final(self).keys() == old(self).keys(),
            final(self).cursor() == old(self).cursor(),
    {
        let idx = self.cursor;
        let prev = self.bodies[idx];
        self.bodies.set(idx, None);
        (idx, prev)
    }

    /// Put the new body `id` (of body index `key`) in the slot under the
    /// cursor and move the cursor on, wrapping after the last slot.
    pub fn occupy(&mut self, id: Id, key: i32)
        requires
            old(self).wf(),
        ensures
            final(self).wf(),
            final(self).slots() == old(self).slots().update(old(self).cursor(), Some(id)),
            final(self).keys() == old(self).keys().update(old(self).cursor(), key),
            final(self).cursor() == (old(self).cursor() + 1) % (MAX_COUNT as int),
    {
        let idx = self.cursor;
        self.bodies.set(idx, Some(id));
        self.keys.set(idx, key);
        self.cursor = (idx + 1) % MAX_COUNT;
    }

    /// Empty the first occupied slot and return its body (to be destroyed).
    pub fn destroy_one(&mut self) -> (r: Option<Id>)
        requires
            old(self).wf(),
        ensures
            final(self).wf(),
            final(self).keys() == old(self).keys(),
            final(self).cursor() == old(self).cursor(),
            r is None <==> forall|i: int| 0 <= i < MAX_COUNT ==> #[trigger] old(self).slots()[i] is None,
            r is None ==> final(self).slots() == old(self).slots(),
            r is Some ==> exists|i: int|
                0 <= i < MAX_COUNT && old(self).slots()[i] == r && (forall|j: int|
                    0 <= j < i ==> #[trigger] old(self).slots()[j] is None) && final(self).slots()
                    == old(self).slots().update(i, None),
    {
        let mut i: usize = 0;
        while i < MAX_COUNT
            invariant
                self.wf(),
                self.slots() == old(self).slots(),
                self.keys() == old(self).keys(),
                self.cursor() == old(self).cursor(),
                i <= MAX_COUNT,
                forall|j: int| 0 <= j < i ==> #[trigger] old(self).slots()[j] is None,
            decreases MAX_COUNT - i,
        {
            if self.bodies[i].is_some() {
                let prev = self.bodies[i];
                self.bodies.set(i, None);
                return prev;
            }
            i += 1;
        }
        None
    }

    /// Empty the first occupied slot holding body index `key`, if any (the
    /// body was deleted by other means).
    pub fn forget_body_index(&mut self, key: i32)
        requires
            old(self).wf(),
        ensures
            final(self).wf(),
            final(self).keys() == old(self).keys(),
            final(self).cursor() == old(self).cursor(),
            (forall|i: int|
                0 <= i < MAX_COUNT ==> !(#[trigger] old(self).slots()[i] is Some && old(self).keys()[i]
                    == key)) ==> final(self).slots() == old(self).slots(),
            (exists|i: int|
                0 <= i < MAX_COUNT && #[trigger] old(self).slots()[i] is Some && old(self).keys()[i]
                    == key) ==> exists|i: int|
                0 <= i < MAX_COUNT && old(self).slots()[i] is Some && old(self).keys()[i] == key
                    && (forall|j: int|
                    0 <= j < i ==> !(#[trigger] old(self).slots()[j] is Some && old(self).keys()[j]
                        == key)) && final(self).slots() == old(self).slots().update(i, None),
    {
        let mut i: usize = 0;
        while i < MAX_COUNT
            invariant
                self.wf(),
                self.slots() == old(self).slots(),
                self.keys() == old(self).keys(),
                self.cursor() == old(self).cursor(),
                i <= MAX_COUNT,
                forall|j: int|
                    0 <= j < i ==> !(#[trigger] old(self).slots()[j] is Some && old(self).keys()[j]
                        == key),
            decreases MAX_COUNT - i,
        {
            if self.bodies[i].is_some() && self.keys[i] == key {
                self.bodies.set(i, None);
                return ;
            }
            i += 1;
        }
    }

    /// The occupied slots whose bodies casts ignore, in increasing order.
    pub fn ignored_occupied_slots(&self) -> (r: Vec<usize>)
        requires
            self.wf(),
        ensures
            forall|a: int, b: int| 0 <= a < b < r@.len() ==> r@[a] < r@[b],
            forall|i: int|
                0 <= i < MAX_COUNT ==> (r@.contains(i as usize) <==> (slot_ignored_spec(i)
                    && #[trigger] self.slots()[i] is Some)),
    {
        let mut r: Vec<usize> = Vec::new();
        let mut i: usize = 0;
        while i < MAX_COUNT
            invariant
                self.wf(),
                i <= MAX_COUNT,
                forall|a: int, b: int| 0 <= a < b < r@.len() ==> r@[a] < r@[b],
                forall|a: int| 0 <= a < r@.len() ==> #[trigger] r@[a] < i,
                forall|k: int|
                    0 <= k < i ==> (r@.contains(k as usize) <==> (slot_ignored_spec(k)
                        && #[trigger] self.slots()[k] is Some)),
            decreases MAX_COUNT - i,
        {
            let ghost old_r = r@;
            if slot_is_ignored(i) && self.bodies[i].is_some() {
                r.push(i);
                proof {
                    assert(r@[old_r.len() as int] == i);
                }
            }
            proof {
                assert forall|k: int|
                    0 <= k < i + 1 implies (r@.contains(k as usize) <==> (slot_ignored_spec(k)
                    && #[trigger] self.slots()[k] is Some)) by {
                    if r@.contains(k as usize) && k < i {
                        let a = choose|a: int| 0 <= a < r@.len() && r@[a] == k as usize;
                        if a < old_r.len() {
                            assert(old_r.contains(k as usize));
                        }
                    }
                    if k < i && old_r.contains(k as usize) {
                        let a = choose|a: int| 0 <= a < old_r.len() && old_r[a] == k as usize;
                        assert(r@[a] == k as usize);
                    }
                    if k == i && r@.contains(k as usize) {
                        let a = choose|a: int| 0 <= a < r@.len() && r@[a] == k as usize;
                        if a < old_r.len() {
                            assert(old_r[a] < i);
                        }
                    }
                }
            }
            i += 1;
        }
        r
    }
}

/// The number of bodies one "create" request makes: at least one.
pub fn create_count(count: i32) -> (n: i32)
    ensures
        n == if count < 1 {
            1
        } else {
            count
        },
{
    if count < 1 {
        1
    } else {
        count
    }
}

/// Clamp a cast-type or query-mode selector to `0..=3`.
pub fn clamp_selector(v: i32) -> (r: i32)
    ensures
        r == if v < 0 {
            0
        } else if v > 3 {
            3
        } else {
            v
        },
{
    if v < 0 {
        0
    } else if v > 3 {
        3
    } else {
        v
    }
}

/// Creating a body in the ring keeps the slot count: the occupied count
/// grows by one when the claimed slot was empty and stays when a body was
/// evicted, never exceeding `MAX_COUNT`.
pub proof fn lemma_create_occupancy<Id>(s: Seq<Option<Id>>, cursor: int, id: Id)
    requires
        s.len() == MAX_COUNT,
        0 <= cursor < MAX_COUNT,
    ensures
        occupied(s.update(cursor, None).update(cursor, Some(id))) == if s[cursor] is Some {
            occupied(s)
        } else {
            occupied(s) + 1
        },
        occupied(s.update(cursor, None).update(cursor, Some(id))) <= MAX_COUNT,
{
    let t = s.update(cursor, None);
    lemma_occupied_update(s, cursor, None);
    lemma_occupied_update(t, cursor, Some(id));
    lemma_occupied_bound(t.update(cursor, Some(id)));
}

/// Slots and cursor of a fresh ring after creating the bodies `ids` in
/// order, each by `claim_slot` then `occupy`.
pub open spec fn ring_after_creates<Id>(ids: Seq<Id>) -> (Seq<Option<Id>>, int)
    decreases ids.len(),
{
    if ids.len() == 0 {
        (Seq::new(MAX_COUNT as nat, |i: int| None), 0)
    } else {
        let (s, c) = ring_after_creates(ids.drop_last());
        (s.update(c, None).update(c, Some(ids.last())), (c + 1) % (MAX_COUNT as int))
    }
}

/// From a fresh ring, `n` creates (and nothing else) leave `min(n, MAX_COUNT)`
/// bodies: the first `min(n, MAX_COUNT)` slots are occupied, the rest empty,
/// and the cursor sits at `n mod MAX_COUNT`. Once the ring is full each new
/// body evicts the oldest, so the count never exceeds `MAX_COUNT`.
pub proof fn lemma_creates_fill_ring<Id>(ids: Seq<Id>)
    ensures
        ring_after_creates(ids).0.len() == MAX_COUNT,
        ring_after_creates(ids).1 == (ids.len() as int) % (MAX_COUNT as int),
        occupied(ring_after_creates(ids).0) == if ids.len() < MAX_COUNT {
            ids.len()
        } else {
            MAX_COUNT as nat
        },
        forall|i: int|
            0 <= i < MAX_COUNT ==> (#[trigger] ring_after_creates(ids).0[i] is Some <==> i
                < ids.len()),
    decreases ids.len(),
{
    if ids.len() == 0 {
        let s = Seq::<Option<Id>>::new(MAX_COUNT as nat, |i: int| None);
        assert(ring_after_creates(ids).0 == s);
        lemma_occupied_none(s);
    } else {
        let prev = ids.drop_last();
        lemma_creates_fill_ring(prev);
        let (s, c) = ring_after_creates(prev);
        let n = prev.len();
        lemma_create_occupancy(s, c, ids.last());
        if n < MAX_COUNT {
            assert(c == n);
            assert(!(s[c] is Some));
        } else {
            assert(s[c] is Some);
        }
        assert(((n + 1) as int) % (MAX_COUNT as int) == (c + 1) % (MAX_COUNT as int));
    }
}

proof fn lemma_occupied_none<Id>(s: Seq<Option<Id>>)
    requires
        forall|i: int| 0 <= i < s.len() ==> #[trigger] s[i] is None,
    ensures
        occupied(s) == 0,
    decreases s.len(),
{
    if s.len() > 0 {
        lemma_occupied_none(s.drop_last());
    }
}

/// Destroying a body empties exactly one occupied slot.
pub proof fn lemma_destroy_occupancy<Id>(s: Seq<Option<Id>>, i: int)
    requires
        0 <= i < s.len(),
        s[i] is Some,
    ensures
        occupied(s.update(i, None)) + 1 == occupied(s),
{
    lemma_occupied_update(s, i, None);
}

} // verus!
