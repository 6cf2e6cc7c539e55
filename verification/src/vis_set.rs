//! Render-slot bookkeeping of the sensor scenes.
//!
//! `VisSet` holds the render bodies in slots, with a color and a sensor flag
//! per slot, and an index from a body's index to its slot, so lookups and
//! removals take constant time. Removal swaps the last slot into the freed
//! one and re-points the moved body's index entry. A topology version bumps
//! whenever a sensor slot is added, removed or relocated, so a caller can
//! cache the list of sensor slots.
use vstd::prelude::*;

verus! {

broadcast use vstd::std_specs::hash::group_hash_axioms;

/// A render body with the color it is drawn in.
pub struct ColoredBody<B> {
    pub body: B,
    pub color: u32,
}

/// Render bodies in slots with per-slot color and sensor flag, indexed by
/// body index. Each slot's body carries the slot's color.
pub struct VisSet<B> {
    bodies: Vec<ColoredBody<B>>,
    keys: Vec<i32>,
    colors: Vec<u32>,
    is_sensor: Vec<bool>,
    index: std::collections::HashMap<i32, usize>,
    sensor_topo: u32,
}

/// `v + 1 (mod 2^32)`.
pub open spec fn bump(v: u32) -> u32 {
    if v == u32::MAX {
        0
    } else {
        (v + 1) as u32
    }
}

/// `v` bumped once when `b` holds.
pub open spec fn bump_if(v: u32, b: bool) -> u32 {
    if b {
        bump(v)
    } else {
        v
    }
}

/// `s` with slot `i` replaced by its last element and the last slot dropped.
pub open spec fn swap_removed<T>(s: Seq<T>, i: int) -> Seq<T> {
    s.update(i, s.last()).drop_last()
}

impl<B> VisSet<B> {
    /// Body index of each slot.
    pub closed spec fn keys(&self) -> Seq<i32> {
        self.keys@
    }

    /// Color of each slot.
    pub closed spec fn colors(&self) -> Seq<u32> {
        self.colors@
    }

    /// Sensor flag of each slot.
    pub closed spec fn sensors(&self) -> Seq<bool> {
        self.is_sensor@
    }

    /// Render body of each slot, with its color.
    pub closed spec fn bodies(&self) -> Seq<ColoredBody<B>> {
        self.bodies@
    }

    /// The index from body index to slot.
    pub closed spec fn index(&self) -> Map<i32, usize> {
        self.index@
    }

    /// The sensor topology version.
    pub closed spec fn topology(&self) -> u32 {
        self.sensor_topo
    }

    /// Number of slots.
    pub open spec fn len(&self) -> nat {
        self.keys().len()
    }

    /// The slots agree in length, each slot's body carries the slot's color,
    /// and every index entry names a slot holding that body index.
    pub open spec fn wf(&self) -> bool {
        &&& self.colors().len() == self.len()
        &&& self.sensors().len() == self.len()
        &&& self.bodies().len() == self.len()
        &&& forall|s: int| 0 <= s < self.len() ==> #[trigger] self.bodies()[s].color == self.colors()[s]
        &&& forall|k: i32| #[trigger]
            self.index().contains_key(k) ==> self.index()[k] < self.len() && self.keys()[self.index()[k] as int]
                == k
    }

    /// Every slot is indexed under its own body index (so no body index
    /// occupies two slots).
    pub open spec fn fully_indexed(&self) -> bool {
        forall|s: int|
            0 <= s < self.len() ==> #[trigger] self.index().contains_key(self.keys()[s])
                && self.index()[self.keys()[s]] == s
    }

    /// An empty set.
    pub fn new() -> (r: Self)
        ensures
            r.wf(),
            r.fully_indexed(),
            r.len() == 0,
            r.index().is_empty(),
            r.topology() == 0,
    {
        VisSet {
            bodies: Vec::new(),
            keys: Vec::new(),
            colors: Vec::new(),
            is_sensor: Vec::new(),
            index: std::collections::HashMap::new(),
            sensor_topo: 0,
        }
    }

    /// Number of slots.
    pub fn slot_count(&self) -> (n: usize)
        requires
            self.wf(),
        ensures
            n == self.len(),
    {
        self.keys.len()
    }

    /// The sensor topology version.
    pub fn topology_version(&self) -> (v: u32)
        ensures
            v == self.topology(),
    {
        self.sensor_topo
    }

    /// The color of slot `slot`.
    pub fn slot_color(&self, slot: usize) -> (c: u32)
        requires
            self.wf(),
            slot < self.len(),
        ensures
            c == self.colors()[slot as int],
    {
        self.colors[slot]
    }

    /// The body in slot `slot`, with its color.
    pub fn slot_body(&self, slot: usize) -> (b: &ColoredBody<B>)
        requires
            self.wf(),
            slot < self.len(),
        ensures
            *b == self.bodies()[slot as int],
    {
        &self.bodies[slot]
    }

    /// Append `body` (of body index `body_index`) in a new last slot with
    /// `color`, which the body takes on, and sensor flag `sensor`, and index
    /// it there.
    pub fn push(&mut self, body: B, body_index: i32, color: u32, sensor: bool)
        requires
            old(self).wf(),
        ensures
            final(self).wf(),
            final(self).keys() == old(self).keys().push(body_index),
            final(self).colors() == old(self).colors().push(color),
            final(self).sensors() == old(self).sensors().push(sensor),
            final(self).bodies() == old(self).bodies().push(ColoredBody { body, color }),
            final(self).index() == old(self).index().insert(body_index, old(self).len() as usize),
            final(self).topology() == bump_if(old(self).topology(), sensor),
            old(self).fully_indexed() && !old(self).index().contains_key(body_index)
                ==> final(self).fully_indexed(),
    {
        let slot = self.keys.len();
        self.index.insert(body_index, slot);
        self.bodies.push(ColoredBody { body, color });
        self.keys.push(body_index);
        self.colors.push(color);
        self.is_sensor.push(sensor);
        if sensor {
            self.sensor_topo = self.sensor_topo.wrapping_add(1);
        }
        proof {
            assert forall|k: i32| #[trigger] self.index().contains_key(k) implies self.index()[k]
                < self.len() && self.keys()[self.index()[k] as int] == k by {
                if k != body_index {
                    assert(old(self).index().contains_key(k));
                }
            }
            if old(self).fully_indexed() && !old(self).index().contains_key(body_index) {
                assert forall|s: int| 0 <= s < self.len() implies #[trigger] self.index().contains_key(
                    self.keys()[s],
                ) && self.index()[self.keys()[s]] == s by {
                    if s < old(self).len() {
                        assert(old(self).index().contains_key(old(self).keys()[s]));
                        assert(self.keys()[s] == old(self).keys()[s]);
                    }
                }
                lemma_fully_indexed_intro(*self);
                assert(self.fully_indexed());
            }
        }
    }

    /// The slot of `body_index`, if it is indexed.
    pub fn find(&self, body_index: i32) -> (r: Option<usize>)
        requires
            self.wf(),
        ensures
            r == (if self.index().contains_key(body_index) {
                Some(self.index()[body_index])
            } else {
                None
            }),
    {
        match self.index.get(&body_index) {
            Some(s) => Some(*s),
            None => None,
        }
    }

    /// Set the color of slot `slot` and of the body in it.
    pub fn set_color(&mut self, slot: usize, color: u32)
        requires
            old(self).wf(),
            slot < old(self).len(),
        ensures
            final(self).wf(),
            final(self).colors() == old(self).colors().update(slot as int, color),
            final(self).keys() == old(self).keys(),
            final(self).sensors() == old(self).sensors(),
            final(self).bodies() == old(self).bodies().update(
                slot as int,
                ColoredBody { body: old(self).bodies()[slot as int].body, color },
            ),
            final(self).index() == old(self).index(),
            final(self).topology() == old(self).topology(),
    {
        self.colors.set(slot, color);
        self.bodies[slot].color = color;
        assert(self.colors().len() == self.len());
        assert(self.bodies()[slot as int].body == old(self).bodies()[slot as int].body);
        assert(self.bodies() =~= old(self).bodies().update(
            slot as int,
            ColoredBody { body: old(self).bodies()[slot as int].body, color },
        ));
        assert forall|k: i32| #[trigger] self.index().contains_key(k) implies self.index()[k]
            < self.len() && self.keys()[self.index()[k] as int] == k by {
            assert(old(self).index().contains_key(k));
        }
    }

    /// Remove the slot of `body_index` (if indexed) by moving the last slot
    /// into it; the moved body's index entry is re-pointed to its new slot.
    pub fn remove_body(&mut self, body_index: i32)
        requires
            old(self).wf(),
        ensures
            final(self).wf(),
            !old(self).index().contains_key(body_index) ==> final(self).keys() == old(self).keys()
                && final(self).colors() == old(self).colors() && final(self).sensors() == old(
                self,
            ).sensors() && final(self).bodies() == old(self).bodies() && final(self).index()
                == old(self).index() && final(self).topology() == old(self).topology(),
            old(self).index().contains_key(body_index) ==> {
                let slot = old(self).index()[body_index] as int;
                let last = old(self).len() - 1;
                &&& final(self).keys() == swap_removed(old(self).keys(), slot)
                &&& final(self).colors() == swap_removed(old(self).colors(), slot)
                &&& final(self).sensors() == swap_removed(old(self).sensors(), slot)
                &&& final(self).bodies() == swap_removed(old(self).bodies(), slot)
                &&& final(self).index() == if slot != last {
                    old(self).index().remove(body_index).insert(
                        old(self).keys()[last],
                        slot as usize,
                    )
                } else {
                    old(self).index().remove(body_index)
                }
                &&& final(self).topology() == bump_if(
                    bump_if(old(self).topology(), slot != last && old(self).sensors()[last]),
                    old(self).sensors()[slot],
                )
            },
            old(self).fully_indexed() ==> final(self).fully_indexed(),
            old(self).fully_indexed() ==> !final(self).index().contains_key(body_index),
    {
        let ghost old_index = self.index@;
        let slot = match self.index.remove(&body_index) {
            Some(s) => s,
            None => {
                assert(self.index@ =~= old_index);
                assert forall|k: i32| #[trigger] self.index().contains_key(k) implies self.index()[k]
                    < self.len() && self.keys()[self.index()[k] as int] == k by {
                    assert(old(self).index().contains_key(k));
                }
                return ;
            },
        };
        assert(old_index.contains_key(body_index) && old_index[body_index] == slot);
        assert(old(self).index().contains_key(body_index));
        assert(slot < self.keys@.len());
        let last = self.keys.len() - 1;
        let removed_sensor = self.is_sensor[slot];
        let moved_sensor = self.is_sensor[last];
        self.bodies.swap_remove(slot);
        self.keys.swap_remove(slot);
        self.colors.swap_remove(slot);
        self.is_sensor.swap_remove(slot);
        if slot != last {
            let moved_key = self.keys[slot];
            self.index.insert(moved_key, slot);
            if moved_sensor {
                self.sensor_topo = self.sensor_topo.wrapping_add(1);
            }
        }
        if removed_sensor {
            self.sensor_topo = self.sensor_topo.wrapping_add(1);
        }
        proof {
            assert forall|k: i32| #[trigger] self.index().contains_key(k) implies self.index()[k]
                < self.len() && self.keys()[self.index()[k] as int] == k by {
                if slot != last && k == old(self).keys()[last as int] {
                } else {
                    assert(old_index.contains_key(k) && k != body_index);
                    let s = old_index[k] as int;
                    if s == last {
                        assert(old(self).keys()[last as int] == k);
                    }
                }
            }
            if old(self).fully_indexed() {
                let ok = old(self).keys();
                assert(ok[slot as int] == body_index);
                assert(old(self).index().contains_key(ok[last as int]));
                if slot != last {
                    assert(ok[last as int] != body_index);
                }
                assert forall|s: int| 0 <= s < self.len() implies #[trigger] self.index().contains_key(
                    self.keys()[s],
                ) && self.index()[self.keys()[s]] == s by {
                    assert(old(self).index().contains_key(ok[s]));
                    if s != slot {
                        assert(self.keys()[s] == ok[s]);
                        assert(ok[s] != body_index);
                        if slot != last {
                            assert(ok[s] != ok[last as int]);
                        }
                    }
                }
                lemma_fully_indexed_intro(*self);
                assert(self.fully_indexed());
            }
        }
    }

    /// The slots holding sensors, in increasing order.
    pub fn sensor_slots(&self) -> (r: Vec<u32>)
        requires
            self.wf(),
            self.len() <= u32::MAX + 1,
        ensures
            forall|i: int| 0 <= i < r@.len() ==> #[trigger] r@[i] < self.len() && self.sensors()[r@[i] as int],
            forall|i: int, j: int| 0 <= i < j < r@.len() ==> r@[i] < r@[j],
            forall|s: int| 0 <= s < self.len() && #[trigger] self.sensors()[s] ==> r@.contains(s as u32),
    {
        let mut r: Vec<u32> = Vec::new();
        let n = self.is_sensor.len();
        let mut i: usize = 0;
        while i < n
            invariant
                n == self.sensors().len(),
                n == self.len(),
                n <= u32::MAX + 1,
                i <= n,
                forall|a: int| 0 <= a < r@.len() ==> #[trigger] r@[a] < i && self.sensors()[r@[a] as int],
                forall|a: int, b: int| 0 <= a < b < r@.len() ==> r@[a] < r@[b],
                forall|s: int| 0 <= s < i && #[trigger] self.sensors()[s] ==> r@.contains(s as u32),
            decreases n - i,
        {
            if self.is_sensor[i] {
                let ghost old_r = r@;
                r.push(i as u32);
                proof {
                    assert forall|s: int| 0 <= s < i + 1 && #[trigger] self.sensors()[s] implies r@.contains(s as u32) by {
                        if s < i {
                            let a = choose|a: int| 0 <= a < old_r.len() && old_r[a] == s as u32;
                            assert(r@[a] == s as u32);
                        } else {
                            assert(r@[old_r.len() as int] == s as u32);
                        }
                    }
                }
            }
            i += 1;
        }
        r
    }
}

/// In a fully indexed set the index is exact: a body index is found at a
/// slot exactly when that slot holds it.
pub proof fn lemma_find_exact<B>(set: VisSet<B>, body_index: i32, slot: int)
    requires
        set.wf(),
        set.fully_indexed(),
        0 <= slot < set.len(),
    ensures
        (set.index().contains_key(body_index) && set.index()[body_index] == slot) <==> set.keys()[slot]
            == body_index,
{
    if set.keys()[slot] == body_index {
        assert(set.index().contains_key(set.keys()[slot]));
    }
}

/// In a fully indexed set no body index occupies two slots.
pub proof fn lemma_fully_indexed_unique<B>(set: VisSet<B>, a: int, b: int)
    requires
        set.wf(),
        set.fully_indexed(),
        0 <= a < b < set.len(),
    ensures
        set.keys()[a] != set.keys()[b],
{
    assert(set.index().contains_key(set.keys()[a]));
    assert(set.index().contains_key(set.keys()[b]));
}

/// The slot-wise statement of [`VisSet::fully_indexed`] establishes it.
proof fn lemma_fully_indexed_intro<B>(set: VisSet<B>)
    requires
        forall|s: int|
            0 <= s < set.len() ==> #[trigger] set.index().contains_key(set.keys()[s])
                && set.index()[set.keys()[s]] == s,
    ensures
        set.fully_indexed(),
{
}

} // verus!
