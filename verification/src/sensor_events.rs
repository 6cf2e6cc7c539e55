//! Sensor event bookkeeping of the sensor samples.
//!
//! Benchmark sensors carry their role in the shape user data: the active
//! sensor row holds `ACTIVE_USER_DATA` (bit 0 set), a passive sensor of row
//! `j` holds `(j + 1) << 1`. A custom filter suppresses the touches of the
//! passive sensors on the filter row. Per-step begin/end event counts are
//! accumulated into running totals (wrapping) and maxima.
use vstd::prelude::*;

verus! {

/// User data of the active (consuming) sensors.
pub const ACTIVE_USER_DATA: u64 = 1;

/// Columns of the sensor benchmark grid.
pub const BENCH_COLUMNS: i32 = 40;

/// Rows of the sensor benchmark grid.
pub const BENCH_ROWS: i32 = 40;

/// User data of a passive sensor in row `j`.
pub open spec fn row_data(j: int) -> int {
    2 * (j + 1)
}

/// Whether user data marks an active sensor.
pub open spec fn is_active_data(ud: u64) -> bool {
    ud & 1 != 0
}

/// The row decoded from user data: `(ud >> 1) as i32 - 1`.
pub open spec fn decoded_row(ud: u64) -> int {
    ((ud >> 1u64) as i32) as int - 1
}

/// Whether decoding the row of `ud` stays within `i32`.
pub open spec fn row_decodable(ud: u64) -> bool {
    ((ud >> 1u64) as i32) != i32::MIN
}

/// Whether a sensor pair with sensor user data `ud` (if any) is kept.
pub open spec fn pair_kept(ud: Option<u64>, filter_row: int) -> bool {
    match ud {
        Some(d) => is_active_data(d) || decoded_row(d) != filter_row,
        None => true,
    }
}

/// The user data of the sensor of a shape pair: the first shape's if it is a
/// sensor, else the second's if that one is, else none.
pub open spec fn sensor_data_of(a_is_sensor: bool, a_data: u64, b_is_sensor: bool, b_data: u64) -> Option<
    u64,
> {
    if a_is_sensor {
        Some(a_data)
    } else if b_is_sensor {
        Some(b_data)
    } else {
        None
    }
}

/// User data of a passive sensor in row `j`: `(j + 1) << 1`.
pub fn row_user_data(j: i32) -> (ud: u64)
    requires
        0 <= j,
    ensures
        ud as int == row_data(j as int),
{
    let r = (j as u64) + 1;
    assert(r << 1u64 == r * 2) by (bit_vector)
        requires
            r < 0x8000_0001u64,
    ;
    r << 1u64
}

/// The filter row of the sensor benchmark (the middle row).
pub fn bench_filter_row() -> (r: i32)
    ensures
        r == BENCH_ROWS / 2,
{
    assert(40i32 >> 1i32 == 20i32) by (bit_vector);
    BENCH_ROWS >> 1i32
}

/// The benchmark's custom pair filter, given what the world reports of the
/// two shapes: keep the pair unless its sensor is a passive sensor of the
/// filter row (`context` carries the filter row).
pub fn bench_sensor_filter(
    a_is_sensor: bool,
    a_data: u64,
    b_is_sensor: bool,
    b_data: u64,
    context: u64,
) -> (keep: bool)
    requires
        a_is_sensor ==> row_decodable(a_data),
        !a_is_sensor && b_is_sensor ==> row_decodable(b_data),
    ensures
        keep == pair_kept(
            sensor_data_of(a_is_sensor, a_data, b_is_sensor, b_data),
            (context as i32) as int,
        ),
{
    let filter_row = context as i32;
    let user_data = if a_is_sensor {
        Some(a_data)
    } else if b_is_sensor {
        Some(b_data)
    } else {
        None
    };
    match user_data {
        Some(ud) => {
            let active = (ud & 1) != 0;
            let row = (ud >> 1u64) as i32 - 1;
            active || row != filter_row
        },
        None => true,
    }
}

/// Decoding the user data of row `j` gives back row `j`, marked passive.
pub proof fn lemma_row_data_roundtrip(j: i32)
    requires
        0 <= j < i32::MAX,
    ensures
        row_decodable((row_data(j as int)) as u64),
        decoded_row((row_data(j as int)) as u64) == j,
        !is_active_data((row_data(j as int)) as u64),
{
    let jj = j as u64;
    let d: u64 = ((jj + 1) * 2) as u64;
    assert(d as int == row_data(j as int));
    assert((d >> 1u64) == jj + 1) by (bit_vector)
        requires
            jj < 0x8000_0000u64,
            d == ((jj + 1) * 2) as u64,
    ;
    assert(d & 1u64 == 0u64) by (bit_vector)
        requires
            jj < 0x8000_0000u64,
            d == ((jj + 1) * 2) as u64,
    ;
    assert(((jj + 1) as i32) as int == j + 1);
}

/// The filter suppresses exactly the passive sensors of the filter row: the
/// active sensors and the passive sensors of every other row keep their
/// pairs, and pairs without a sensor are kept.
pub proof fn lemma_filter_suppresses_only_filter_row(j: i32, filter_row: i32)
    requires
        0 <= j < i32::MAX,
    ensures
        pair_kept(Some((row_data(j as int)) as u64), filter_row as int) <==> j != filter_row,
        pair_kept(Some(ACTIVE_USER_DATA), filter_row as int),
        pair_kept(None, filter_row as int),
{
    lemma_row_data_roundtrip(j);
    assert(1u64 & 1u64 != 0) by (bit_vector);
}

/// What the benchmark does with a sensor's begin-touch event.
pub enum BeginAction {
    /// An active sensor consumes (destroys) the visitor.
    Consume,
    /// A passive sensor highlights the visitor.
    Highlight,
}

/// Decide what a begin-touch event of the sensor with user data `ud` does.
pub fn classify_begin(ud: u64) -> (a: BeginAction)
    ensures
        a is Consume <==> ud == ACTIVE_USER_DATA,
{
    if ud == ACTIVE_USER_DATA {
        BeginAction::Consume
    } else {
        BeginAction::Highlight
    }
}

/// Running begin/end event counts of a sensor scene.
pub struct SensorEventStats {
    pub begin_total: u32,
    pub end_total: u32,
    pub last_begin: u32,
    pub last_end: u32,
    pub max_begin: u32,
    pub max_end: u32,
}

/// `(a + b) mod 2^32`.
pub open spec fn add_wrap(a: u32, b: u32) -> u32 {
    ((a as int + b as int) % 0x1_0000_0000) as u32
}

proof fn lemma_wrapping_add_is_add_wrap(a: u32, b: u32)
    ensures
        vstd::wrapping::u32_specs::wrapping_add(a, b) == add_wrap(a, b),
{
    if a as int + b as int > u32::MAX {
        vstd::arithmetic::div_mod::lemma_mod_multiples_vanish(
            1,
            a as int + b as int - 0x1_0000_0000,
            0x1_0000_0000,
        );
        vstd::arithmetic::div_mod::lemma_small_mod(
            (a as int + b as int - 0x1_0000_0000) as nat,
            0x1_0000_0000,
        );
    } else {
        vstd::arithmetic::div_mod::lemma_small_mod((a as int + b as int) as nat, 0x1_0000_0000);
    }
}

impl SensorEventStats {
    /// All counts zero.
    pub fn new() -> (s: Self)
        ensures
            s.begin_total == 0 && s.end_total == 0 && s.last_begin == 0 && s.last_end == 0
                && s.max_begin == 0 && s.max_end == 0,
    {
        SensorEventStats {
            begin_total: 0,
            end_total: 0,
            last_begin: 0,
            last_end: 0,
            max_begin: 0,
            max_end: 0,
        }
    }

    /// Record one step's begin/end counts: they become the last counts and are
    /// added (wrapping) to the totals; maxima are unchanged.
    pub fn record(&mut self, begin: u32, end: u32)
        ensures
            final(self).last_begin == begin,
            final(self).last_end == end,
            final(self).begin_total == add_wrap(old(self).begin_total, begin),
            final(self).end_total == add_wrap(old(self).end_total, end),
            final(self).max_begin == old(self).max_begin,
            final(self).max_end == old(self).max_end,
    {
        proof {
            lemma_wrapping_add_is_add_wrap(self.begin_total, begin);
            lemma_wrapping_add_is_add_wrap(self.end_total, end);
        }
        self.last_begin = begin;
        self.last_end = end;
        self.begin_total = self.begin_total.wrapping_add(begin);
        self.end_total = self.end_total.wrapping_add(end);
    }

    /// Record one benchmark step: as [`Self::record`], and the maxima take
    /// the larger of their value and the step's count.
    pub fn record_benchmark(&mut self, begin: u32, end: u32)
        ensures
            final(self).last_begin == begin,
            final(self).last_end == end,
            final(self).begin_total == add_wrap(old(self).begin_total, begin),
            final(self).end_total == add_wrap(old(self).end_total, end),
            final(self).max_begin == if begin > old(self).max_begin {
                begin
            } else {
                old(self).max_begin
            },
            final(self).max_end == if end > old(self).max_end {
                end
            } else {
                old(self).max_end
            },
    {
        self.record(begin, end);
        if self.last_begin > self.max_begin {
            self.max_begin = self.last_begin;
        }
        if self.last_end > self.max_end {
            self.max_end = self.last_end;
        }
    }

    /// Clear the totals and last counts (a new bullet is launched); the
    /// maxima are kept.
    pub fn clear_counts(&mut self)
        ensures
            final(self).begin_total == 0,
            final(self).end_total == 0,
            final(self).last_begin == 0,
            final(self).last_end == 0,
            final(self).max_begin == old(self).max_begin,
            final(self).max_end == old(self).max_end,
    {
        self.begin_total = 0;
        self.end_total = 0;
        self.last_begin = 0;
        self.last_end = 0;
    }

    /// The readout `[a, b, last_begin, last_end, flag]`: the maxima and flag 1
    /// for the benchmark, the totals and flag 0 otherwise.
    pub fn readout(&self, benchmark: bool) -> (r: [u32; 5])
        ensures
            r@ == if benchmark {
                seq![self.max_begin, self.max_end, self.last_begin, self.last_end, 1u32]
            } else {
                seq![self.begin_total, self.end_total, self.last_begin, self.last_end, 0u32]
            },
    {
        let r = if benchmark {
            [self.max_begin, self.max_end, self.last_begin, self.last_end, 1u32]
        } else {
            [self.begin_total, self.end_total, self.last_begin, self.last_end, 0u32]
        };
        assert(r@ =~= if benchmark {
            seq![self.max_begin, self.max_end, self.last_begin, self.last_end, 1u32]
        } else {
            seq![self.begin_total, self.end_total, self.last_begin, self.last_end, 0u32]
        });
        r
    }
}

/// Step counting of the sensor benchmark: events are processed once per
/// counted step, and a new row of visitors spawns every 32 steps.
pub struct BenchmarkClock {
    pub step_count: u32,
    pub last_step_count: u32,
}

/// Whether the clock's current step still has its events to process.
pub open spec fn pending(c: BenchmarkClock) -> bool {
    c.step_count != c.last_step_count
}

/// The clock after one counted world step.
pub open spec fn ticked(c: BenchmarkClock) -> BenchmarkClock {
    BenchmarkClock { step_count: add_wrap(c.step_count, 1), last_step_count: c.last_step_count }
}

/// The clock after its current step's events are processed.
pub open spec fn finished(c: BenchmarkClock) -> BenchmarkClock {
    BenchmarkClock { step_count: c.step_count, last_step_count: c.step_count }
}

impl BenchmarkClock {
    /// A fresh clock.
    pub fn new() -> (c: Self)
        ensures
            c.step_count == 0 && c.last_step_count == 0,
    {
        BenchmarkClock { step_count: 0, last_step_count: 0 }
    }

    /// Count one world step (wrapping).
    pub fn tick(&mut self)
        ensures
            *final(self) == ticked(*old(self)),
    {
        proof {
            lemma_wrapping_add_is_add_wrap(self.step_count, 1);
        }
        self.step_count = self.step_count.wrapping_add(1);
    }

    /// Whether this step's events are still to be processed.
    pub fn should_process(&self) -> (r: bool)
        ensures
            r == pending(*self),
    {
        self.step_count != self.last_step_count
    }

    /// Whether this step spawns a new row (every 32nd step count).
    pub fn spawns_row(&self) -> (r: bool)
        ensures
            r == (self.step_count % 32 == 0),
    {
        let s = self.step_count;
        assert((s & 0x1Fu32) == 0u32 <==> s % 32u32 == 0u32) by (bit_vector);
        (self.step_count & 0x1F) == 0
    }

    /// Mark this step's events processed.
    pub fn finish(&mut self)
        ensures
            *final(self) == finished(*old(self)),
    {
        self.last_step_count = self.step_count;
    }
}

/// Events are processed once per step: once a step is finished nothing is
/// pending, and the next tick makes the new step pending, whatever the
/// clock held before (the step count wraps without ever meeting the
/// finished count).
pub proof fn lemma_process_once_per_step(c: BenchmarkClock)
    ensures
        !pending(finished(c)),
        pending(ticked(finished(c))),
{
    let s = c.step_count;
    if s as int + 1 < 0x1_0000_0000 {
        vstd::arithmetic::div_mod::lemma_small_mod((s as int + 1) as nat, 0x1_0000_0000);
    } else {
        assert(s as int + 1 == 0x1_0000_0000);
    }
}

/// Whether `s` is strictly increasing (sorted, without repeats).
pub open spec fn strictly_increasing(s: Seq<i32>) -> bool {
    forall|i: int, j: int| 0 <= i < j < s.len() ==> s[i] < s[j]
}

/// The body indices of the consumed visitors in increasing order, each once
/// (the visitors are destroyed in this order).
pub fn sorted_unique(v: &Vec<i32>) -> (r: Vec<i32>)
    ensures
        strictly_increasing(r@),
        forall|x: i32| r@.contains(x) <==> v@.contains(x),
{
    let mut r: Vec<i32> = Vec::new();
    let n = v.len();
    let mut i: usize = 0;
    while i < n
        invariant
            n == v.len(),
            i <= n,
            strictly_increasing(r@),
            forall|x: i32| r@.contains(x) <==> v@.subrange(0, i as int).contains(x),
        decreases n - i,
    {
        let x = v[i];
        let mut p: usize = 0;
        while p < r.len() && r[p] < x
            invariant
                p <= r.len(),
                forall|k: int| 0 <= k < p ==> r@[k] < x,
            decreases r.len() - p,
        {
            p += 1;
        }
        let ghost old_r = r@;
        let ghost pre = v@.subrange(0, i as int);
        assert(v@.subrange(0, i + 1) =~= pre.push(x));
        assert forall|y: i32| pre.push(x).contains(y) <==> pre.contains(y) || y == x by {
            if pre.push(x).contains(y) {
                let k = choose|k: int| 0 <= k < pre.push(x).len() && pre.push(x)[k] == y;
                if k < pre.len() {
                    assert(pre[k] == y);
                }
            }
            if pre.contains(y) {
                let k = choose|k: int| 0 <= k < pre.len() && pre[k] == y;
                assert(pre.push(x)[k] == y);
            }
            if y == x {
                assert(pre.push(x)[pre.len() as int] == x);
            }
        }
        if p < r.len() && r[p] == x {
            assert(old_r[p as int] == x);
            assert(old_r.contains(x));
            assert forall|y: i32| r@.contains(y) <==> old_r.contains(y) || y == x by {
                if y == x {
                    assert(r@[p as int] == y);
                }
            }
        } else {
            proof {
                assert forall|k: int| p <= k < old_r.len() implies x < #[trigger] old_r[k] by {
                    assert(old_r[p as int] >= x);
                    assert(old_r[p as int] != x);
                    if k > p {
                        assert(old_r[p as int] < old_r[k]);
                    }
                }
            }
            r.insert(p, x);
            proof {
                assert(r@ =~= old_r.subrange(0, p as int).push(x) + old_r.subrange(
                    p as int,
                    old_r.len() as int,
                ));
                assert forall|a: int, b: int| 0 <= a < b < r@.len() implies r@[a] < r@[b] by {
                    if b < p {
                    } else if b == p {
                        assert(r@[a] == old_r[a]);
                    } else if a < p {
                        assert(r@[b] == old_r[b - 1]);
                        assert(old_r[a] < x);
                        assert(r@[a] == old_r[a]);
                        if b - 1 > p {
                            assert(old_r[p as int] < old_r[b - 1]);
                        }
                    } else if a == p {
                        assert(r@[b] == old_r[b - 1]);
                    } else {
                        assert(r@[a] == old_r[a - 1]);
                        assert(r@[b] == old_r[b - 1]);
                    }
                }
                assert forall|y: i32| r@.contains(y) <==> old_r.contains(y) || y == x by {
                    if r@.contains(y) {
                        let k = choose|k: int| 0 <= k < r@.len() && r@[k] == y;
                        if k < p {
                            assert(old_r[k] == y);
                        } else if k > p {
                            assert(old_r[k - 1] == y);
                        }
                    }
                    if old_r.contains(y) {
                        let k = choose|k: int| 0 <= k < old_r.len() && old_r[k] == y;
                        if k < p {
                            assert(r@[k] == y);
                        } else {
                            assert(r@[k + 1] == y);
                        }
                    }
                    if y == x {
                        assert(r@[p as int] == x);
                    }
                }
            }
        }
        assert forall|y: i32| r@.contains(y) <==> v@.subrange(0, i + 1).contains(y) by {
            assert(r@.contains(y) <==> old_r.contains(y) || y == x);
            assert(old_r.contains(y) <==> pre.contains(y));
            assert(v@.subrange(0, i + 1).contains(y) <==> pre.push(x).contains(y));
        }
        i += 1;
    }
    assert(v@.subrange(0, n as int) =~= v@);
    r
}

/// Most hit events the Hit sample keeps.
pub const MAX_HIT_EVENTS: usize = 32;

/// Append `incoming` to `events` in order until `events` holds `cap` items.
pub fn push_capped<T: Copy>(events: &mut Vec<T>, incoming: &[T], cap: usize)
    ensures
        old(events)@.len() >= cap ==> final(events)@ == old(events)@,
        old(events)@.len() < cap ==> final(events)@ == old(events)@ + incoming@.take(
            if incoming@.len() < cap - old(events)@.len() {
                incoming@.len() as int
            } else {
                cap - old(events)@.len()
            },
        ),
{
    let n = incoming.len();
    let mut i: usize = 0;
    let ghost start = events@;
    while i < n && events.len() < cap
        invariant
            n == incoming@.len(),
            i <= n,
            start.len() >= cap ==> events@ == start && i == 0,
            start.len() < cap ==> events@ == start + incoming@.take(i as int) && start.len() + i
                <= cap,
            events@.len() == start.len() + i,
        decreases n - i,
    {
        events.push(incoming[i]);
        assert(incoming@.take(i + 1) =~= incoming@.take(i as int).push(incoming@[i as int]));
        i += 1;
    }
    proof {
        if start.len() < cap {
            let want = if incoming@.len() < cap - start.len() {
                incoming@.len() as int
            } else {
                cap - start.len()
            };
            assert(i == want);
        }
    }
}

/// Clear the joint slot named by a broken joint's user data (its slot
/// index); indices past the slots are ignored.
pub fn forget_joint<Id>(joint_ids: &mut Vec<Option<Id>>, index: u64)
    ensures
        index < old(joint_ids)@.len() ==> final(joint_ids)@ == old(joint_ids)@.update(
            index as int,
            None,
        ),
        index >= old(joint_ids)@.len() ==> final(joint_ids)@ == old(joint_ids)@,
{
    if index < joint_ids.len() as u64 {
        joint_ids.set(index as usize, None);
    }
}

/// Number of joints still present.
pub fn remaining_joints<Id>(joint_ids: &Vec<Option<Id>>) -> (n: usize)
    ensures
        n == crate::cast_slots::occupied(joint_ids@),
{
    let mut n: usize = 0;
    let len = joint_ids.len();
    let mut i: usize = 0;
    while i < len
        invariant
            len == joint_ids@.len(),
            i <= len,
            n == crate::cast_slots::occupied(joint_ids@.subrange(0, i as int)),
            n <= i,
        decreases len - i,
    {
        proof {
            assert(joint_ids@.subrange(0, i + 1).drop_last() =~= joint_ids@.subrange(0, i as int));
        }
        if joint_ids[i].is_some() {
            n += 1;
        }
        i += 1;
    }
    assert(joint_ids@.subrange(0, len as int) =~= joint_ids@);
    n
}

/// The contact the Persistent Contact sample tracks after a step: the first
/// begin-touch contact of the step replaces the tracked one, and a tracked
/// contact that ends this step is dropped.
pub open spec fn tracked_after(current: Option<u64>, begins: Seq<u64>, ends: Seq<u64>) -> Option<
    u64,
> {
    let latched = if begins.len() > 0 {
        Some(begins[0])
    } else {
        current
    };
    match latched {
        Some(c) => if ends.contains(c) {
            None
        } else {
            Some(c)
        },
        None => None,
    }
}

/// Update the tracked contact from one step's begin and end events (contact
/// ids as keys).
pub fn track_contact(current: Option<u64>, begins: &[u64], ends: &[u64]) -> (r: Option<u64>)
    ensures
        r == tracked_after(current, begins@, ends@),
{
    let latched = if begins.len() > 0 {
        Some(begins[0])
    } else {
        current
    };
    match latched {
        Some(c) => {
            let n = ends.len();
            let mut i: usize = 0;
            while i < n
                invariant
                    n == ends@.len(),
                    i <= n,
                    forall|k: int| 0 <= k < i ==> ends@[k] != c,
                    (if begins@.len() > 0 {
                        Some(begins@[0])
                    } else {
                        current
                    }) == Some(c),
                decreases n - i,
            {
                if ends[i] == c {
                    assert(ends@.contains(c));
                    return None;
                }
                i += 1;
            }
            Some(c)
        },
        None => None,
    }
}

} // verus!
