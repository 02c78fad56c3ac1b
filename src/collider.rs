//! The engine: a set of hitboxes on a logical clock, and the ordered stream
//! of the events at which pairs of them start or stop touching.
//!
//! Every pair of hitboxes that may interact holds at most one pending event:
//! a collision while the pair is apart, a separation while it overlaps. A
//! change to a hitbox drops the pending events of its pairs and plans them
//! again from the current time.
//!
//! There is no spatial grid: when a hitbox is added or changed, it is paired
//! with every other hitbox, and the solver's own test on the rectangles that
//! the two sweep discards the pairs that cannot meet. The cell width given
//! to the engine is checked and kept, but not used.

use vstd::prelude::*;
use crate::dur_hitbox::{hitbox_in_range, DurHbVel, DurHitbox};
use crate::solvers::{collide_time_spec, separate_time_spec};
use crate::scalar::{add_spec, min_spec, mul_spec, sub_spec, Scalar, LIMIT};
use crate::normals::{all_fn, normal_spec};
use crate::shape::{advance_spec, placed_in_range, PlacedShape, ShapeKind};
use crate::util::HbId;
use crate::vec::Vec2;

verus! {

/// What happens between two hitboxes.
#[derive(Clone, Copy, Debug, PartialEq, Eq, PartialOrd, Ord, Hash, Structural)]
pub enum HbEvent {
    /// The hitboxes start to touch.
    Collide,
    /// The hitboxes are the padding apart.
    Separate,
}

/// Why an engine call was refused.
#[derive(Clone, Copy, Debug, PartialEq, Eq, Structural)]
pub enum ColliderError {
    /// A hitbox with the same identity is in the engine already.
    DuplicateId,
}

/// A client's record for a hitbox: its identity, and whether it interacts
/// with another record. The relation should be symmetric. Both answers are
/// functions of the records alone: `id_spec` and `interacts` name them, and
/// an implementation gives them the same bodies as `id` and `can_interact`.
pub trait HbProfile: Copy {
    /// The identity of the record.
    spec fn id_spec(&self) -> HbId;

    /// Whether the record interacts with `other`.
    spec fn interacts(&self, other: &Self) -> bool;

    fn id(&self) -> (r: HbId)
        ensures
            r == self.id_spec(),
    ;

    fn can_interact(&self, other: &Self) -> (r: bool)
        ensures
            r == self.interacts(other),
    ;
}

/// The motion of a hitbox, and the time at which it ends.
#[derive(Clone, Copy, Debug, PartialEq, Eq, PartialOrd, Ord, Hash, Structural)]
pub struct HbVel {
    pub value: Vec2,
    pub resize: Vec2,
    pub end_time: Scalar,
}

impl HbVel {
    pub open spec fn in_range(self) -> bool {
        self.value.wf() && self.resize.wf() && self.end_time.wf()
    }

    /// No motion, never ending.
    pub fn still() -> (r: HbVel)
        ensures
            r.in_range(),
            r.value.x@ == 0 && r.value.y@ == 0,
            r.resize.x@ == 0 && r.resize.y@ == 0,
            r.end_time@ == LIMIT,
    {
        HbVel { value: Vec2::zero(), resize: Vec2::zero(), end_time: Scalar::infinity() }
    }

    /// Moving at `value`, never ending.
    pub fn moving(value: Vec2) -> (r: HbVel)
        ensures
            r.value == value,
            r.resize.x@ == 0 && r.resize.y@ == 0,
            r.end_time@ == LIMIT,
    {
        HbVel { value, resize: Vec2::zero(), end_time: Scalar::infinity() }
    }
}

/// A placed shape with its motion, as the engine's clients see it: `value`
/// is the shape at the current time.
#[derive(Clone, Copy, Debug, PartialEq, Eq, PartialOrd, Ord, Hash, Structural)]
pub struct Hitbox {
    pub value: PlacedShape,
    pub vel: HbVel,
}

impl Hitbox {
    /// A valid shape with its scalars in range; a circle resizes equally
    /// along both axes.
    pub open spec fn wf(self) -> bool {
        &&& self.value.wf()
        &&& self.vel.in_range()
        &&& (self.value.shape.kind == ShapeKind::Circle ==> self.vel.resize.x == self.vel.resize.y)
    }
}

impl PlacedShape {
    /// This shape, not moving, forever.
    pub fn still(self) -> (r: Hitbox)
        ensures
            r.value == self,
            r.vel.in_range(),
            r.vel.value.x@ == 0 && r.vel.value.y@ == 0,
            r.vel.resize.x@ == 0 && r.vel.resize.y@ == 0,
            r.vel.end_time@ == LIMIT,
    {
        Hitbox { value: self, vel: HbVel::still() }
    }

    /// This shape, moving at `vel`, forever.
    pub fn moving(self, vel: Vec2) -> (r: Hitbox)
        ensures
            r.value == self,
            r.vel.value == vel,
            r.vel.resize.x@ == 0 && r.vel.resize.y@ == 0,
            r.vel.end_time@ == LIMIT,
    {
        Hitbox { value: self, vel: HbVel::moving(vel) }
    }
}

/// A hitbox in the engine: its shape at time `origin` and its motion.
struct Entry<P> {
    id: HbId,
    profile: P,
    hitbox: Hitbox,
    origin: Scalar,
}

/// A pending event of the pair `a < b`.
#[derive(Clone, Copy)]
struct PairEvent {
    time: Scalar,
    kind: HbEvent,
    a: HbId,
    b: HbId,
}

/// The earliest time among `events`, or infinity.
spec fn min_time(events: Seq<PairEvent>) -> int
    decreases events.len(),
{
    if events.len() == 0 {
        LIMIT as int
    } else {
        min_spec(events.last().time@, min_time(events.drop_last()))
    }
}

proof fn lemma_min_time_bounds(events: Seq<PairEvent>, lo: int)
    requires
        lo <= LIMIT,
        forall|k: int| 0 <= k < events.len() ==> lo <= #[trigger] events[k].time@ <= LIMIT,
    ensures
        min_time(events) >= lo,
        forall|k: int| 0 <= k < events.len() ==> min_time(events) <= #[trigger] events[k].time@,
        events.len() > 0 ==> exists|k: int|
            0 <= k < events.len() && #[trigger] events[k].time@ == min_time(events),
    decreases events.len(),
{
    if events.len() > 0 {
        let rest = events.drop_last();
        assert forall|k: int| 0 <= k < rest.len() implies lo <= #[trigger] rest[k].time@ <= LIMIT by {
            assert(rest[k] == events[k]);
        }
        lemma_min_time_bounds(rest, lo);
        assert forall|k: int| 0 <= k < events.len() implies min_time(events) <= #[trigger] events[
            k
        ].time@ by {
            if k < events.len() - 1 {
                assert(rest[k] == events[k]);
            }
        }
        if rest.len() > 0 && min_time(rest) < events.last().time@ {
            let k = choose|k: int| 0 <= k < rest.len() && #[trigger] rest[k].time@ == min_time(rest);
            assert(events[k] == rest[k]);
        } else {
            assert(events.last() == events[events.len() - 1]);
            assert(events[events.len() - 1].time@ == min_time(events));
        }
    }
}

/// The engine: hitboxes, the pairs that overlap, and the pending events.
pub struct Collider<P> {
    time: Scalar,
    /// Side of a broadphase cell. Pairs are planned directly, each through
    /// the solver's own test on the rectangles that the two hitboxes sweep,
    /// so the width is checked and kept but not otherwise used.
    cell_width: Scalar,
    padding: Scalar,
    entries: Vec<Entry<P>>,
    overlaps: Vec<(HbId, HbId)>,
    events: Vec<PairEvent>,
}

impl<P: HbProfile> Collider<P> {
    /// The engine's state is consistent: scalars in range, distinct
    /// identities, and pending events of known hitboxes, none in the past.
    pub closed spec fn wf(&self) -> bool {
        &&& self.time.wf()
        &&& 0 <= self.time@
        &&& self.padding.wf()
        &&& self.padding@ > 0
        &&& self.cell_width.wf()
        &&& self.cell_width@ > 0
        &&& forall|i: int| 0 <= i < self.entries.len() ==> entry_ok(#[trigger] self.entries@[i])
        &&& forall|i: int, j: int|
            0 <= i < j < self.entries.len() ==> #[trigger] self.entries@[i].id
                != #[trigger] self.entries@[j].id
        &&& forall|k: int|
            0 <= k < self.events.len() ==> (#[trigger] self.events@[k]).time.wf()
                && self.events@[k].time@ >= self.time@ && self.has_id(self.events@[k].a)
                && self.has_id(self.events@[k].b) && self.events@[k].a < self.events@[k].b
        &&& forall|k1: int, k2: int|
            0 <= k1 < k2 < self.events.len() ==> distinct_pairs(
                #[trigger] self.events@[k1],
                #[trigger] self.events@[k2],
            )
    }

    /// A hitbox with identity `id` is in the engine.
    pub closed spec fn has_id(&self, id: HbId) -> bool {
        seq_has_id(self.entries@, id)
    }

    /// The current time.
    pub closed spec fn time_spec(&self) -> int {
        self.time@
    }

    /// Some event is pending.
    pub closed spec fn has_pending(&self) -> bool {
        self.events.len() > 0
    }

    /// The time of the earliest pending event, or infinity.
    pub closed spec fn next_time_spec(&self) -> int {
        min_time(self.events@)
    }

    /// The record of the hitbox `id`.
    spec fn entry_of(&self, id: HbId) -> Entry<P> {
        seq_entry_of(self.entries@, id)
    }

    /// The solver's answer from now for the pair `a < b`: the time until
    /// their separation while they are recorded as overlapping, else until
    /// their collision.
    pub closed spec fn pair_dt(&self, a: HbId, b: HbId) -> int {
        pair_dt_of(self.entries@, self.overlaps@, self.time@, self.padding@, a, b)
    }

    /// A pending event of the pair `p` falls at time `t`.
    pub closed spec fn has_pending_event(&self, p: (HbId, HbId), t: int) -> bool {
        exists|k: int|
            0 <= k < self.events.len() && (#[trigger] self.events@[k]).a == p.0 && self.events@[k].b
                == p.1 && self.events@[k].time@ == t
    }

    /// The time of the pending event at position `k`.
    pub closed spec fn pending_time(&self, k: int) -> int {
        self.events@[k].time@
    }

    /// The pair `a`, `b` is recorded as overlapping, in either order.
    pub closed spec fn overlapping(&self, a: HbId, b: HbId) -> bool {
        exists|k: int|
            0 <= k < self.overlaps.len() && (#[trigger] self.overlaps@[k] == (a, b)
                || self.overlaps@[k] == (b, a))
    }

    /// An engine at time zero with no hitbox. `cell_width` and `padding` must
    /// be positive.
    pub fn new(cell_width: Scalar, padding: Scalar) -> (r: Collider<P>)
        requires
            cell_width.wf(),
            padding.wf(),
            cell_width@ > 0,
            padding@ > 0,
        ensures
            r.wf(),
            r.time_spec() == 0,
            r.next_time_spec() == LIMIT,
            forall|id: HbId| !r.has_id(id),
    {
        Collider {
            time: Scalar::zero(),
            cell_width,
            padding,
            entries: Vec::new(),
            overlaps: Vec::new(),
            events: Vec::new(),
        }
    }

    /// The current time.
    pub fn time(&self) -> (r: Scalar)
        ensures
            r@ == self.time_spec(),
    {
        self.time
    }

    /// The time of the earliest pending event, or infinity.
    pub fn next_time(&self) -> (r: Scalar)
        requires
            self.wf(),
        ensures
            r.wf(),
            r@ == self.next_time_spec(),
            self.time_spec() <= r@,
    {
        let mut best = Scalar::infinity();
        let mut k: usize = 0;
        while k < self.events.len()
            invariant
                self.wf(),
                0 <= k <= self.events.len(),
                best.wf(),
                best@ == min_time(self.events@.subrange(0, k as int)),
            decreases self.events.len() - k,
        {
            let t = self.events[k].time;
            assert(self.events@.subrange(0, k + 1).drop_last() =~= self.events@.subrange(
                0,
                k as int,
            ));
            best = t.min(best);
            k = k + 1;
        }
        assert(self.events@.subrange(0, self.events.len() as int) =~= self.events@);
        proof {
            assert forall|k: int| 0 <= k < self.events.len() implies self.time@
                <= #[trigger] self.events@[k].time@ <= LIMIT by {
                assert(self.events@[k].time.wf());
            }
            lemma_min_time_bounds(self.events@, self.time@);
        }
        best
    }

    /// Moves the clock to `time`, which must lie between the current time and
    /// the next event.
    pub fn set_time(&mut self, time: Scalar)
        requires
            old(self).wf(),
            time.wf(),
            old(self).time_spec() <= time@ <= old(self).next_time_spec(),
        ensures
            final(self).wf(),
            final(self).time_spec() == time@,
            final(self).next_time_spec() == old(self).next_time_spec(),
            forall|id: HbId| final(self).has_id(id) == old(self).has_id(id),
            forall|a: HbId, b: HbId| final(self).overlapping(a, b) == old(self).overlapping(a, b),
    {
        proof {
            assert forall|k: int| 0 <= k < self.events.len() implies self.time@
                <= #[trigger] self.events@[k].time@ <= LIMIT by {
                assert(self.events@[k].time.wf());
            }
            lemma_min_time_bounds(self.events@, self.time@);
        }
        self.time = time;
        assert(self.overlaps@ == old(self).overlaps@);
    }
}

impl<P: HbProfile> Collider<P> {
    fn find(&self, id: HbId) -> (r: Option<usize>)
        ensures
            r matches Some(i) ==> i < self.entries.len() && self.entries@[i as int].id == id,
            r is None ==> !self.has_id(id),
    {
        let mut i: usize = 0;
        while i < self.entries.len()
            invariant
                0 <= i <= self.entries.len(),
                forall|j: int| 0 <= j < i ==> #[trigger] self.entries@[j].id != id,
            decreases self.entries.len() - i,
        {
            if self.entries[i].id == id {
                return Some(i);
            }
            i = i + 1;
        }
        None
    }

    /// The hitbox at index `i` as the solver sees it now.
    fn current(&self, i: usize) -> (r: DurHitbox)
        requires
            self.wf(),
            i < self.entries.len(),
        ensures
            r == entry_dur(self.entries@[i as int], self.time@),
            hitbox_in_range(r),
    {
        assert(entry_ok(self.entries@[i as int]));
        let e = &self.entries[i];
        let dt = self.time.sub(e.origin);
        let value = e.hitbox.value.moved(e.hitbox.vel.value, e.hitbox.vel.resize, dt);
        DurHitbox {
            value,
            vel: DurHbVel {
                value: e.hitbox.vel.value,
                resize: e.hitbox.vel.resize,
                duration: e.hitbox.vel.end_time.sub(self.time),
            },
        }
    }

    fn pair_overlapping(&self, a: HbId, b: HbId) -> (r: bool)
        ensures
            r == self.overlapping(a, b),
    {
        let mut k: usize = 0;
        while k < self.overlaps.len()
            invariant
                0 <= k <= self.overlaps.len(),
                forall|j: int|
                    0 <= j < k ==> #[trigger] self.overlaps@[j] != (a, b) && self.overlaps@[j] != (
                        b,
                        a,
                    ),
            decreases self.overlaps.len() - k,
        {
            let (x, y) = self.overlaps[k];
            if (x == a && y == b) || (x == b && y == a) {
                return true;
            }
            k = k + 1;
        }
        false
    }

    /// The pending event of the hitboxes at `i` and `j`, if they interact and
    /// one lies ahead: their separation while they overlap, else their
    /// collision.
    fn plan_pair(&self, i: usize, j: usize) -> (r: Option<PairEvent>)
        requires
            self.wf(),
            i < self.entries.len(),
            j < self.entries.len(),
            i != j,
        ensures
            r matches Some(e) ==> e.time.wf() && e.time@ >= self.time@ && self.has_id(e.a)
                && self.has_id(e.b) && e.a < e.b && ((e.a == self.entries@[i as int].id && e.b
                == self.entries@[j as int].id) || (e.a == self.entries@[j as int].id && e.b
                == self.entries@[i as int].id)),
            r is Some <==> self.entries@[i as int].profile.interacts(&self.entries@[j as int].profile)
                && self.pair_dt(
                ordered(self.entries@[i as int].id, self.entries@[j as int].id).0,
                ordered(self.entries@[i as int].id, self.entries@[j as int].id).1,
            ) < LIMIT,
            r matches Some(e) ==> e.time@ == add_spec(self.time@, self.pair_dt(e.a, e.b)),
    {
        proof {
            if self.entries@[i as int].id <= self.entries@[j as int].id {
                lemma_pair_dt(*self, i as int, j as int);
            } else {
                lemma_pair_dt(*self, j as int, i as int);
            }
        }
        let pi = self.entries[i].profile;
        let pj = self.entries[j].profile;
        if !pi.can_interact(&pj) {
            return None;
        }
        let id_i = self.entries[i].id;
        let id_j = self.entries[j].id;
        let (first, second, a, b) = if id_i <= id_j {
            (self.current(i), self.current(j), id_i, id_j)
        } else {
            (self.current(j), self.current(i), id_j, id_i)
        };
        let (kind, dt) = if self.pair_overlapping(a, b) {
            (HbEvent::Separate, first.separate_time(&second, self.padding))
        } else {
            (HbEvent::Collide, first.collide_time(&second))
        };
        if dt.is_infinite() {
            None
        } else {
            assert(self.has_id(id_i));
            assert(self.has_id(id_j));
            if i < j {
                assert(self.entries@[i as int].id != self.entries@[j as int].id);
            } else {
                assert(self.entries@[j as int].id != self.entries@[i as int].id);
            }
            Some(PairEvent { time: self.time.add(dt), kind, a, b })
        }
    }

    /// Drops every pending event of the hitbox `id`.
    fn purge_events(&mut self, id: HbId)
        requires
            old(self).wf(),
        ensures
            final(self).wf(),
            final(self).time == old(self).time,
            final(self).padding == old(self).padding,
            final(self).entries == old(self).entries,
            final(self).overlaps == old(self).overlaps,
            forall|k: int|
                0 <= k < final(self).events.len() ==> (#[trigger] final(self).events@[k]).a != id
                    && final(self).events@[k].b != id,
            forall|k: int|
                0 <= k < old(self).events.len() && (#[trigger] old(self).events@[k]).a != id
                    && old(self).events@[k].b != id ==> final(self).events@.contains(
                    old(self).events@[k],
                ),
    {
        let mut kept: Vec<PairEvent> = Vec::new();
        let mut k: usize = 0;
        while k < self.events.len()
            invariant
                self.wf(),
                0 <= k <= self.events.len(),
                forall|j: int|
                    0 <= j < kept.len() ==> (#[trigger] kept@[j]).time.wf() && kept@[j].time@
                        >= self.time@ && self.has_id(kept@[j].a) && self.has_id(kept@[j].b)
                        && kept@[j].a < kept@[j].b && kept@[j].a != id && kept@[j].b != id,
                forall|j: int|
                    0 <= j < kept.len() ==> exists|m: int|
                        0 <= m < k && #[trigger] self.events@[m] == #[trigger] kept@[j],
                forall|j1: int, j2: int|
                    0 <= j1 < j2 < kept.len() ==> distinct_pairs(
                        #[trigger] kept@[j1],
                        #[trigger] kept@[j2],
                    ),
                forall|m: int|
                    0 <= m < k && (#[trigger] self.events@[m]).a != id && self.events@[m].b != id
                        ==> kept@.contains(self.events@[m]),
            decreases self.events.len() - k,
        {
            let ghost before_all = kept@;
            let e = self.events[k];
            assert(self.events@[k as int].time.wf());
            if e.a != id && e.b != id {
                let ghost before = kept@;
                kept.push(e);
                proof {
                    assert forall|j: int| 0 <= j < kept.len() implies exists|m: int|
                        0 <= m < k + 1 && #[trigger] self.events@[m] == #[trigger] kept@[j] by {
                        if j < before.len() {
                            assert(kept@[j] == before[j]);
                            let m = choose|m: int| 0 <= m < k && #[trigger] self.events@[m] == before[j];
                            assert(self.events@[m] == kept@[j]);
                        } else {
                            assert(self.events@[k as int] == kept@[j]);
                        }
                    }
                    assert forall|j1: int, j2: int| 0 <= j1 < j2 < kept.len() implies distinct_pairs(
                        #[trigger] kept@[j1],
                        #[trigger] kept@[j2],
                    ) by {
                        if j2 < before.len() {
                            assert(kept@[j1] == before[j1] && kept@[j2] == before[j2]);
                        } else {
                            assert(kept@[j1] == before[j1]);
                            let m = choose|m: int| 0 <= m < k && #[trigger] self.events@[m] == before[j1];
                            assert(distinct_pairs(self.events@[m], self.events@[k as int]));
                        }
                    }
                }
            } else {
                proof {
                    assert forall|j: int| 0 <= j < kept.len() implies exists|m: int|
                        0 <= m < k + 1 && #[trigger] self.events@[m] == #[trigger] kept@[j] by {
                        let m = choose|m: int| 0 <= m < k && #[trigger] self.events@[m] == kept@[j];
                        assert(self.events@[m] == kept@[j]);
                    }
                }
            }
            proof {
                assert forall|m: int|
                    0 <= m < k + 1 && (#[trigger] self.events@[m]).a != id && self.events@[m].b != id
                        implies kept@.contains(self.events@[m]) by {
                    if m < k {
                        let q = choose|q: int| 0 <= q < before_all.len() && before_all[q] == self.events@[m];
                        assert(kept@[q] == before_all[q]);
                    } else {
                        assert(kept@[kept.len() - 1] == self.events@[m]);
                    }
                }
            }
            k = k + 1;
        }
        self.events = kept;
    }

    /// Every pending event of the hitbox at `i` pairs it with a hitbox at an
    /// index below `j`.
    spec fn partners_below(&self, i: int, j: int) -> bool {
        forall|k: int|
            0 <= k < self.events.len() ==> ((#[trigger] self.events@[k]).a == self.entries@[i].id
                || self.events@[k].b == self.entries@[i].id) ==> exists|m: int|
                0 <= m < j && m != i && (#[trigger] self.entries@[m].id == self.events@[k].a
                    || self.entries@[m].id == self.events@[k].b)
    }

    /// The pending events from position `from` on pair the hitbox at `i`
    /// with another, at the time that the solver gives from now.
    spec fn fresh_from(&self, from: int, i: int) -> bool {
        forall|k: int|
            from <= k < self.events.len() ==> ((#[trigger] self.events@[k]).a == self.entries@[i].id
                || self.events@[k].b == self.entries@[i].id) && self.events@[k].time@ == add_spec(
                self.time@,
                self.pair_dt(self.events@[k].a, self.events@[k].b),
            )
    }

    /// Every hitbox at an index below `j` that the hitbox at `i` interacts
    /// with, and meets before infinity, has a pending event with it.
    spec fn planned_below(&self, i: int, j: int) -> bool {
        forall|m: int|
            0 <= m < j && m != i && self.entries@[i].profile.interacts(&self.entries@[m].profile)
                && #[trigger] self.pair_dt(
                ordered(self.entries@[i].id, self.entries@[m].id).0,
                ordered(self.entries@[i].id, self.entries@[m].id).1,
            ) < LIMIT ==> self.has_pair(ordered(self.entries@[i].id, self.entries@[m].id))
    }

    /// Some pending event belongs to the pair `p`.
    pub closed spec fn has_pair(&self, p: (HbId, HbId)) -> bool {
        exists|k: int|
            0 <= k < self.events.len() && (#[trigger] self.events@[k]).a == p.0 && self.events@[k].b
                == p.1
    }

    /// Plans the pending event of the hitboxes at `i` and `j`.
    #[verifier::rlimit(100)]
    fn plan_step(&mut self, i: usize, j: usize, Ghost(from): Ghost<int>)
        requires
            old(self).wf(),
            i < old(self).entries.len(),
            j < old(self).entries.len(),
            0 <= from <= old(self).events.len(),
            old(self).partners_below(i as int, j as int),
            old(self).fresh_from(from, i as int),
            old(self).planned_below(i as int, j as int),
        ensures
            final(self).wf(),
            final(self).time == old(self).time,
            final(self).padding == old(self).padding,
            final(self).entries == old(self).entries,
            final(self).overlaps == old(self).overlaps,
            old(self).events.len() <= final(self).events.len(),
            forall|k: int| 0 <= k < old(self).events.len() ==> #[trigger] final(self).events@[k] == old(self).events@[k],
            final(self).partners_below(i as int, j + 1),
            final(self).fresh_from(from, i as int),
            final(self).planned_below(i as int, j + 1),
    {
        let ghost ev_before = self.events@;
        let ghost self_before = *self;
        if j != i {
            match self.plan_pair(i, j) {
                Some(e) => {
                    proof {
                        assert forall|k: int| 0 <= k < ev_before.len() implies distinct_pairs(
                            #[trigger] ev_before[k],
                            e,
                        ) by {
                            if ev_before[k].a == e.a && ev_before[k].b == e.b {
                                assert(self.events@[k] == ev_before[k]);
                                let m = choose|m: int|
                                    0 <= m < j && m != i && (#[trigger] self.entries@[m].id
                                        == ev_before[k].a || self.entries@[m].id == ev_before[k].b);
                                lemma_unique_index(self, j as int, self.entries@[j as int].id);
                                lemma_unique_index(self, i as int, self.entries@[i as int].id);
                                lemma_unique_index(self, m, self.entries@[m].id);
                            }
                        }
                    }
                    self.events.push(e);
                    proof {
                        assert forall|k1: int, k2: int|
                            0 <= k1 < k2 < self.events.len() implies distinct_pairs(
                            #[trigger] self.events@[k1],
                            #[trigger] self.events@[k2],
                        ) by {
                            assert(self.events@[k1] == ev_before[k1]);
                            if k2 < ev_before.len() {
                                assert(self.events@[k2] == ev_before[k2]);
                            }
                        }
                        assert(self.events@[ev_before.len() as int] == e);
                    }
                },
                None => {},
            }
        }
        proof {
            assert(step_ok(self_before, *self, i as int, j as int));
            lemma_step_partners(self_before, *self, i as int, j as int);
            lemma_step_fresh(self_before, *self, i as int, j as int, from);
            lemma_step_planned(self_before, *self, i as int, j as int);
        }
    }

    /// Plans the pending events of the hitbox at `i` with every other, which
    /// must have none yet.
    fn plan_for(&mut self, i: usize)
        requires
            old(self).wf(),
            i < old(self).entries.len(),
            forall|k: int|
                0 <= k < old(self).events.len() ==> (#[trigger] old(self).events@[k]).a != old(self).entries@[i as int].id
                    && old(self).events@[k].b != old(self).entries@[i as int].id,
        ensures
            final(self).wf(),
            final(self).time == old(self).time,
            final(self).padding == old(self).padding,
            final(self).entries == old(self).entries,
            final(self).overlaps == old(self).overlaps,
            old(self).events.len() <= final(self).events.len(),
            forall|k: int| 0 <= k < old(self).events.len() ==> #[trigger] final(self).events@[k] == old(self).events@[k],
            final(self).fresh_from(old(self).events.len() as int, i as int),
            final(self).planned_below(i as int, final(self).entries.len() as int),
    {
        let ghost from = self.events.len() as int;
        let mut j: usize = 0;
        while j < self.entries.len()
            invariant
                self.wf(),
                i < self.entries.len(),
                0 <= j <= self.entries.len(),
                self.time == old(self).time,
                self.padding == old(self).padding,
                self.entries == old(self).entries,
                self.overlaps == old(self).overlaps,
                from == old(self).events.len(),
                from <= self.events.len(),
                forall|k: int| 0 <= k < from ==> #[trigger] self.events@[k] == old(self).events@[k],
                self.partners_below(i as int, j as int),
                self.fresh_from(from, i as int),
                self.planned_below(i as int, j as int),
            decreases self.entries.len() - j,
        {
            let ghost ev_before = self.events@;
            self.plan_step(i, j, Ghost(from));
            assert forall|k: int| 0 <= k < from implies #[trigger] self.events@[k] == old(self).events@[k] by {
                assert(self.events@[k] == ev_before[k]);
            }
            j = j + 1;
        }
    }

    /// Adds a hitbox for `profile`, whose shape is given at the current
    /// time. Returns the profiles of the hitboxes that it overlaps now, or an
    /// error when its identity is taken.
    pub fn add_hitbox(&mut self, profile: P, hitbox: Hitbox) -> (r: Result<Vec<P>, ColliderError>)
        requires
            old(self).wf(),
            hitbox.wf(),
        ensures
            final(self).wf(),
            final(self).time_spec() == old(self).time_spec(),
            r is Err <==> old(self).has_id(profile.id_spec()),
            r is Err ==> *final(self) == *old(self),
            r is Ok ==> forall|id: HbId|
                #[trigger] final(self).has_id(id) == (old(self).has_id(id) || id == profile.id_spec()),
            r is Ok ==> final(self).hitbox_spec(profile.id_spec()) == hitbox
                && final(self).profile_spec(profile.id_spec()) == profile,
            r matches Ok(v) ==> forall|p: P| v@.contains(p) <==> old(self).add_match(hitbox.value, profile, p),
            r is Ok ==> final(self).planned_for(profile.id_spec()),
    {
        let id = profile.id();
        if self.find(id).is_some() {
            return Err(ColliderError::DuplicateId);
        }
        let ghost old_entries = self.entries@;
        let n = self.entries.len();
        self.entries.push(Entry { id, profile, hitbox, origin: self.time });
        assert forall|x: HbId| self.has_id(x) == (old(self).has_id(x) || x == id) by {
            if old(self).has_id(x) {
                let i = choose|i: int| 0 <= i < old_entries.len() && #[trigger] old_entries[i].id == x;
                assert(self.entries@[i].id == x);
            }
            if self.has_id(x) && x != id {
                let i = choose|i: int| 0 <= i < self.entries.len() && #[trigger] self.entries@[i].id == x;
                assert(old_entries[i].id == x);
            }
            if x == id {
                assert(self.entries@[n as int].id == x);
            }
        }
        assert(self.wf());
        let ghost pushed = self.entries@;
        let mut result: Vec<P> = Vec::new();
        let new_shape = hitbox.value;
        let mut j: usize = 0;
        while j < n
            invariant
                self.wf(),
                n < self.entries.len(),
                0 <= j <= n,
                n == old(self).entries.len(),
                placed_in_range(new_shape),
                new_shape == hitbox.value,
                self.time == old(self).time,
                self.entries@ == pushed,
                forall|i: int| 0 <= i < n ==> #[trigger] pushed[i] == old(self).entries@[i],
                self.events == old(self).events,
                forall|x: HbId| #[trigger] seq_has_id(pushed, x) == (old(self).has_id(x) || x == id),
                forall|m: int|
                    0 <= m < result.len() ==> old(self).add_match(new_shape, profile, #[trigger] result@[m]),
                forall|i: int|
                    0 <= i < j && profile.interacts(&old(self).entries@[i].profile)
                        && #[trigger] shape_overlaps_entry(new_shape, old(self).entries@[i], self.time@)
                        ==> result@.contains(old(self).entries@[i].profile),
            decreases n - j,
        {
            let pj = self.entries[j].profile;
            let ghost before = result@;
            assert(pushed[j as int] == old(self).entries@[j as int]);
            if profile.can_interact(&pj) {
                let other = self.current(j).value;
                if new_shape.overlaps(&other) {
                    let other_id = self.entries[j].id;
                    self.overlaps.push((other_id, id));
                    result.push(pj);
                    proof {
                        assert(shape_overlaps_entry(new_shape, old(self).entries@[j as int], self.time@));
                        assert(result@[before.len() as int] == pj);
                    }
                }
            }
            proof {
                assert forall|m: int| 0 <= m < before.len() implies before[m] == #[trigger] result@[m] by {
                }
                assert forall|m: int| 0 <= m < result.len() implies old(self).add_match(
                    new_shape,
                    profile,
                    #[trigger] result@[m],
                ) by {
                    if m < before.len() {
                        assert(result@[m] == before[m]);
                    }
                }
                assert forall|i: int|
                    0 <= i < j + 1 && profile.interacts(&old(self).entries@[i].profile)
                        && #[trigger] shape_overlaps_entry(new_shape, old(self).entries@[i], self.time@)
                        implies result@.contains(old(self).entries@[i].profile) by {
                    if i < j {
                        let m = choose|m: int|
                            0 <= m < before.len() && before[m] == old(self).entries@[i].profile;
                        assert(result@[m] == before[m]);
                    } else {
                        assert(result@[before.len() as int] == pj);
                    }
                }
            }
            j = j + 1;
        }
        proof {
            assert forall|p: P| old(self).add_match(new_shape, profile, p) implies result@.contains(p) by {
                let i = choose|i: int|
                    0 <= i < old(self).entries.len() && old(self).entries@[i].profile == p
                        && profile.interacts(&p) && #[trigger] shape_overlaps_entry(
                        new_shape,
                        old(self).entries@[i],
                        old(self).time@,
                    );
            }
            assert forall|p: P| result@.contains(p) implies old(self).add_match(new_shape, profile, p) by {
                let m = choose|m: int| 0 <= m < result.len() && result@[m] == p;
            }
        }
        assert forall|k: int| 0 <= k < self.events.len() implies (#[trigger] self.events@[k]).a
            != self.entries@[n as int].id && self.events@[k].b != self.entries@[n as int].id by {
            assert(old(self).events@[k] == self.events@[k]);
            assert(old(self).has_id(self.events@[k].a) && old(self).has_id(self.events@[k].b));
        }
        let ghost before_plan = self.events@;
        self.plan_for(n);
        proof {
            assert forall|k: int| 0 <= k < before_plan.len() implies (#[trigger] self.events@[k]).a != id
                && self.events@[k].b != id by {
                assert(self.events@[k] == before_plan[k]);
                assert(old(self).events@[k] == before_plan[k]);
                assert(old(self).has_id(before_plan[k].a) && old(self).has_id(before_plan[k].b));
            }
            lemma_planned(*self, n as int, before_plan.len() as int);
            assert(self.entries@ == pushed);
            assert forall|x: HbId| #[trigger] self.has_id(x) == (old(self).has_id(x) || x == id) by {
                assert(seq_has_id(pushed, x) == (old(self).has_id(x) || x == id));
            }
            lemma_index_of(*self, n as int);
            lemma_advance_zero(hitbox.value, hitbox.vel.value, hitbox.vel.resize);
        }
        Ok(result)
    }

    /// Removes the hitbox `id`. Returns the profiles of the hitboxes recorded
    /// as overlapping it.
    pub fn remove_hitbox(&mut self, id: HbId) -> (r: Vec<P>)
        requires
            old(self).wf(),
            old(self).has_id(id),
        ensures
            final(self).wf(),
            final(self).time_spec() == old(self).time_spec(),
            forall|x: HbId| #[trigger] final(self).has_id(x) == (old(self).has_id(x) && x != id),
            forall|p: P| r@.contains(p) <==> old(self).partner_profile(id, p),
            forall|a: HbId, b: HbId|
                #[trigger] final(self).overlapping(a, b) ==> old(self).overlapping(a, b) && a != id
                    && b != id,
    {
        let result = self.get_overlaps(id);
        let mut kept: Vec<(HbId, HbId)> = Vec::new();
        let mut k: usize = 0;
        while k < self.overlaps.len()
            invariant
                0 <= k <= self.overlaps.len(),
                forall|j: int|
                    0 <= j < kept.len() ==> (#[trigger] kept@[j]).0 != id && kept@[j].1 != id
                        && exists|m: int| 0 <= m < k && self.overlaps@[m] == kept@[j],
            decreases self.overlaps.len() - k,
        {
            let (x, y) = self.overlaps[k];
            if x != id && y != id {
                kept.push((x, y));
            }
            k = k + 1;
        }
        let ghost old_overlaps = self.overlaps@;
        self.overlaps = kept;
        assert forall|a: HbId, b: HbId| #[trigger] self.overlapping(a, b) implies old(self).overlapping(a, b) && a != id && b != id by {
            let j = choose|j: int|
                0 <= j < self.overlaps.len() && (#[trigger] self.overlaps@[j] == (a, b)
                    || self.overlaps@[j] == (b, a));
            let m = choose|m: int| 0 <= m < old_overlaps.len() && old_overlaps[m] == self.overlaps@[j];
            assert(old_overlaps[m] == (a, b) || old_overlaps[m] == (b, a));
        }
        self.purge_events(id);
        let i = match self.find(id) {
            Some(i) => i,
            None => {
                return vstd::pervasive::unreached();
            },
        };
        let ghost old_entries = self.entries@;
        self.entries.remove(i);
        assert forall|x: HbId| #[trigger] self.has_id(x) == (old(self).has_id(x) && x != id) by {
            if self.has_id(x) {
                let j = choose|j: int| 0 <= j < self.entries.len() && #[trigger] self.entries@[j].id == x;
                if j < i {
                    assert(old_entries[j].id == x);
                } else {
                    assert(old_entries[j + 1].id == x);
                }
                assert(x != id);
            }
            if old(self).has_id(x) && x != id {
                let j = choose|j: int| 0 <= j < old_entries.len() && #[trigger] old_entries[j].id == x;
                if j < i {
                    assert(self.entries@[j].id == x);
                } else {
                    assert(j != i);
                    assert(self.entries@[j - 1].id == x);
                }
            }
        }
        result
    }
}

impl<P: HbProfile> Collider<P> {
    /// The number of pending events.
    pub closed spec fn pending_len(&self) -> int {
        self.events.len() as int
    }

    /// The pair, smaller identity first, of the pending event at position `k`.
    pub closed spec fn pending_pair(&self, k: int) -> (HbId, HbId) {
        (self.events@[k].a, self.events@[k].b)
    }
}

/// A pair of hitboxes has at most one pending event, and it is a pair of
/// hitboxes in the engine.
pub proof fn lemma_one_event_per_pair<P: HbProfile>(c: &Collider<P>)
    requires
        c.wf(),
    ensures
        forall|k1: int, k2: int|
            0 <= k1 < k2 < c.pending_len() ==> #[trigger] c.pending_pair(k1)
                != #[trigger] c.pending_pair(k2),
        forall|k: int|
            0 <= k < c.pending_len() ==> c.has_id(#[trigger] c.pending_pair(k).0) && c.has_id(
                c.pending_pair(k).1,
            ) && c.pending_pair(k).0 < c.pending_pair(k).1,
{
    assert forall|k1: int, k2: int| 0 <= k1 < k2 < c.pending_len() implies #[trigger] c.pending_pair(
        k1,
    ) != #[trigger] c.pending_pair(k2) by {
        assert(distinct_pairs(c.events@[k1], c.events@[k2]));
    }
    assert forall|k: int| 0 <= k < c.pending_len() implies c.has_id(#[trigger] c.pending_pair(k).0)
        && c.has_id(c.pending_pair(k).1) && c.pending_pair(k).0 < c.pending_pair(k).1 by {
        assert(c.events@[k].time.wf());
    }
}

impl<P: HbProfile> Collider<P> {
    /// The pending events of `id` are planned: every pending event of `id`
    /// falls at now plus the solver's answer for its pair; every other
    /// hitbox that `id`'s profile interacts with, and that the solver meets
    /// before infinity, has a pending event with `id` at that time; and no
    /// pair has two pending events.
    pub open spec fn planned_for(&self, id: HbId) -> bool {
        &&& forall|k: int|
            0 <= k < self.pending_len() && (self.pending_pair(k).0 == id || self.pending_pair(k).1
                == id) ==> self.pending_time(k) == add_spec(
                self.time_spec(),
                self.pair_dt((#[trigger] self.pending_pair(k)).0, self.pending_pair(k).1),
            )
        &&& forall|x: HbId|
            x != id && self.has_id(x) && self.profile_spec(id).interacts(&self.profile_spec(x))
                && #[trigger] self.pair_dt(ordered(id, x).0, ordered(id, x).1) < LIMIT
                ==> self.has_pending_event(
                ordered(id, x),
                add_spec(self.time_spec(), self.pair_dt(ordered(id, x).0, ordered(id, x).1)),
            )
        &&& forall|k1: int, k2: int|
            0 <= k1 < k2 < self.pending_len() ==> #[trigger] self.pending_pair(k1)
                != #[trigger] self.pending_pair(k2)
    }
}

/// After planning the hitbox at `i` on events that, before `from`, do not
/// involve it, its events are planned.
proof fn lemma_planned<P: HbProfile>(c: Collider<P>, i: int, from: int)
    requires
        c.wf(),
        0 <= i < c.entries.len(),
        0 <= from <= c.events.len(),
        forall|k: int|
            0 <= k < from ==> (#[trigger] c.events@[k]).a != c.entries@[i].id && c.events@[k].b
                != c.entries@[i].id,
        c.fresh_from(from, i),
        c.planned_below(i, c.entries.len() as int),
    ensures
        c.planned_for(c.entries@[i].id),
{
    let id = c.entries@[i].id;
    lemma_one_event_per_pair(&c);
    assert forall|k: int|
        0 <= k < c.pending_len() && (c.pending_pair(k).0 == id || c.pending_pair(k).1 == id)
            implies c.pending_time(k) == add_spec(
        c.time_spec(),
        c.pair_dt((#[trigger] c.pending_pair(k)).0, c.pending_pair(k).1),
    ) by {
        if k < from {
            assert(c.events@[k].a != id && c.events@[k].b != id);
        }
    }
    assert forall|x: HbId|
        x != id && c.has_id(x) && c.profile_spec(id).interacts(&c.profile_spec(x))
            && #[trigger] c.pair_dt(ordered(id, x).0, ordered(id, x).1) < LIMIT
            implies c.has_pending_event(
        ordered(id, x),
        add_spec(c.time_spec(), c.pair_dt(ordered(id, x).0, ordered(id, x).1)),
    ) by {
        let j = choose|j: int| 0 <= j < c.entries.len() && #[trigger] c.entries@[j].id == x;
        lemma_index_of(c, j);
        lemma_index_of(c, i);
        assert(j != i);
        assert(c.has_pair(ordered(c.entries@[i].id, c.entries@[j].id)));
        let k = choose|k: int|
            0 <= k < c.events.len() && (#[trigger] c.events@[k]).a == ordered(id, x).0
                && c.events@[k].b == ordered(id, x).1;
        assert(c.pending_pair(k) == ordered(id, x));
        if k < from {
            assert(c.events@[k].a != id && c.events@[k].b != id);
        }
    }
}

/// Overlap is recorded for unordered pairs: it holds of `a` with `b` exactly
/// when it holds of `b` with `a`.
pub proof fn lemma_overlapping_symmetric<P: HbProfile>(c: &Collider<P>, a: HbId, b: HbId)
    ensures
        c.overlapping(a, b) == c.overlapping(b, a),
{
}

/// In a consistent engine, an identity sits at one index only.
proof fn lemma_unique_index<P: HbProfile>(c: &Collider<P>, j: int, id: HbId)
    requires
        c.wf(),
        0 <= j < c.entries.len(),
        c.entries@[j].id == id,
    ensures
        forall|i: int| 0 <= i < c.entries.len() && #[trigger] c.entries@[i].id == id ==> i == j,
{
    assert forall|i: int| 0 <= i < c.entries.len() && #[trigger] c.entries@[i].id == id implies i == j by {
        if i < j {
            assert(c.entries@[i].id != c.entries@[j].id);
        } else if j < i {
            assert(c.entries@[j].id != c.entries@[i].id);
        }
    }
}

impl<P: HbProfile> Collider<P> {
    /// The profile of the hitbox `id`.
    pub closed spec fn profile_spec(&self, id: HbId) -> P {
        let i = choose|i: int| 0 <= i < self.entries.len() && #[trigger] self.entries@[i].id == id;
        self.entries@[i].profile
    }

    /// The hitbox `id` as it is now: its shape at the current time, and its
    /// motion.
    pub closed spec fn hitbox_spec(&self, id: HbId) -> Hitbox {
        let i = choose|i: int| 0 <= i < self.entries.len() && #[trigger] self.entries@[i].id == id;
        Hitbox {
            value: entry_dur(self.entries@[i], self.time@).value,
            vel: self.entries@[i].hitbox.vel,
        }
    }

    /// If the clock stands at the earliest pending event (ties broken by the
    /// pair's identities), takes it out of the queue and returns it with the
    /// profiles of its pair, smaller identity first. Records the pair as
    /// overlapping after a collision and apart after a separation, plans the
    /// pair's next event from now, and keeps every other pending event. The clock does not move, so the events come out in the
    /// order of their times.
    #[verifier::rlimit(100)]
    pub fn next(&mut self) -> (r: Option<(HbEvent, P, P)>)
        requires
            old(self).wf(),
        ensures
            final(self).wf(),
            final(self).time_spec() == old(self).time_spec(),
            r is Some <==> old(self).has_pending() && old(self).next_time_spec()
                == old(self).time_spec(),
            forall|x: HbId| #[trigger] final(self).has_id(x) == old(self).has_id(x),
            r matches Some((kind, pa, pb)) ==> exists|a: HbId, b: HbId|
                #![trigger final(self).profile_spec(a), final(self).profile_spec(b)]
                final(self).has_id(a) && final(self).has_id(b) && a < b
                    && final(self).profile_spec(a) == pa && final(self).profile_spec(b) == pb && (
                kind == HbEvent::Collide ==> final(self).overlapping(a, b)) && (kind
                    == HbEvent::Separate ==> !final(self).overlapping(a, b)),
            r matches Some((kind, pa, pb)) ==> exists|k: int|
                #![trigger old(self).pending_pair(k)]
                0 <= k < old(self).pending_len() && old(self).pending_time(k) == old(self).time_spec()
                    && old(self).profile_spec(old(self).pending_pair(k).0) == pa && old(
                    self).profile_spec(old(self).pending_pair(k).1) == pb && (forall|k2: int|
                    0 <= k2 < old(self).pending_len() ==> event_first(
                        old(self).pending_time(k),
                        old(self).pending_pair(k),
                        old(self).pending_time(k2),
                        #[trigger] old(self).pending_pair(k2),
                    )) && (forall|k2: int|
                    0 <= k2 < old(self).pending_len() && k2 != k ==> final(self).has_pending_event(
                        #[trigger] old(self).pending_pair(k2),
                        old(self).pending_time(k2),
                    )) && (forall|k3: int|
                    0 <= k3 < final(self).pending_len() && #[trigger] final(self).pending_pair(k3)
                        == old(self).pending_pair(k) ==> final(self).pending_time(k3) == add_spec(
                        final(self).time_spec(),
                        final(self).pair_dt(old(self).pending_pair(k).0, old(self).pending_pair(k).1),
                    )),
    {
        let next_time = self.next_time();
        if self.events.len() == 0 || next_time.raw != self.time.raw {
            return None;
        }
        proof {
            assert forall|k: int| 0 <= k < self.events.len() implies self.time@
                <= #[trigger] self.events@[k].time@ <= LIMIT by {
                assert(self.events@[k].time.wf());
            }
            lemma_min_time_bounds(self.events@, self.time@);
        }
        let mut best: usize = 0;
        let mut k: usize = 1;
        while k < self.events.len()
            invariant
                self.wf(),
                0 <= best < k,
                1 <= k <= self.events.len(),
                forall|m: int|
                    0 <= m < k ==> event_first(
                        self.events@[best as int].time@,
                        (self.events@[best as int].a, self.events@[best as int].b),
                        #[trigger] self.events@[m].time@,
                        (self.events@[m].a, self.events@[m].b),
                    ),
            decreases self.events.len() - k,
        {
            let e = self.events[k];
            let f = self.events[best];
            if e.time.raw < f.time.raw || (e.time.raw == f.time.raw && (e.a < f.a || (e.a == f.a
                && e.b < f.b))) {
                best = k;
            }
            k = k + 1;
        }
        let event = self.events[best];
        assert(self.events@[best as int].time.wf());
        assert(self.has_id(event.a) && self.has_id(event.b));
        let ia = self.find(event.a);
        let ib = self.find(event.b);
        let (ia, ib) = match (ia, ib) {
            (Some(ia), Some(ib)) => (ia, ib),
            _ => {
                return vstd::pervasive::unreached();
            },
        };
        assert(event.a < event.b);
        let ghost before = self.events@;
        proof {
            let w = choose|w: int| 0 <= w < before.len() && #[trigger] before[w].time@ == min_time(before);
            assert(event_first(event.time@, (event.a, event.b), before[w].time@, (before[w].a, before[w].b)));
            assert(event.time@ == self.time@);
            lemma_index_of(*self, ia as int);
            lemma_index_of(*self, ib as int);
        }
        self.events.remove(best);
        assert forall|k: int| 0 <= k < self.events.len() implies (#[trigger] self.events@[k]).time.wf()
            && self.events@[k].time@ >= self.time@ && self.has_id(self.events@[k].a)
            && self.has_id(self.events@[k].b) && self.events@[k].a < self.events@[k].b by {
            if k < best {
                assert(self.events@[k] == before[k]);
            } else {
                assert(self.events@[k] == before[k + 1]);
            }
        }
        match event.kind {
            HbEvent::Collide => {
                self.overlaps.push((event.a, event.b));
            },
            HbEvent::Separate => {
                let mut kept: Vec<(HbId, HbId)> = Vec::new();
                let mut m: usize = 0;
                while m < self.overlaps.len()
                    invariant
                        0 <= m <= self.overlaps.len(),
                        forall|j: int|
                            0 <= j < kept.len() ==> #[trigger] kept@[j] != (event.a, event.b)
                                && kept@[j] != (event.b, event.a),
                    decreases self.overlaps.len() - m,
                {
                    let (x, y) = self.overlaps[m];
                    if !((x == event.a && y == event.b) || (x == event.b && y == event.a)) {
                        kept.push((x, y));
                    }
                    m = m + 1;
                }
                self.overlaps = kept;
            },
        }
        let ghost removed = self.events@;
        let ghost planning = *self;
        match self.plan_pair(ia, ib) {
            Some(e) => {
                self.events.push(e);
            },
            None => {},
        }
        proof {
            assert(planning.entries@ == self.entries@ && planning.overlaps@ == self.overlaps@);
            assert forall|k2: int| 0 <= k2 < before.len() && k2 != best implies self.has_pending_event(
                (before[k2].a, before[k2].b),
                before[k2].time@,
            ) by {
                let q = if k2 < best {
                    k2
                } else {
                    k2 - 1
                };
                assert(removed[q] == before[k2]);
                assert(self.events@[q] == removed[q]);
            }
            assert forall|k3: int|
                0 <= k3 < self.events.len() && (self.events@[k3].a, self.events@[k3].b) == (
                    event.a,
                    event.b,
                ) implies #[trigger] self.events@[k3].time@ == add_spec(
                self.time@,
                self.pair_dt(event.a, event.b),
            ) by {
                if k3 < removed.len() {
                    let q = if k3 < best {
                        k3
                    } else {
                        k3 + 1
                    };
                    assert(removed[k3] == before[q]);
                    assert(self.events@[k3] == removed[k3]);
                    if q < best {
                        assert(distinct_pairs(before[q], before[best as int]));
                    } else {
                        assert(distinct_pairs(before[best as int], before[q]));
                    }
                }
            }
            assert(old(self).pending_pair(best as int) == (event.a, event.b));
            assert(old(self).pending_time(best as int) == old(self).time_spec());
            assert forall|k2: int| 0 <= k2 < old(self).pending_len() implies event_first(
                old(self).pending_time(best as int),
                old(self).pending_pair(best as int),
                old(self).pending_time(k2),
                #[trigger] old(self).pending_pair(k2),
            ) by {
                assert(event_first(
                    before[best as int].time@,
                    (before[best as int].a, before[best as int].b),
                    before[k2].time@,
                    (before[k2].a, before[k2].b),
                ));
            }
            lemma_unique_index(self, ia as int, event.a);
            lemma_unique_index(self, ib as int, event.b);
            assert(self.profile_spec(event.a) == self.entries@[ia as int].profile);
            assert(self.profile_spec(event.b) == self.entries@[ib as int].profile);
            if event.kind == HbEvent::Collide {
                assert(self.overlaps@[self.overlaps.len() - 1] == (event.a, event.b));
            }
            assert(self.has_id(event.a) && self.has_id(event.b) && event.a < event.b
                && self.profile_spec(event.a) == self.entries@[ia as int].profile
                && self.profile_spec(event.b) == self.entries@[ib as int].profile && (event.kind
                == HbEvent::Collide ==> self.overlapping(event.a, event.b)) && (event.kind
                == HbEvent::Separate ==> !self.overlapping(event.a, event.b)));
        }
        Some((event.kind, self.entries[ia].profile, self.entries[ib].profile))
    }

    /// The hitbox `id` as it is now.
    pub fn get_hitbox(&self, id: HbId) -> (r: Hitbox)
        requires
            self.wf(),
            self.has_id(id),
        ensures
            r == self.hitbox_spec(id),
    {
        let i = match self.find(id) {
            Some(i) => i,
            None => {
                return vstd::pervasive::unreached();
            },
        };
        proof {
            let c = choose|c: int| 0 <= c < self.entries.len() && #[trigger] self.entries@[c].id == id;
            if c != i {
                if c < i {
                    assert(self.entries@[c].id != self.entries@[i as int].id);
                } else {
                    assert(self.entries@[i as int].id != self.entries@[c].id);
                }
            }
        }
        let now = self.current(i);
        Hitbox { value: now.value, vel: self.entries[i].hitbox.vel }
    }

    /// Gives the hitbox `id` a new motion from now on.
    pub fn set_hitbox_vel(&mut self, id: HbId, vel: HbVel)
        requires
            old(self).wf(),
            old(self).has_id(id),
            vel.in_range(),
            old(self).hitbox_spec(id).value.shape.kind == ShapeKind::Circle ==> vel.resize.x
                == vel.resize.y,
        ensures
            final(self).wf(),
            final(self).time_spec() == old(self).time_spec(),
            forall|x: HbId| #[trigger] final(self).has_id(x) == old(self).has_id(x),
            final(self).hitbox_spec(id).vel == vel,
            final(self).hitbox_spec(id).value == old(self).hitbox_spec(id).value,
            final(self).profile_spec(id) == old(self).profile_spec(id),
            forall|x: HbId|
                x != id && old(self).has_id(x) ==> #[trigger] final(self).hitbox_spec(x)
                    == old(self).hitbox_spec(x) && final(self).profile_spec(x) == old(self).profile_spec(x),
            forall|a: HbId, b: HbId| final(self).overlapping(a, b) == old(self).overlapping(a, b),
            forall|k: int|
                0 <= k < old(self).pending_len() && old(self).pending_pair(k).0 != id
                    && old(self).pending_pair(k).1 != id ==> final(self).has_pending_event(
                    #[trigger] old(self).pending_pair(k),
                    old(self).pending_time(k),
                ),
            final(self).planned_for(id),
    {
        let i = match self.find(id) {
            Some(i) => i,
            None => {
                return vstd::pervasive::unreached();
            },
        };
        let now = self.current(i).value;
        let profile = self.entries[i].profile;
        let ghost before = self.entries@;
        self.entries.set(i, Entry { id, profile, hitbox: Hitbox { value: now, vel }, origin: self.time });
        assert forall|x: HbId| #[trigger] seq_has_id(self.entries@, x) == old(self).has_id(x) by {
            if seq_has_id(self.entries@, x) {
                let j = choose|j: int| 0 <= j < self.entries.len() && #[trigger] self.entries@[j].id == x;
                assert(before[j].id == x);
            }
            if old(self).has_id(x) {
                let j = choose|j: int| 0 <= j < before.len() && #[trigger] before[j].id == x;
                assert(self.entries@[j].id == x);
            }
        }
        assert forall|a: int, b: int| 0 <= a < b < self.entries.len() implies #[trigger] self.entries@[a].id
            != #[trigger] self.entries@[b].id by {
            assert(before[a].id != before[b].id);
        }
        proof {
            assert(self.entries@[i as int].id == id);
            let c = choose|c: int| 0 <= c < self.entries.len() && #[trigger] self.entries@[c].id == id;
            if c != i {
                if c < i {
                    assert(self.entries@[c].id != self.entries@[i as int].id);
                } else {
                    assert(self.entries@[i as int].id != self.entries@[c].id);
                }
            }
        }
        let ghost set_entries = self.entries@;
        let ghost set_events = self.events@;
        self.purge_events(id);
        let ghost purged = self.events@;
        self.plan_for(i);
        proof {
            assert forall|k: int|
                0 <= k < old(self).pending_len() && old(self).pending_pair(k).0 != id
                    && old(self).pending_pair(k).1 != id implies self.has_pending_event(
                #[trigger] old(self).pending_pair(k),
                old(self).pending_time(k),
            ) by {
                assert(set_events[k] == old(self).events@[k]);
                assert(purged.contains(set_events[k]));
                let q = choose|q: int| 0 <= q < purged.len() && purged[q] == set_events[k];
                assert(self.events@[q] == purged[q]);
            }
            assert forall|k: int| 0 <= k < purged.len() implies (#[trigger] self.events@[k]).a != id
                && self.events@[k].b != id by {
                assert(self.events@[k] == purged[k]);
            }
            lemma_planned(*self, i as int, purged.len() as int);
        }
        assert(self.entries@ == set_entries);
        assert forall|x: HbId| #[trigger] self.has_id(x) == old(self).has_id(x) by {
            assert(seq_has_id(set_entries, x) == old(self).has_id(x));
        }
        proof {
            assert(self.overlaps@ == old(self).overlaps@);
            lemma_index_of(*self, i as int);
            lemma_index_of(*old(self), i as int);
            lemma_advance_zero(now, vel.value, vel.resize);
            assert forall|x: HbId| x != id && old(self).has_id(x) implies #[trigger] self.hitbox_spec(x)
                == old(self).hitbox_spec(x) && self.profile_spec(x) == old(self).profile_spec(x) by {
                let j = choose|j: int| 0 <= j < before.len() && #[trigger] before[j].id == x;
                assert(j != i);
                assert(self.entries@[j] == before[j]);
                lemma_index_of(*self, j);
                lemma_index_of(*old(self), j);
            }
        }
    }

    /// Whether the pair `a`, `b` is recorded as overlapping.
    pub fn is_overlapping(&self, a: HbId, b: HbId) -> (r: bool)
        ensures
            r == self.overlapping(a, b),
    {
        self.pair_overlapping(a, b)
    }

    /// `p` is the profile of a hitbox recorded as overlapping `id`.
    pub closed spec fn partner_profile(&self, id: HbId, p: P) -> bool {
        exists|j: int|
            0 <= j < self.entries.len() && self.entries@[j].profile == p && #[trigger] self.overlapping(
                id,
                self.entries@[j].id,
            )
    }

    /// `p` is the profile of a hitbox that interacts with `profile` and whose
    /// shape overlaps `shape` now.
    pub closed spec fn query_match(&self, shape: PlacedShape, profile: P, p: P) -> bool {
        exists|j: int|
            0 <= j < self.entries.len() && self.entries@[j].profile == p && p.interacts(&profile)
                && #[trigger] shape_overlaps_entry(shape, self.entries@[j], self.time@)
    }

    /// `p` is the profile of a hitbox that `profile` interacts with and whose
    /// shape overlaps `shape` now.
    pub closed spec fn add_match(&self, shape: PlacedShape, profile: P, p: P) -> bool {
        exists|j: int|
            0 <= j < self.entries.len() && self.entries@[j].profile == p && profile.interacts(&p)
                && #[trigger] shape_overlaps_entry(shape, self.entries@[j], self.time@)
    }

    /// The profiles of the hitboxes recorded as overlapping `id`.
    pub fn get_overlaps(&self, id: HbId) -> (r: Vec<P>)
        requires
            self.wf(),
        ensures
            forall|k: int| 0 <= k < r.len() ==> self.partner_profile(id, #[trigger] r@[k]),
            forall|p: P| self.partner_profile(id, p) ==> r@.contains(p),
    {
        let mut result: Vec<P> = Vec::new();
        let mut k: usize = 0;
        while k < self.overlaps.len()
            invariant
                self.wf(),
                0 <= k <= self.overlaps.len(),
                forall|m: int| 0 <= m < result.len() ==> self.partner_profile(id, #[trigger] result@[m]),
                forall|m: int, j: int|
                    0 <= m < k && 0 <= j < self.entries.len() && (#[trigger] self.overlaps@[m] == (
                        id,
                        #[trigger] self.entries@[j].id,
                    ) || self.overlaps@[m] == (self.entries@[j].id, id)) ==> result@.contains(
                        self.entries@[j].profile,
                    ),
            decreases self.overlaps.len() - k,
        {
            let (x, y) = self.overlaps[k];
            let ghost prev = result@;
            let ghost partner = if x == id {
                y
            } else {
                x
            };
            if x == id || y == id {
                let other = if x == id {
                    y
                } else {
                    x
                };
                match self.find(other) {
                    Some(j) => {
                        result.push(self.entries[j].profile);
                        proof {
                            assert(self.overlapping(id, self.entries@[j as int].id)) by {
                                assert(self.overlaps@[k as int] == (id, other)
                                    || self.overlaps@[k as int] == (other, id));
                            }
                            assert forall|m: int| 0 <= m < result.len() implies self.partner_profile(
                                id,
                                #[trigger] result@[m],
                            ) by {
                                if m < prev.len() {
                                    assert(result@[m] == prev[m]);
                                }
                            }
                            lemma_unique_index(self, j as int, other);
                            assert(result@[prev.len() as int] == self.entries@[j as int].profile);
                        }
                    },
                    None => {},
                }
            }
            proof {
                assert forall|i: int| 0 <= i < prev.len() implies prev[i] == #[trigger] result@[i] by {
                }
                assert forall|m: int, j: int|
                    0 <= m < k + 1 && 0 <= j < self.entries.len() && (#[trigger] self.overlaps@[m] == (
                        id,
                        #[trigger] self.entries@[j].id,
                    ) || self.overlaps@[m] == (self.entries@[j].id, id)) implies result@.contains(
                    self.entries@[j].profile,
                ) by {
                    if m < k {
                        assert(prev.contains(self.entries@[j].profile));
                        let i = choose|i: int| 0 <= i < prev.len() && prev[i] == self.entries@[j].profile;
                        assert(result@[i] == prev[i]);
                    } else {
                        assert(partner == self.entries@[j].id);
                        assert(self.has_id(partner));
                        lemma_unique_index(self, j, partner);
                        assert(result@.last() == self.entries@[j].profile);
                        assert(result@[result.len() - 1] == self.entries@[j].profile);
                    }
                }
            }
            k = k + 1;
        }
        proof {
            assert forall|p: P| self.partner_profile(id, p) implies result@.contains(p) by {
                let j = choose|j: int|
                    0 <= j < self.entries.len() && self.entries@[j].profile == p && #[trigger] self.overlapping(
                        id,
                        self.entries@[j].id,
                    );
                let m = choose|m: int|
                    0 <= m < self.overlaps.len() && (#[trigger] self.overlaps@[m] == (id, self.entries@[j].id)
                        || self.overlaps@[m] == (self.entries@[j].id, id));
            }
        }
        result
    }

    /// The profiles of the hitboxes that interact with `profile` and overlap
    /// `shape` now. The engine is not changed.
    pub fn query_overlaps(&self, shape: &PlacedShape, profile: &P) -> (r: Vec<P>)
        requires
            self.wf(),
            placed_in_range(*shape),
        ensures
            forall|p: P| r@.contains(p) <==> self.query_match(*shape, *profile, p),
    {
        let mut result: Vec<P> = Vec::new();
        let mut j: usize = 0;
        while j < self.entries.len()
            invariant
                self.wf(),
                placed_in_range(*shape),
                0 <= j <= self.entries.len(),
                forall|m: int|
                    0 <= m < result.len() ==> self.query_match(*shape, *profile, #[trigger] result@[m]),
                forall|i: int|
                    0 <= i < j && self.entries@[i].profile.interacts(profile)
                        && #[trigger] shape_overlaps_entry(*shape, self.entries@[i], self.time@)
                        ==> result@.contains(self.entries@[i].profile),
            decreases self.entries.len() - j,
        {
            let pj = self.entries[j].profile;
            let ghost before = result@;
            if pj.can_interact(profile) {
                let other = self.current(j).value;
                if shape.overlaps(&other) {
                    result.push(pj);
                    proof {
                        assert(shape_overlaps_entry(*shape, self.entries@[j as int], self.time@));
                        assert(result@[before.len() as int] == pj);
                    }
                }
            }
            proof {
                assert forall|m: int| 0 <= m < before.len() implies before[m] == #[trigger] result@[m] by {
                }
                assert forall|m: int| 0 <= m < result.len() implies self.query_match(
                    *shape,
                    *profile,
                    #[trigger] result@[m],
                ) by {
                    if m < before.len() {
                        assert(result@[m] == before[m]);
                    }
                }
                assert forall|i: int|
                    0 <= i < j + 1 && self.entries@[i].profile.interacts(profile)
                        && #[trigger] shape_overlaps_entry(*shape, self.entries@[i], self.time@)
                        implies result@.contains(self.entries@[i].profile) by {
                    if i < j {
                        let m = choose|m: int| 0 <= m < before.len() && before[m] == self.entries@[i].profile;
                        assert(result@[m] == before[m]);
                    } else {
                        assert(result@[before.len() as int] == pj);
                    }
                }
            }
            j = j + 1;
        }
        proof {
            assert forall|p: P| self.query_match(*shape, *profile, p) implies result@.contains(p) by {
                let i = choose|i: int|
                    0 <= i < self.entries.len() && self.entries@[i].profile == p && p.interacts(&*profile)
                        && #[trigger] shape_overlaps_entry(*shape, self.entries@[i], self.time@);
            }
            assert forall|p: P| result@.contains(p) implies self.query_match(*shape, *profile, p) by {
                let m = choose|m: int| 0 <= m < result.len() && result@[m] == p;
            }
        }
        result
    }
}

/// Advancing a shape by no time leaves it as it is.
proof fn lemma_advance_zero(p: PlacedShape, vel: Vec2, resize: Vec2)
    requires
        placed_in_range(p),
    ensures
        advance_spec(p, vel, resize, 0) == p,
{
    assert(mul_spec(vel.x@, 0) == 0);
    assert(mul_spec(vel.y@, 0) == 0);
    assert(mul_spec(resize.x@, 0) == 0);
    assert(mul_spec(resize.y@, 0) == 0);
}

/// The solver's answer for the pair at indices `x` and `y`, the smaller
/// identity at `x`, in terms of their records.
proof fn lemma_pair_dt<P: HbProfile>(c: Collider<P>, x: int, y: int)
    requires
        c.wf(),
        0 <= x < c.entries.len(),
        0 <= y < c.entries.len(),
    ensures
        c.pair_dt(c.entries@[x].id, c.entries@[y].id) == if c.overlapping(
            c.entries@[x].id,
            c.entries@[y].id,
        ) {
            separate_time_spec(
                entry_dur(c.entries@[x], c.time@),
                entry_dur(c.entries@[y], c.time@),
                c.padding@,
            )
        } else {
            collide_time_spec(entry_dur(c.entries@[x], c.time@), entry_dur(c.entries@[y], c.time@))
        },
{
    lemma_entry_of(c, x);
    lemma_entry_of(c, y);
}

/// In a consistent engine, the record of an identity is the one at its index.
proof fn lemma_entry_of<P: HbProfile>(c: Collider<P>, j: int)
    requires
        c.wf(),
        0 <= j < c.entries.len(),
    ensures
        c.entry_of(c.entries@[j].id) == c.entries@[j],
{
    let id = c.entries@[j].id;
    let i = choose|i: int| 0 <= i < c.entries.len() && #[trigger] c.entries@[i].id == id;
    lemma_unique_index(&c, j, id);
}

/// In a consistent engine, the profile and hitbox of an identity are those
/// at its index.
proof fn lemma_index_of<P: HbProfile>(c: Collider<P>, j: int)
    requires
        c.wf(),
        0 <= j < c.entries.len(),
    ensures
        c.profile_spec(c.entries@[j].id) == c.entries@[j].profile,
        c.hitbox_spec(c.entries@[j].id) == (Hitbox {
            value: entry_dur(c.entries@[j], c.time@).value,
            vel: c.entries@[j].hitbox.vel,
        }),
{
    let id = c.entries@[j].id;
    let i = choose|i: int| 0 <= i < c.entries.len() && #[trigger] c.entries@[i].id == id;
    lemma_unique_index(&c, j, id);
}

/// `shape` overlaps, with positive depth, the hitbox of `e` at time `now`.
spec fn shape_overlaps_entry<P>(shape: PlacedShape, e: Entry<P>, now: int) -> bool {
    normal_spec(shape, entry_dur(e, now).value, all_fn()).len@ > 0
}

/// The hitbox of `e` as the solver sees it at time `now`: its shape then, and
/// the time left until it ends.
spec fn entry_dur<P>(e: Entry<P>, now: int) -> DurHitbox {
    DurHitbox {
        value: advance_spec(
            e.hitbox.value,
            e.hitbox.vel.value,
            e.hitbox.vel.resize,
            sub_spec(now, e.origin@),
        ),
        vel: DurHbVel {
            value: e.hitbox.vel.value,
            resize: e.hitbox.vel.resize,
            duration: Scalar { raw: sub_spec(e.hitbox.vel.end_time@, now) as i128 },
        },
    }
}

/// The record of `id` among `entries`.
spec fn seq_entry_of<P>(entries: Seq<Entry<P>>, id: HbId) -> Entry<P> {
    entries[choose|i: int| 0 <= i < entries.len() && #[trigger] entries[i].id == id]
}

/// The solver's answer at time `now` for the pair `a < b` among `entries`,
/// separation while `overlaps` records them, else collision.
spec fn pair_dt_of<P>(
    entries: Seq<Entry<P>>,
    overlaps: Seq<(HbId, HbId)>,
    now: int,
    padding: int,
    a: HbId,
    b: HbId,
) -> int {
    let da = entry_dur(seq_entry_of(entries, a), now);
    let db = entry_dur(seq_entry_of(entries, b), now);
    if exists|k: int| 0 <= k < overlaps.len() && (#[trigger] overlaps[k] == (a, b) || overlaps[k] == (b, a)) {
        separate_time_spec(da, db, padding)
    } else {
        collide_time_spec(da, db)
    }
}

/// One planning step from `before` to `after` for the hitboxes at `i` and
/// `j`: only the events change, by the pair's event when the pair interacts
/// and meets before infinity, by nothing otherwise.
spec fn step_ok<P: HbProfile>(before: Collider<P>, after: Collider<P>, i: int, j: int) -> bool {
    let n = before.events.len();
    let pr = ordered(before.entries@[i].id, before.entries@[j].id);
    &&& after.entries == before.entries
    &&& after.overlaps == before.overlaps
    &&& after.time == before.time
    &&& after.padding == before.padding
    &&& n <= after.events.len() <= n + 1
    &&& forall|k: int| 0 <= k < n ==> #[trigger] after.events@[k] == before.events@[k]
    &&& after.events.len() == n + 1 ==> j != i && after.events@[n as int].a == pr.0
        && after.events@[n as int].b == pr.1 && after.events@[n as int].time@ == add_spec(
        before.time@,
        before.pair_dt(pr.0, pr.1),
    )
    &&& after.events.len() == n ==> (j == i || !(before.entries@[i].profile.interacts(
        &before.entries@[j].profile,
    ) && before.pair_dt(pr.0, pr.1) < LIMIT))
}

proof fn lemma_step_partners<P: HbProfile>(before: Collider<P>, after: Collider<P>, i: int, j: int)
    requires
        before.wf(),
        0 <= i < before.entries.len(),
        0 <= j < before.entries.len(),
        step_ok(before, after, i, j),
        before.partners_below(i, j),
    ensures
        after.partners_below(i, j + 1),
{
    let n = before.events.len() as int;
    assert forall|k: int| 0 <= k < after.events.len() && ((#[trigger] after.events@[k]).a
        == after.entries@[i].id || after.events@[k].b == after.entries@[i].id)
        implies exists|m: int|
        0 <= m < j + 1 && m != i && (#[trigger] after.entries@[m].id == after.events@[k].a
            || after.entries@[m].id == after.events@[k].b) by {
        if k < n {
            assert(after.events@[k] == before.events@[k]);
            let m = choose|m: int|
                0 <= m < j && m != i && (#[trigger] before.entries@[m].id == before.events@[k].a
                    || before.entries@[m].id == before.events@[k].b);
            assert(after.entries@[m].id == after.events@[k].a || after.entries@[m].id
                == after.events@[k].b);
        } else {
            assert(after.entries@[j].id == after.events@[k].a
                || after.entries@[j].id == after.events@[k].b);
        }
    }
}

proof fn lemma_step_fresh<P: HbProfile>(
    before: Collider<P>,
    after: Collider<P>,
    i: int,
    j: int,
    from: int,
)
    requires
        0 <= i < before.entries.len(),
        0 <= j < before.entries.len(),
        0 <= from <= before.events.len(),
        step_ok(before, after, i, j),
        before.fresh_from(from, i),
    ensures
        after.fresh_from(from, i),
{
    let n = before.events.len() as int;
    assert(after.entries@ == before.entries@ && after.overlaps@ == before.overlaps@);
    assert forall|k: int| from <= k < after.events.len() implies ((#[trigger] after.events@[k]).a
        == after.entries@[i].id || after.events@[k].b == after.entries@[i].id)
        && after.events@[k].time@ == add_spec(
        after.time@,
        after.pair_dt(after.events@[k].a, after.events@[k].b),
    ) by {
        if k < n {
            assert(after.events@[k] == before.events@[k]);
        }
    }
}

proof fn lemma_step_planned<P: HbProfile>(before: Collider<P>, after: Collider<P>, i: int, j: int)
    requires
        0 <= i < before.entries.len(),
        0 <= j < before.entries.len(),
        step_ok(before, after, i, j),
        before.planned_below(i, j),
    ensures
        after.planned_below(i, j + 1),
{
    let n = before.events.len() as int;
    assert(after.entries@ == before.entries@ && after.overlaps@ == before.overlaps@);
    assert forall|m: int|
        0 <= m < j + 1 && m != i && after.entries@[i].profile.interacts(&after.entries@[m].profile)
            && #[trigger] after.pair_dt(
            ordered(after.entries@[i].id, after.entries@[m].id).0,
            ordered(after.entries@[i].id, after.entries@[m].id).1,
        ) < LIMIT implies after.has_pair(ordered(after.entries@[i].id, after.entries@[m].id)) by {
        let pr = ordered(after.entries@[i].id, after.entries@[m].id);
        assert(before.pair_dt(pr.0, pr.1) == after.pair_dt(pr.0, pr.1));
        if m < j {
            assert(before.has_pair(pr));
            let k = choose|k: int|
                0 <= k < before.events.len() && (#[trigger] before.events@[k]).a == pr.0
                    && before.events@[k].b == pr.1;
            assert(after.events@[k] == before.events@[k]);
        } else {
            assert(after.events@[n].a == pr.0 && after.events@[n].b == pr.1);
        }
    }
}

/// An event at time `t1` of pair `p1` comes no later than one at `t2` of
/// pair `p2`: earlier, or at the same time with a pair not greater in
/// lexicographic order.
pub open spec fn event_first(t1: int, p1: (HbId, HbId), t2: int, p2: (HbId, HbId)) -> bool {
    t1 < t2 || (t1 == t2 && (p1.0 < p2.0 || (p1.0 == p2.0 && p1.1 <= p2.1)))
}

/// The two identities, smaller first.
pub open spec fn ordered(x: HbId, y: HbId) -> (HbId, HbId) {
    if x <= y {
        (x, y)
    } else {
        (y, x)
    }
}

/// Two events belong to different pairs.
spec fn distinct_pairs(e: PairEvent, f: PairEvent) -> bool {
    e.a != f.a || e.b != f.b
}

spec fn seq_has_id<P>(entries: Seq<Entry<P>>, id: HbId) -> bool {
    exists|i: int| 0 <= i < entries.len() && #[trigger] entries[i].id == id
}

/// The scalars of an entry lie in range.
spec fn entry_ok<P>(e: Entry<P>) -> bool {
    placed_in_range(e.hitbox.value) && e.hitbox.vel.in_range() && e.origin.wf()
}

} // verus!
