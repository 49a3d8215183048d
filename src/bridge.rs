//! The guarded resource: a single-lane bridge whose entries and exits go
//! through the semaphore, and the lifecycle of the vehicles that cross it.

use crate::semaphore::{Admission, SemaphoreView, Semaphore};
use vstd::prelude::*;

verus! {

/// Where a vehicle is in its one crossing.
#[derive(Clone, Copy, Debug, PartialEq, Eq, Structural)]
pub enum Phase {
    /// It wants to enter and holds no permit.
    Waiting,
    /// It is on the bridge and holds one permit of its class.
    Crossing,
    /// It has left and handed its permit back.
    Crossed,
}

/// One actor: an identifier, the class it draws permits from, and its phase.
#[derive(Clone, Copy, Debug, PartialEq, Eq, Structural)]
pub struct Vehicle {
    pub id: usize,
    pub class: usize,
    pub phase: Phase,
}

impl Vehicle {
    /// A vehicle that has just arrived and wants to cross.
    pub fn new(id: usize, class: usize) -> (r: Vehicle)
        ensures
            r == (Vehicle { id, class, phase: Phase::Waiting }),
    {
        Vehicle { id, class, phase: Phase::Waiting }
    }

    /// The same vehicle in another phase.
    pub open spec fn in_phase(self, phase: Phase) -> Vehicle {
        Vehicle { phase, ..self }
    }
}

/// The bridge: the semaphore, and how long one crossing occupies it.
pub struct Bridge {
    semaphore: Semaphore,
    crossing_ms: u64,
}

impl Bridge {
    /// The state of the bridge's semaphore.
    pub closed spec fn semaphore_view(&self) -> SemaphoreView {
        self.semaphore@
    }

    /// How long one crossing lasts, in milliseconds.
    pub closed spec fn crossing_spec(&self) -> u64 {
        self.crossing_ms
    }

    /// A bridge guarded by `semaphore`, each crossing lasting `crossing_ms`
    /// milliseconds.
    pub fn new(semaphore: Semaphore, crossing_ms: u64) -> (r: Bridge)
        ensures
            r.semaphore_view() == semaphore@,
            r.crossing_spec() == crossing_ms,
    {
        Bridge { semaphore, crossing_ms }
    }

    /// How long one crossing lasts, in milliseconds.
    pub fn crossing_ms(&self) -> (r: u64)
        ensures
            r == self.crossing_spec(),
    {
        self.crossing_ms
    }

    /// The bridge's semaphore.
    pub fn semaphore(&self) -> (r: &Semaphore)
        ensures
            r@ == self.semaphore_view(),
    {
        &self.semaphore
    }

    /// One attempt of a waiting vehicle to drive on, under the bridge's lock:
    /// when a permit of its class is free the vehicle claims it and is then
    /// crossing; otherwise nothing changes and it must wait.
    pub fn enter(&mut self, v: &mut Vehicle) -> (r: Admission)
        requires
            old(self).semaphore_view().wf(),
            old(self).semaphore_view().has_class(old(v).class as int),
            old(v).phase == Phase::Waiting,
        ensures
            final(self).semaphore_view() == old(self).semaphore_view().after_acquire(old(v).class as int),
            final(self).semaphore_view().wf(),
            final(self).crossing_spec() == old(self).crossing_spec(),
            (r == Admission::Entered) <==> old(self).semaphore_view().can_enter(old(v).class as int),
            *final(v) == if r == Admission::Entered {
                old(v).in_phase(Phase::Crossing)
            } else {
                *old(v)
            },
    {
        let r = self.semaphore.acquire(v.class);
        if r == Admission::Entered {
            v.phase = Phase::Crossing;
        }
        r
    }

    /// A crossing vehicle drives off and hands its permit back, under the
    /// bridge's lock.
    pub fn leave(&mut self, v: &mut Vehicle)
        requires
            old(self).semaphore_view().wf(),
            old(self).semaphore_view().has_class(old(v).class as int),
            old(self).semaphore_view().outstanding(old(v).class as int) > 0,
            old(v).phase == Phase::Crossing,
        ensures
            final(self).semaphore_view() == old(self).semaphore_view().after_release(old(v).class as int),
            final(self).semaphore_view().wf(),
            final(self).crossing_spec() == old(self).crossing_spec(),
            *final(v) == old(v).in_phase(Phase::Crossed),
    {
        self.semaphore.release(v.class);
        v.phase = Phase::Crossed;
    }
}

/// One if `v` is on the bridge in class `c`, zero otherwise.
pub open spec fn occupies(v: Vehicle, c: int) -> nat {
    if v.class == c && v.phase == Phase::Crossing {
        1
    } else {
        0
    }
}

/// How many of `vs` are on the bridge in class `c`.
pub open spec fn crossing_count(vs: Seq<Vehicle>, c: int) -> nat
    decreases vs.len(),
{
    if vs.len() == 0 {
        0
    } else {
        crossing_count(vs.drop_last(), c) + occupies(vs.last(), c)
    }
}

/// The steps a vehicle has still to take: two while waiting, one while
/// crossing, none once crossed.
pub open spec fn steps_left(v: Vehicle) -> nat {
    match v.phase {
        Phase::Waiting => 2,
        Phase::Crossing => 1,
        Phase::Crossed => 0,
    }
}

/// The steps that all of `vs` have still to take.
pub open spec fn pending(vs: Seq<Vehicle>) -> nat
    decreases vs.len(),
{
    if vs.len() == 0 {
        0
    } else {
        pending(vs.drop_last()) + steps_left(vs.last())
    }
}

/// Every vehicle of `vs` has crossed.
pub open spec fn all_crossed(vs: Seq<Vehicle>) -> bool {
    forall|i: int| 0 <= i < vs.len() ==> #[trigger] vs[i].phase == Phase::Crossed
}

/// A population of vehicles agrees with the semaphore: the semaphore is well formed,
/// every vehicle's class is one of the semaphore's, and the permits held in each
/// class are exactly the vehicles of that class on the bridge.
pub open spec fn consistent(g: SemaphoreView, vs: Seq<Vehicle>) -> bool {
    &&& g.wf()
    &&& forall|i: int| 0 <= i < vs.len() ==> g.has_class(#[trigger] vs[i].class as int)
    &&& forall|c: int| g.has_class(c) ==> #[trigger] g.outstanding(c) == crossing_count(vs, c)
}

/// Vehicle `v` can take its next step now: it is crossing and may leave, or
/// it is waiting and a permit of its class is free.
pub open spec fn can_move(g: SemaphoreView, v: Vehicle) -> bool {
    ||| v.phase == Phase::Crossing
    ||| v.phase == Phase::Waiting && g.can_enter(v.class as int)
}

/// The semaphore after vehicle `v` takes its next step, as `Bridge::leave` and a
/// successful `Bridge::enter` do it.
pub open spec fn semaphore_after_move(g: SemaphoreView, v: Vehicle) -> SemaphoreView {
    if v.phase == Phase::Crossing {
        g.after_release(v.class as int)
    } else {
        g.after_acquire(v.class as int)
    }
}

/// Vehicle `v` after its next step.
pub open spec fn vehicle_after_move(v: Vehicle) -> Vehicle {
    if v.phase == Phase::Crossing {
        v.in_phase(Phase::Crossed)
    } else {
        v.in_phase(Phase::Crossing)
    }
}

proof fn lemma_counts_update(vs: Seq<Vehicle>, i: int, w: Vehicle, c: int)
    requires
        0 <= i < vs.len(),
    ensures
        crossing_count(vs.update(i, w), c) + occupies(vs[i], c) == crossing_count(vs, c) + occupies(
            w,
            c,
        ),
        pending(vs.update(i, w)) + steps_left(vs[i]) == pending(vs) + steps_left(w),
    decreases vs.len(),
{
    let u = vs.update(i, w);
    if i == vs.len() - 1 {
        assert(u.drop_last() =~= vs.drop_last());
    } else {
        assert(u.drop_last() =~= vs.drop_last().update(i, w));
        lemma_counts_update(vs.drop_last(), i, w, c);
    }
}

proof fn lemma_count_witness(vs: Seq<Vehicle>, c: int)
    requires
        crossing_count(vs, c) > 0,
    ensures
        exists|j: int| 0 <= j < vs.len() && occupies(#[trigger] vs[j], c) == 1,
    decreases vs.len(),
{
    if occupies(vs.last(), c) == 0 {
        lemma_count_witness(vs.drop_last(), c);
        let j = choose|j: int| 0 <= j < vs.drop_last().len() && occupies(#[trigger] vs.drop_last()[j], c) == 1;
        assert(vs[j] == vs.drop_last()[j]);
    } else {
        assert(vs[vs.len() - 1] == vs.last());
    }
}

proof fn lemma_pending_zero(vs: Seq<Vehicle>)
    ensures
        pending(vs) == 0 <==> all_crossed(vs),
    decreases vs.len(),
{
    if vs.len() > 0 {
        lemma_pending_zero(vs.drop_last());
        if all_crossed(vs) {
            assert forall|i: int| 0 <= i < vs.drop_last().len() implies #[trigger] vs.drop_last()[i].phase
                == Phase::Crossed by {
                assert(vs[i] == vs.drop_last()[i]);
            }
            assert(vs[vs.len() - 1] == vs.last());
        }
        if pending(vs) == 0 {
            assert forall|i: int| 0 <= i < vs.len() implies #[trigger] vs[i].phase == Phase::Crossed by {
                if i < vs.len() - 1 {
                    assert(vs[i] == vs.drop_last()[i]);
                }
            }
        }
    }
}

/// However the vehicles interleave, no class ever has more vehicles on the
/// bridge than its capacity; with a capacity of one, at most one.
pub proof fn lemma_occupancy_bounded(g: SemaphoreView, vs: Seq<Vehicle>, c: int)
    requires
        consistent(g, vs),
        g.has_class(c),
    ensures
        crossing_count(vs, c) <= g.capacity[c],
        g.capacity[c] == 1 ==> crossing_count(vs, c) <= 1,
{
    assert(g.capacity[c] > 0);
    assert(g.outstanding(c) == crossing_count(vs, c));
}

/// Liveness: while some vehicle has not crossed, some vehicle can take its
/// next step; taking it keeps the population consistent with the semaphore and
/// leaves one step fewer to take; and no step is left exactly when every
/// vehicle has crossed. So every run ends, after at most two steps per
/// vehicle, with all of them across.
pub proof fn lemma_progress(g: SemaphoreView, vs: Seq<Vehicle>)
    requires
        consistent(g, vs),
    ensures
        pending(vs) == 0 <==> all_crossed(vs),
        !all_crossed(vs) ==> exists|i: int| 0 <= i < vs.len() && can_move(g, #[trigger] vs[i]),
        forall|i: int|
            0 <= i < vs.len() && can_move(g, #[trigger] vs[i]) ==> {
                &&& consistent(
                    semaphore_after_move(g, vs[i]),
                    vs.update(i, vehicle_after_move(vs[i])),
                )
                &&& pending(vs.update(i, vehicle_after_move(vs[i]))) + 1 == pending(vs)
            },
{
    lemma_pending_zero(vs);
    if !all_crossed(vs) {
        let i = choose|i: int| 0 <= i < vs.len() && vs[i].phase != Phase::Crossed;
        let c = vs[i].class as int;
        if vs[i].phase == Phase::Waiting && !g.can_enter(c) {
            assert(g.has_class(c));
            assert(g.outstanding(c) == crossing_count(vs, c));
            lemma_count_witness(vs, c);
            let j = choose|j: int| 0 <= j < vs.len() && occupies(#[trigger] vs[j], c) == 1;
            assert(can_move(g, vs[j]));
        } else {
            assert(can_move(g, vs[i]));
        }
    }
    assert forall|i: int| 0 <= i < vs.len() && can_move(g, #[trigger] vs[i]) implies {
        &&& consistent(semaphore_after_move(g, vs[i]), vs.update(i, vehicle_after_move(vs[i])))
        &&& pending(vs.update(i, vehicle_after_move(vs[i]))) + 1 == pending(vs)
    } by {
        let v = vs[i];
        let w = vehicle_after_move(v);
        let g2 = semaphore_after_move(g, v);
        let u = vs.update(i, w);
        let k = v.class as int;
        assert(g.has_class(k));
        lemma_counts_update(vs, i, w, k);
        assert(g.outstanding(k) == crossing_count(vs, k));
        crate::semaphore::lemma_steps_keep_invariant(g, k);
        assert forall|j: int| 0 <= j < u.len() implies g2.has_class(#[trigger] u[j].class as int) by {
            if j != i {
                assert(g.has_class(vs[j].class as int));
            }
        }
        assert forall|c: int| g2.has_class(c) implies #[trigger] g2.outstanding(c) == crossing_count(u, c) by {
            lemma_counts_update(vs, i, w, c);
            assert(g.outstanding(c) == crossing_count(vs, c));
        }
    }
}

} // verus!
