//! Per-class permit accounting for the semaphore.

use vstd::prelude::*;

verus! {

/// The two traffic classes of a two-way bridge.
#[derive(Clone, Copy, Debug, PartialEq, Eq, Structural)]
pub enum Direction {
    East,
    West,
}

impl Direction {
    /// The class index under which this direction draws permits.
    pub open spec fn class_spec(self) -> nat {
        match self {
            Direction::East => 0,
            Direction::West => 1,
        }
    }

    /// The class index of this direction in a two-class semaphore.
    pub fn class(self) -> (r: usize)
        ensures
            r == self.class_spec(),
    {
        match self {
            Direction::East => 0,
            Direction::West => 1,
        }
    }
}

/// Why a semaphore could not be built.
#[derive(Clone, Copy, Debug, PartialEq, Eq, Structural)]
pub enum SemaphoreError {
    /// No class was configured.
    NoClasses,
    /// The class at this index was given a capacity of zero.
    ZeroCapacity(usize),
}

/// The abstract state of a semaphore: for each class, its configured capacity,
/// its currently available permits, and how many acquisitions and releases
/// of it have completed.
pub struct SemaphoreView {
    pub capacity: Seq<nat>,
    pub quota: Seq<nat>,
    pub admitted: Seq<nat>,
    pub released: Seq<nat>,
}

/// Capacities as natural numbers.
pub open spec fn nats(s: Seq<usize>) -> Seq<nat> {
    s.map_values(|x: usize| x as nat)
}

/// Every capacity is positive and there is at least one class.
pub open spec fn valid_capacities(caps: Seq<usize>) -> bool {
    caps.len() > 0 && forall|i: int| 0 <= i < caps.len() ==> caps[i] > 0
}

impl SemaphoreView {
    pub open spec fn num_classes(self) -> nat {
        self.capacity.len()
    }

    pub open spec fn has_class(self, c: int) -> bool {
        0 <= c < self.num_classes()
    }

    /// Permits of class `c` currently held.
    pub open spec fn outstanding(self, c: int) -> int {
        self.capacity[c] - self.quota[c]
    }

    /// Well-formedness: every class has a positive capacity, its available
    /// permits lie between zero and that capacity, and the permits held are
    /// exactly the completed acquisitions less the completed releases.
    pub open spec fn wf(self) -> bool {
        &&& self.num_classes() > 0
        &&& self.quota.len() == self.num_classes()
        &&& self.admitted.len() == self.num_classes()
        &&& self.released.len() == self.num_classes()
        &&& forall|c: int|
            #![trigger self.capacity[c]]
            self.has_class(c) ==> {
                &&& self.capacity[c] > 0
                &&& self.quota[c] <= self.capacity[c]
                &&& self.outstanding(c) == self.admitted[c] - self.released[c]
            }
    }

    /// A fresh semaphore: every permit available, nothing acquired or released.
    pub open spec fn initial(caps: Seq<nat>) -> SemaphoreView {
        SemaphoreView {
            capacity: caps,
            quota: caps,
            admitted: Seq::new(caps.len(), |i: int| 0nat),
            released: Seq::new(caps.len(), |i: int| 0nat),
        }
    }

    /// An acquirer of class `c` may claim a permit right now.
    pub open spec fn can_enter(self, c: int) -> bool {
        self.quota[c] > 0
    }

    /// The state after one admission attempt for class `c`: a permit is
    /// claimed when one is available, and nothing changes otherwise.
    pub open spec fn after_acquire(self, c: int) -> SemaphoreView {
        if self.can_enter(c) {
            SemaphoreView {
                quota: self.quota.update(c, (self.quota[c] - 1) as nat),
                admitted: self.admitted.update(c, self.admitted[c] + 1),
                ..self
            }
        } else {
            self
        }
    }

    /// The state after a permit of class `c` is handed back.
    pub open spec fn after_release(self, c: int) -> SemaphoreView {
        SemaphoreView {
            quota: self.quota.update(c, self.quota[c] + 1),
            released: self.released.update(c, self.released[c] + 1),
            ..self
        }
    }
    /// The state after `k` successive admission attempts for class `c`.
    pub open spec fn acquire_times(self, c: int, k: nat) -> SemaphoreView
        decreases k,
    {
        if k == 0 {
            self
        } else {
            self.acquire_times(c, (k - 1) as nat).after_acquire(c)
        }
    }
}

/// The outcome of one admission attempt.
#[derive(Clone, Copy, Debug, PartialEq, Eq, Structural)]
pub enum Admission {
    /// A permit was claimed: the caller is inside.
    Entered,
    /// No permit of the class is free: the caller must wait for a release
    /// and then try again.
    MustWait,
}

/// The semaphore's permit counters, one pool per class.
///
/// Every method is one atomic step and is meant to run while the caller
/// holds the lock that guards the semaphore.
pub struct Semaphore {
    capacity: Vec<usize>,
    quota: Vec<usize>,
    admitted: Ghost<Seq<nat>>,
    released: Ghost<Seq<nat>>,
}

impl View for Semaphore {
    type V = SemaphoreView;

    closed spec fn view(&self) -> SemaphoreView {
        SemaphoreView {
            capacity: nats(self.capacity@),
            quota: nats(self.quota@),
            admitted: self.admitted@,
            released: self.released@,
        }
    }
}

impl Semaphore {
    /// Builds a semaphore with the given capacity for each class, all permits
    /// available. Fails when there is no class, or on the first class whose
    /// capacity is zero.
    pub fn new(capacities: Vec<usize>) -> (r: Result<Semaphore, SemaphoreError>)
        ensures
            capacities@.len() == 0 <==> r == Err::<Semaphore, SemaphoreError>(SemaphoreError::NoClasses),
            forall|i: usize|
                r == Err::<Semaphore, SemaphoreError>(SemaphoreError::ZeroCapacity(i)) <==> {
                    &&& i < capacities@.len()
                    &&& capacities@[i as int] == 0
                    &&& forall|j: int| 0 <= j < i ==> capacities@[j] > 0
                },
            r is Ok <==> valid_capacities(capacities@),
            r matches Ok(s) ==> s@ == SemaphoreView::initial(nats(capacities@)) && s@.wf(),
    {
        if capacities.len() == 0 {
            return Err(SemaphoreError::NoClasses);
        }
        let mut quota: Vec<usize> = Vec::new();
        let mut i: usize = 0;
        while i < capacities.len()
            invariant
                i <= capacities@.len(),
                quota@ == capacities@.subrange(0, i as int),
                forall|j: int| 0 <= j < i ==> capacities@[j] > 0,
            decreases capacities@.len() - i,
        {
            if capacities[i] == 0 {
                return Err(SemaphoreError::ZeroCapacity(i));
            }
            quota.push(capacities[i]);
            i = i + 1;
        }
        assert(quota@ == capacities@);
        let n: Ghost<nat> = Ghost(capacities@.len());
        let s = Semaphore {
            capacity: capacities,
            quota,
            admitted: Ghost(Seq::new(n@, |i: int| 0nat)),
            released: Ghost(Seq::new(n@, |i: int| 0nat)),
        };
        assert(s@ =~= SemaphoreView::initial(nats(s.capacity@)));
        Ok(s)
    }
    /// One admission attempt for `class`, taken under the semaphore's lock: claims
    /// a permit and answers `Entered` when one is free, and otherwise leaves
    /// the semaphore as it is and answers `MustWait`. A waiter woken by a release
    /// calls this again before it proceeds.
    pub fn acquire(&mut self, class: usize) -> (r: Admission)
        requires
            old(self)@.wf(),
            old(self)@.has_class(class as int),
        ensures
            final(self)@ == old(self)@.after_acquire(class as int),
            final(self)@.wf(),
            (r == Admission::Entered) <==> old(self)@.can_enter(class as int),
    {
        let q = self.quota[class];
        if q == 0 {
            return Admission::MustWait;
        }
        self.quota.set(class, q - 1);
        self.admitted = Ghost(self.admitted@.update(class as int, self.admitted@[class as int] + 1));
        proof {
            let a = old(self)@.after_acquire(class as int);
            assert(self@.quota =~= a.quota);
            assert(self@ =~= a);
        }
        Admission::Entered
    }

    /// Hands back one permit of `class`, under the semaphore's lock. The caller
    /// must hold a permit of that class.
    pub fn release(&mut self, class: usize)
        requires
            old(self)@.wf(),
            old(self)@.has_class(class as int),
            old(self)@.outstanding(class as int) > 0,
        ensures
            final(self)@ == old(self)@.after_release(class as int),
            final(self)@.wf(),
    {
        let q = self.quota[class];
        self.quota.set(class, q + 1);
        self.released = Ghost(self.released@.update(class as int, self.released@[class as int] + 1));
        proof {
            let a = old(self)@.after_release(class as int);
            assert(self@.quota =~= a.quota);
            assert(self@ =~= a);
        }
    }
    /// How many classes the semaphore has.
    pub fn num_classes(&self) -> (r: usize)
        requires
            self@.wf(),
        ensures
            r == self@.num_classes(),
    {
        self.capacity.len()
    }

    /// The configured capacity of `class`.
    pub fn capacity(&self, class: usize) -> (r: usize)
        requires
            self@.wf(),
            self@.has_class(class as int),
        ensures
            r == self@.capacity[class as int],
    {
        self.capacity[class]
    }

    /// The permits of `class` that are available now.
    pub fn available(&self, class: usize) -> (r: usize)
        requires
            self@.wf(),
            self@.has_class(class as int),
        ensures
            r == self@.quota[class as int],
    {
        self.quota[class]
    }

    /// The permits of `class` that are held now.
    pub fn outstanding(&self, class: usize) -> (r: usize)
        requires
            self@.wf(),
            self@.has_class(class as int),
        ensures
            r == self@.outstanding(class as int),
    {
        proof {
            assert(self@.capacity[class as int] > 0);
        }
        self.capacity[class] - self.quota[class]
    }
}

/// Successive admission attempts for one class keep the semaphore well formed,
/// count that class's available permits down to zero and stop there, and
/// leave every other class as it was.
proof fn lemma_acquire_times(g: SemaphoreView, c: int, k: nat)
    requires
        g.wf(),
        g.has_class(c),
    ensures
        g.acquire_times(c, k).wf(),
        g.acquire_times(c, k).capacity == g.capacity,
        g.acquire_times(c, k).quota.len() == g.quota.len(),
        g.acquire_times(c, k).quota[c] == if k <= g.quota[c] {
            g.quota[c] - k
        } else {
            0
        },
        forall|b: int|
            #![trigger g.acquire_times(c, k).quota[b]]
            g.has_class(b) && b != c ==> g.acquire_times(c, k).quota[b] == g.quota[b],
    decreases k,
{
    if k > 0 {
        lemma_acquire_times(g, c, (k - 1) as nat);
        lemma_steps_keep_invariant(g.acquire_times(c, (k - 1) as nat), c);
    }
}

/// A fresh semaphore with valid capacities is well formed: every class has all
/// of its permits available and none held.
pub proof fn lemma_initial_invariant(caps: Seq<usize>)
    requires
        valid_capacities(caps),
    ensures
        SemaphoreView::initial(nats(caps)).wf(),
        forall|c: int|
            0 <= c < caps.len() ==> #[trigger] SemaphoreView::initial(nats(caps)).outstanding(c) == 0,
{
}

/// Each step keeps the semaphore well formed: an admission attempt always does,
/// and so does a release of a class of which a permit is held.
pub proof fn lemma_steps_keep_invariant(g: SemaphoreView, c: int)
    requires
        g.wf(),
        g.has_class(c),
    ensures
        g.after_acquire(c).wf(),
        g.outstanding(c) > 0 ==> g.after_release(c).wf(),
{
    let a = g.after_acquire(c);
    assert forall|b: int| #![trigger a.capacity[b]] a.has_class(b) implies {
        &&& a.capacity[b] > 0
        &&& a.quota[b] <= a.capacity[b]
        &&& a.outstanding(b) == a.admitted[b] - a.released[b]
    } by {
        assert(g.capacity[b] > 0);
    }
    if g.outstanding(c) > 0 {
        let r = g.after_release(c);
        assert forall|b: int| #![trigger r.capacity[b]] r.has_class(b) implies {
            &&& r.capacity[b] > 0
            &&& r.quota[b] <= r.capacity[b]
            &&& r.outstanding(b) == r.admitted[b] - r.released[b]
        } by {
            assert(g.capacity[b] > 0);
        }
    }
}

/// In a well-formed semaphore every class has between zero and its capacity of
/// permits available, and the permits it has out equal its completed
/// acquisitions less its completed releases.
pub proof fn lemma_quota_bounds_and_conservation(g: SemaphoreView, c: int)
    requires
        g.wf(),
        g.has_class(c),
    ensures
        0 <= g.quota[c] <= g.capacity[c],
        0 <= g.outstanding(c) <= g.capacity[c],
        g.outstanding(c) == g.admitted[c] - g.released[c],
{
    assert(g.capacity[c] > 0);
}

/// With a capacity of one, a class is a mutual-exclusion lock: at most one
/// permit of it is out, and while it is out every admission attempt of the
/// class must wait.
pub proof fn lemma_unit_capacity_is_exclusive(g: SemaphoreView, c: int)
    requires
        g.wf(),
        g.has_class(c),
        g.capacity[c] == 1,
    ensures
        g.outstanding(c) <= 1,
        g.outstanding(c) == 1 ==> !g.can_enter(c),
        g.can_enter(c) ==> !g.after_acquire(c).can_enter(c),
{
    assert(g.capacity[c] > 0);
}

/// On a fresh semaphore, as many acquirers of a class as its capacity are all
/// admitted at once; one more must wait, and is admitted once one of the
/// others has released.
pub proof fn lemma_no_permit_loss(caps: Seq<usize>, c: int)
    requires
        valid_capacities(caps),
        0 <= c < caps.len(),
    ensures
        forall|k: nat|
            k < caps[c] ==> #[trigger] SemaphoreView::initial(nats(caps)).acquire_times(c, k).can_enter(c),
        !SemaphoreView::initial(nats(caps)).acquire_times(c, caps[c] as nat).can_enter(c),
        SemaphoreView::initial(nats(caps)).acquire_times(c, caps[c] as nat).after_release(c).can_enter(c),
{
    let g = SemaphoreView::initial(nats(caps));
    lemma_initial_invariant(caps);
    assert forall|k: nat| k < caps[c] implies #[trigger] g.acquire_times(c, k).can_enter(c) by {
        lemma_acquire_times(g, c, k);
    }
    lemma_acquire_times(g, c, caps[c] as nat);
}

/// Classes draw from separate pools: any number of admission attempts of one
/// class, exhausting it or not, and a release of it, leave whether another
/// class can enter as it was.
pub proof fn lemma_classes_independent(g: SemaphoreView, a: int, b: int, k: nat)
    requires
        g.wf(),
        g.has_class(a),
        g.has_class(b),
        a != b,
    ensures
        g.acquire_times(a, k).can_enter(b) == g.can_enter(b),
        g.after_release(a).can_enter(b) == g.can_enter(b),
{
    lemma_acquire_times(g, a, k);
}

} // verus!
