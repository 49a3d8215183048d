use bridge_gate::semaphore::{Admission, Direction, SemaphoreError, Semaphore};

#[test]
fn empty_class_set_is_refused() {
    assert_eq!(Semaphore::new(vec![]).err(), Some(SemaphoreError::NoClasses));
}

#[test]
fn zero_capacity_names_first_offending_class() {
    assert_eq!(Semaphore::new(vec![2, 0, 0]).err(), Some(SemaphoreError::ZeroCapacity(1)));
    assert_eq!(Semaphore::new(vec![0]).err(), Some(SemaphoreError::ZeroCapacity(0)));
}

#[test]
fn fresh_semaphore_has_every_permit_available() {
    let s = Semaphore::new(vec![2, 3]).unwrap();
    assert_eq!(s.num_classes(), 2);
    assert_eq!(s.capacity(0), 2);
    assert_eq!(s.capacity(1), 3);
    assert_eq!(s.available(0), 2);
    assert_eq!(s.available(1), 3);
    assert_eq!(s.outstanding(0), 0);
    assert_eq!(s.outstanding(1), 0);
}

#[test]
fn directions_map_to_distinct_classes() {
    assert_eq!(Direction::East.class(), 0);
    assert_eq!(Direction::West.class(), 1);
}

#[test]
fn capacity_many_acquirers_enter_and_one_more_waits() {
    let mut s = Semaphore::new(vec![3]).unwrap();
    for _ in 0..3 {
        assert_eq!(s.acquire(0), Admission::Entered);
    }
    assert_eq!(s.available(0), 0);
    assert_eq!(s.acquire(0), Admission::MustWait);
    assert_eq!(s.acquire(0), Admission::MustWait);
    assert_eq!(s.outstanding(0), 3);
    s.release(0);
    assert_eq!(s.available(0), 1);
    assert_eq!(s.acquire(0), Admission::Entered);
    assert_eq!(s.acquire(0), Admission::MustWait);
}

#[test]
fn unit_capacity_acts_as_a_lock() {
    let mut s = Semaphore::new(vec![1]).unwrap();
    assert_eq!(s.acquire(0), Admission::Entered);
    assert_eq!(s.acquire(0), Admission::MustWait);
    s.release(0);
    assert_eq!(s.acquire(0), Admission::Entered);
    assert_eq!(s.outstanding(0), 1);
}

#[test]
fn exhausted_class_does_not_block_the_other() {
    let mut s = Semaphore::new(vec![2, 3]).unwrap();
    let east = Direction::East.class();
    let west = Direction::West.class();
    assert_eq!(s.acquire(east), Admission::Entered);
    assert_eq!(s.acquire(east), Admission::Entered);
    assert_eq!(s.acquire(east), Admission::MustWait);
    for _ in 0..3 {
        assert_eq!(s.acquire(west), Admission::Entered);
    }
    assert_eq!(s.acquire(west), Admission::MustWait);
    assert_eq!(s.acquire(east), Admission::MustWait);
    s.release(west);
    assert_eq!(s.acquire(east), Admission::MustWait);
    assert_eq!(s.acquire(west), Admission::Entered);
}

#[test]
fn outstanding_is_acquisitions_less_releases() {
    let mut s = Semaphore::new(vec![4, 1]).unwrap();
    let mut acquired = [0usize; 2];
    let mut released = [0usize; 2];
    let script: [(bool, usize); 12] = [
        (true, 0),
        (true, 0),
        (true, 1),
        (true, 1),
        (false, 0),
        (true, 0),
        (false, 1),
        (true, 1),
        (true, 0),
        (true, 0),
        (true, 0),
        (false, 0),
    ];
    for (is_acquire, c) in script {
        if is_acquire {
            if s.acquire(c) == Admission::Entered {
                acquired[c] += 1;
            }
        } else {
            s.release(c);
            released[c] += 1;
        }
        for k in 0..2 {
            assert_eq!(s.outstanding(k), acquired[k] - released[k]);
            assert!(s.available(k) <= s.capacity(k));
        }
    }
    assert_eq!(acquired, [5, 2]);
    assert_eq!(released, [2, 1]);
    assert_eq!(s.outstanding(0), 3);
    assert_eq!(s.available(0), 1);
}
