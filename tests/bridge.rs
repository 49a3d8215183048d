use bridge_gate::bridge::{Bridge, Phase, Vehicle};
use bridge_gate::semaphore::{Admission, Direction, Semaphore};

/// Runs every vehicle to the far side in rounds: in each round, in order,
/// a vehicle that has been on the bridge since an earlier round leaves and
/// a waiting one tries to enter. Returns, after every step, how many
/// vehicles of each class are on the bridge, and the log of (id, entered?).
fn run_rounds(bridge: &mut Bridge, vehicles: &mut Vec<Vehicle>) -> (Vec<Vec<usize>>, Vec<(usize, bool)>) {
    let classes = bridge.semaphore().num_classes();
    let mut snapshots = Vec::new();
    let mut log = Vec::new();
    let mut rounds = 0;
    while vehicles.iter().any(|v| v.phase != Phase::Crossed) {
        rounds += 1;
        assert!(rounds <= 2 * vehicles.len() + 1, "no progress");
        let on_bridge: Vec<bool> = vehicles.iter().map(|v| v.phase == Phase::Crossing).collect();
        for (i, v) in vehicles.iter_mut().enumerate() {
            if on_bridge[i] {
                bridge.leave(v);
                log.push((v.id, false));
            } else if v.phase == Phase::Waiting && bridge.enter(v) == Admission::Entered {
                log.push((v.id, true));
            }
            snapshots.push((0..classes).map(|c| bridge.semaphore().outstanding(c)).collect());
        }
    }
    (snapshots, log)
}

#[test]
fn new_bridge_keeps_semaphore_and_crossing_time() {
    let bridge = Bridge::new(Semaphore::new(vec![2, 3]).unwrap(), 1000);
    assert_eq!(bridge.crossing_ms(), 1000);
    assert_eq!(bridge.semaphore().capacity(0), 2);
    assert_eq!(bridge.semaphore().available(1), 3);
}

#[test]
fn vehicle_phases_follow_enter_and_leave() {
    let mut bridge = Bridge::new(Semaphore::new(vec![1]).unwrap(), 0);
    let mut a = Vehicle::new(1, 0);
    let mut b = Vehicle::new(2, 0);
    assert_eq!(a.phase, Phase::Waiting);
    assert_eq!(bridge.enter(&mut a), Admission::Entered);
    assert_eq!(a.phase, Phase::Crossing);
    assert_eq!(bridge.enter(&mut b), Admission::MustWait);
    assert_eq!(b.phase, Phase::Waiting);
    bridge.leave(&mut a);
    assert_eq!(a.phase, Phase::Crossed);
    assert_eq!(bridge.semaphore().outstanding(0), 0);
    assert_eq!(bridge.enter(&mut b), Admission::Entered);
    assert_eq!(b, Vehicle { id: 2, class: 0, phase: Phase::Crossing });
}

#[test]
fn two_way_traffic_respects_each_direction() {
    let mut bridge = Bridge::new(Semaphore::new(vec![2, 3]).unwrap(), 1000);
    let mut vehicles: Vec<Vehicle> = (1..=13)
        .map(|i| {
            let d = if i % 2 == 0 { Direction::West } else { Direction::East };
            Vehicle::new(i, d.class())
        })
        .collect();
    let (snapshots, log) = run_rounds(&mut bridge, &mut vehicles);
    let east = Direction::East.class();
    let west = Direction::West.class();
    assert!(snapshots.iter().all(|s| s[east] <= 2 && s[west] <= 3));
    assert_eq!(snapshots.iter().map(|s| s[east]).max(), Some(2));
    assert_eq!(snapshots.iter().map(|s| s[west]).max(), Some(3));
    assert!(vehicles.iter().all(|v| v.phase == Phase::Crossed));
    assert_eq!(log.iter().filter(|e| e.1).count(), 13);
    assert_eq!(log.iter().filter(|e| !e.1).count(), 13);
    assert_eq!(bridge.semaphore().available(east), 2);
    assert_eq!(bridge.semaphore().available(west), 3);
}

#[test]
fn shared_pool_of_one_serialises_every_crossing() {
    let mut bridge = Bridge::new(Semaphore::new(vec![1]).unwrap(), 1000);
    let mut vehicles: Vec<Vehicle> = (1..=10).map(|i| Vehicle::new(i, 0)).collect();
    let (snapshots, log) = run_rounds(&mut bridge, &mut vehicles);
    assert!(snapshots.iter().all(|s| s[0] <= 1));
    assert_eq!(log.len(), 20);
    for pair in log.chunks(2) {
        assert!(pair[0].1, "an entry comes first");
        assert!(!pair[1].1, "then that vehicle's exit");
        assert_eq!(pair[0].0, pair[1].0);
    }
    assert!(vehicles.iter().all(|v| v.phase == Phase::Crossed));
}
