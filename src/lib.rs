//! A directional capacity-limited semaphore: a monitor that bounds, per traffic
//! class, how many actors may be inside a shared single-lane resource at once.
//!
//! The library holds the semaphore's decisions as verified state machines: one
//! admission attempt or one release at a time, each taken while the caller
//! holds the lock that guards the semaphore. Blocking, waking and timing belong to
//! whoever runs those steps under a mutex and a condition variable.

pub mod semaphore;
pub mod bridge;
