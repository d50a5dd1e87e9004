use vstd::prelude::*;

use std::sync::atomic::AtomicBool;
use std::sync::atomic::Ordering;
use std::sync::Arc;

verus! {

/// A flag shared between threads that asks long work to stop.
///
/// What a load returns depends on the other threads that share the flag,
/// so no contract states it.
#[derive(Clone, Debug)]
pub struct Cancelable {
    flag: Arc<AtomicBool>,
}

impl Cancelable {
    /// A flag that is not raised.
    pub fn new() -> (r: Self) {
        Cancelable { flag: Arc::new(AtomicBool::new(false)) }
    }

    /// Raises the flag.
    pub fn cancel(&self) {
        self.flag.store(true, Ordering::Relaxed);
    }

    /// Whether the flag is raised.
    pub fn is_canceled(&self) -> (r: bool) {
        self.flag.load(Ordering::Relaxed)
    }

    /// Lowers the flag.
    pub fn clear(&self) {
        self.flag.store(false, Ordering::Relaxed);
    }
}

} // verus!
