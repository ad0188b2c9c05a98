use vstd::prelude::*;

use crate::registry::SpawnedFutureKey;

verus! {

/// Types that can be moved to and shared between threads for the life of the program.
pub trait SSS: Send + Sync + 'static {}

impl<T: Send + Sync + 'static> SSS for T {}

/// Types that give a copy of their current value.
pub trait Get<T: Clone> {
    fn get(&self) -> T;
}

/// Types that give a signal of their value.
pub trait HasSignal<T: Clone> {
    type Return;

    fn signal(&self) -> Self::Return;
}

/// Types whose futures were spawned under a key.
pub trait HasSpawnedFutureKey {
    fn spawned_future_key(&self) -> SpawnedFutureKey;
}

} // verus!
