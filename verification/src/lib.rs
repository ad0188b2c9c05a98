pub mod diff;
pub mod channel;
pub mod btree_state;
pub mod sync;
pub mod btree_map;
pub mod map_signals;
pub mod order;
pub mod keys;
pub mod slots;
pub mod mutable;
pub mod registry;
pub mod composable;
pub mod traits;

