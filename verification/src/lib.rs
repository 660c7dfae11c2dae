//! Safe retrieval of several simultaneously usable slots of one collection.
//!
//! A container that implements [`SplitMut`] resolves each key to the identity
//! of the storage slot it denotes. The checked accessors `get2_mut`,
//! `get3_mut` and `get4_mut` return a tuple of per-key results, each one of
//! them being `Ok` with a slot, `Err(SplitMutError::NoValue)` when there was
//! no value for the key, or `Err(SplitMutError::SameValue)` when the same
//! slot has already been returned earlier in the tuple. Every slot returned
//! with `Ok` is proved distinct from every other one of the same call, so the
//! values they denote can be read and written independently through the
//! container's slot primitives.
//!
//! If you need more than four slots, [`get_muts`] opens a session over the
//! container and hands out any number of distinct slots one key at a time,
//! and [`get_mut_iter`] maps a whole key sequence to one result per key with
//! the same aliasing discipline.

pub mod access;
pub mod adapters;
pub mod error;
pub mod keyed_map;
pub mod laws;
pub mod outcome;
pub mod session;
pub mod str_map;

pub use access::SplitMut;
pub use error::SplitMutError;
pub use keyed_map::KeyedMap;
pub use outcome::check_r;
pub use outcome::to_r;
pub use session::get_mut_iter;
pub use session::get_muts;
pub use session::GetMutIter;
pub use session::GetMuts;
pub use str_map::StrMap;
