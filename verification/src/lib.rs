//! A grid of areas populated by creatures, advanced one tick at a time.
//!
//! The world is a fixed rectangle of areas; the population is a set of
//! creatures keyed by handle. Each creature stands on exactly one area and
//! each occupied area names exactly one creature. A tick lets every creature
//! try, in turn, to die, to step to a free neighbouring area and to reserve a
//! free neighbouring area for a newborn; afterwards the dead are dropped and
//! the newborn are placed. The link between the two structures is stated once,
//! as `consistency::consistent`, and every operation here is proved to keep
//! it.
//!
//! * `area`, `creature`, `error`: the records and the errors.
//! * `grid`: which coordinates exist and which are one step apart.
//! * `store`, `random`: the maps and the random source, which come from other
//!   crates, with what is taken on trust about them.
//! * `world`, `population`: the two structures.
//! * `consistency`: the rule that links them, and `validate`.
//! * `behavior`: one creature's turn.
//! * `progress`, `scheduler`: a tick.
//! * `setup`: building a world.
//! * `laws`: what holds of the whole.
//! * `seqs`: facts about sequences used along the way.

pub mod area;
pub mod behavior;
pub mod consistency;
pub mod creature;
pub mod error;
pub mod grid;
pub mod laws;
pub mod population;
pub mod progress;
pub mod random;
pub mod scheduler;
pub mod seqs;
pub mod setup;
pub mod store;
pub mod world;
