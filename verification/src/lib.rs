//! A registry of named networks, the modules registered on them and the stake
//! that backs them.
//!
//! The registry keeps every record in keyed stores of its own. A network is
//! created under a numeric identifier, holds a bounded population of module
//! slots, and is torn down as a whole: name, slots, parameters and stake.

pub mod laws;
pub mod registry;
pub mod state;
pub mod store;
pub mod types;
