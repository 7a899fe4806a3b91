//! Recording and replay of boundary crossings.
//!
//! A call across a boundary is recorded as an event ([`event`], [`builder`]) by a
//! hook ([`hook`], [`recording`]) and given back under replay, along a tape
//! ([`replay_hook`]) or out of a lookup table ([`lookup`], [`lookup_hook`]).
//! [`dispatch`] crosses a boundary; [`crossing`] holds its decisions.

use vstd::prelude::*;

pub mod ambient;
pub mod args_hash;
pub mod builder;
pub mod canonical;
pub mod capture_key;
pub mod captured;
pub mod crossing;
pub mod db_key;
pub mod dispatch;
pub mod event;
pub mod exact_bytes;
pub mod fnv;
pub mod graph;
pub mod hash_seed;
pub mod hook;
pub mod identity;
pub mod json;
pub mod lineage;
pub mod lockstep;
pub mod lookup;
pub mod lookup_hook;
pub mod metrics;
pub mod observed;
pub mod order;
pub mod process;
pub mod recording;
pub mod replay_hook;
pub mod replay_index;
pub mod report;
pub mod seed;
pub mod seed_plan;
pub mod spans;
pub mod state_key;
pub mod table;
pub mod text;

verus! {

} // verus!
