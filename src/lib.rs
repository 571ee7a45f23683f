//! Coordination logic of a validator that shares one evolving cellular-automaton
//! row among peer workers: chunk scheduling, the growable byte store, lane-seam
//! reconciliation, the persisted validator state and the per-round decisions.

use vstd::prelude::*;

pub mod lanes;
pub mod schedule;
pub mod state;
pub mod store;
pub mod validator;
