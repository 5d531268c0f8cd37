//! Campaign bookkeeping for a tabletop dashboard: 5e rules arithmetic, dice
//! notation, character and combatant records, initiative order, and the
//! decisions behind each server action.
use vstd::prelude::*;

pub mod auth;
pub mod dice;
pub mod json;
pub mod models;
pub mod rules;
pub mod server;
pub mod text;

verus! {

} // verus!
