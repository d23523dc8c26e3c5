use vstd::prelude::*;

pub mod actions;
pub mod card_effects;
pub mod board;
pub mod builder;
pub mod cards;
pub mod choices;
pub mod damage;
pub mod display;
pub mod events;
pub mod gameplay;
pub mod groups;
pub mod hex;
pub mod library;
pub mod modifier_rules;
pub mod modifiers;
pub mod prompters;
pub mod rules;
pub mod setup;
pub mod state;
pub mod triggers;
pub mod turns;

verus! {

} // verus!
