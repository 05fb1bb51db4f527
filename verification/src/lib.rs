//! The logic of the Moete Discord bot: what its commands and listeners decide
//! and what text they answer with, from plain values to plain values.
use vstd::prelude::*;

pub mod counter;
pub mod emote;
pub mod handler;
pub mod markov;
pub mod music;
pub mod outside;
pub mod role;
pub mod shortcut;
pub mod status;
pub mod text;
pub mod utility;

verus! {

} // verus!
