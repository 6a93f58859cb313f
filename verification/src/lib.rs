use vstd::prelude::*;

pub mod commands;
pub mod jellyfin;
pub mod player;
pub mod text;

verus! {
}
