//! Player-versus-player rankings of Pokémon: for each species and form, every
//! combination of individual values is placed at the highest level at which it
//! stays under a league's combat-power cap, and the combinations are ranked by
//! their stat product.

pub mod iv;
pub mod league;
pub mod names;
pub mod ranking;
pub mod gamemaster;
pub mod pokemon;
pub mod update;
