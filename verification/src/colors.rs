//! Display colours carried by tiles and entities.
//!
//! The simulation never inspects a colour; it only stores one on each entity
//! and swaps it when an entity dies, so a colour is three plain channels.

use vstd::prelude::*;

verus! {

/// An RGB colour.
#[derive(Clone, Copy, Debug, PartialEq, Eq, Structural)]
pub struct Color {
    pub r: u8,
    pub g: u8,
    pub b: u8,
}

/// White, as a value for contracts.
pub open spec fn spec_white() -> Color {
    Color { r: 255, g: 255, b: 255 }
}

/// Pure white, the player's colour.
#[verifier::when_used_as_spec(spec_white)]
pub fn white() -> (c: Color)
    ensures
        c == spec_white(),
{
    Color { r: 255, g: 255, b: 255 }
}

/// Dark red, as a value for contracts.
pub open spec fn spec_dark_red() -> Color {
    Color { r: 191, g: 0, b: 0 }
}

/// The colour of a corpse.
#[verifier::when_used_as_spec(spec_dark_red)]
pub fn dark_red() -> (c: Color)
    ensures
        c == spec_dark_red(),
{
    Color { r: 191, g: 0, b: 0 }
}

/// Desaturated green, as a value for contracts.
pub open spec fn spec_desaturated_green() -> Color {
    Color { r: 63, g: 127, b: 63 }
}

/// The colour of the common monster.
#[verifier::when_used_as_spec(spec_desaturated_green)]
pub fn desaturated_green() -> (c: Color)
    ensures
        c == spec_desaturated_green(),
{
    Color { r: 63, g: 127, b: 63 }
}

/// Darker green, as a value for contracts.
pub open spec fn spec_darker_green() -> Color {
    Color { r: 0, g: 127, b: 0 }
}

/// The colour of the rare monster.
#[verifier::when_used_as_spec(spec_darker_green)]
pub fn darker_green() -> (c: Color)
    ensures
        c == spec_darker_green(),
{
    Color { r: 0, g: 127, b: 0 }
}

} // verus!
