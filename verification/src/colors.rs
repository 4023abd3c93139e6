use vstd::prelude::*;

verus! {

/// A 24-bit display colour.
#[derive(Clone, Copy, Debug, PartialEq, Eq, Structural)]
pub struct Color {
    pub r: u8,
    pub g: u8,
    pub b: u8,
}

impl Color {
    /// The colour with the given red, green and blue parts.
    pub fn new(r: u8, g: u8, b: u8) -> (c: Color)
        ensures
            c == (Color { r, g, b }),
    {
        Color { r, g, b }
    }
}

/// Plain message text.
pub open spec fn spec_white() -> Color {
    Color { r: 255, g: 255, b: 255 }
}

/// Plain message text.
#[verifier::when_used_as_spec(spec_white)]
pub fn white() -> (c: Color)
    ensures
        c == spec_white(),
{
    Color { r: 255, g: 255, b: 255 }
}

/// Warnings and the player's death.
pub open spec fn spec_red() -> Color {
    Color { r: 255, g: 0, b: 0 }
}

/// Warnings and the player's death.
#[verifier::when_used_as_spec(spec_red)]
pub fn red() -> (c: Color)
    ensures
        c == spec_red(),
{
    Color { r: 255, g: 0, b: 0 }
}

/// Corpses.
pub open spec fn spec_dark_red() -> Color {
    Color { r: 191, g: 0, b: 0 }
}

/// Corpses.
#[verifier::when_used_as_spec(spec_dark_red)]
pub fn dark_red() -> (c: Color)
    ensures
        c == spec_dark_red(),
{
    Color { r: 191, g: 0, b: 0 }
}

/// A monster's death.
pub open spec fn spec_orange() -> Color {
    Color { r: 255, g: 127, b: 0 }
}

/// A monster's death.
#[verifier::when_used_as_spec(spec_orange)]
pub fn orange() -> (c: Color)
    ensures
        c == spec_orange(),
{
    Color { r: 255, g: 127, b: 0 }
}

/// Items picked up.
pub open spec fn spec_green() -> Color {
    Color { r: 0, g: 255, b: 0 }
}

/// Items picked up.
#[verifier::when_used_as_spec(spec_green)]
pub fn green() -> (c: Color)
    ensures
        c == spec_green(),
{
    Color { r: 0, g: 255, b: 0 }
}

/// Potions.
pub open spec fn spec_violet() -> Color {
    Color { r: 127, g: 0, b: 255 }
}

/// Potions.
#[verifier::when_used_as_spec(spec_violet)]
pub fn violet() -> (c: Color)
    ensures
        c == spec_violet(),
{
    Color { r: 127, g: 0, b: 255 }
}

/// Orcs.
pub open spec fn spec_desaturated_green() -> Color {
    Color { r: 63, g: 127, b: 63 }
}

/// Orcs.
#[verifier::when_used_as_spec(spec_desaturated_green)]
pub fn desaturated_green() -> (c: Color)
    ensures
        c == spec_desaturated_green(),
{
    Color { r: 63, g: 127, b: 63 }
}

/// Trolls.
pub open spec fn spec_darker_green() -> Color {
    Color { r: 0, g: 127, b: 0 }
}

/// Trolls.
#[verifier::when_used_as_spec(spec_darker_green)]
pub fn darker_green() -> (c: Color)
    ensures
        c == spec_darker_green(),
{
    Color { r: 0, g: 127, b: 0 }
}

/// A wall outside the field of view.
pub open spec fn spec_dark_wall() -> Color {
    Color { r: 0, g: 0, b: 100 }
}

/// A wall outside the field of view.
#[verifier::when_used_as_spec(spec_dark_wall)]
pub fn dark_wall() -> (c: Color)
    ensures
        c == spec_dark_wall(),
{
    Color { r: 0, g: 0, b: 100 }
}

/// Floor outside the field of view.
pub open spec fn spec_dark_ground() -> Color {
    Color { r: 50, g: 50, b: 150 }
}

/// Floor outside the field of view.
#[verifier::when_used_as_spec(spec_dark_ground)]
pub fn dark_ground() -> (c: Color)
    ensures
        c == spec_dark_ground(),
{
    Color { r: 50, g: 50, b: 150 }
}

/// A wall inside the field of view.
pub open spec fn spec_light_wall() -> Color {
    Color { r: 130, g: 110, b: 50 }
}

/// A wall inside the field of view.
#[verifier::when_used_as_spec(spec_light_wall)]
pub fn light_wall() -> (c: Color)
    ensures
        c == spec_light_wall(),
{
    Color { r: 130, g: 110, b: 50 }
}

/// Floor inside the field of view.
pub open spec fn spec_light_ground() -> Color {
    Color { r: 200, g: 180, b: 80 }
}

/// Floor inside the field of view.
#[verifier::when_used_as_spec(spec_light_ground)]
pub fn light_ground() -> (c: Color)
    ensures
        c == spec_light_ground(),
{
    Color { r: 200, g: 180, b: 80 }
}

} // verus!
