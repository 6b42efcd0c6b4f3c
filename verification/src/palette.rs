//! The display colours that the built-in pieces carry.
//!
//! A colour is a value of the rendering library. The engine never looks
//! inside one: it stores the colour a piece was made with and hands it back.

use vstd::prelude::*;
use macroquad::color::Color;

verus! {

/// Trusted: makes `macroquad::color::Color` known as a type of which
/// nothing is seen but that two values are equal or not.
#[verifier::external_type_specification]
#[verifier::external_body]
pub struct ExColor(macroquad::color::Color);

/// Trusted: hands out the constant `macroquad::color::PINK`. Nothing is
/// claimed of the value.
#[verifier::external_body]
pub(crate) fn pink() -> Color {
    macroquad::color::PINK
}

/// Trusted: hands out the constant `macroquad::color::BLUE`. Nothing is
/// claimed of the value.
#[verifier::external_body]
pub(crate) fn blue() -> Color {
    macroquad::color::BLUE
}

/// Trusted: hands out the constant `macroquad::color::GREEN`. Nothing is
/// claimed of the value.
#[verifier::external_body]
pub(crate) fn green() -> Color {
    macroquad::color::GREEN
}

/// Trusted: hands out the constant `macroquad::color::ORANGE`. Nothing is
/// claimed of the value.
#[verifier::external_body]
pub(crate) fn orange() -> Color {
    macroquad::color::ORANGE
}

/// Trusted: hands out the constant `macroquad::color::RED`. Nothing is
/// claimed of the value.
#[verifier::external_body]
pub(crate) fn red() -> Color {
    macroquad::color::RED
}

/// Trusted: hands out the constant `macroquad::color::PURPLE`. Nothing is
/// claimed of the value.
#[verifier::external_body]
pub(crate) fn purple() -> Color {
    macroquad::color::PURPLE
}

/// Trusted: hands out the constant `macroquad::color::YELLOW`. Nothing is
/// claimed of the value.
#[verifier::external_body]
pub(crate) fn yellow() -> Color {
    macroquad::color::YELLOW
}

} // verus!
