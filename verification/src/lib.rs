//! The logic of a calendar server for a one-bit e-ink display.

use vstd::prelude::*;

pub mod agenda;
pub mod bmp;
pub mod calendar;
pub mod clock;
pub mod config;
pub mod devices;
pub mod dither;
pub mod draw;
pub mod four_weeks;
pub mod headers;
pub mod image;
pub mod month;
pub mod oauth;
pub mod server;
pub mod text;
pub mod urlencoding;
pub mod weather;

verus! {

} // verus!
