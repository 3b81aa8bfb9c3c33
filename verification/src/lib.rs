//! Offline lookup of GTA V zones and roads for a map coordinate.
use vstd::prelude::*;

pub mod text;
pub mod number;
pub mod coords;
pub mod cli;
pub mod zones;
pub mod roads;
pub mod report;
pub mod archive;

verus! {
}
