use vstd::prelude::*;

pub mod provider;
pub mod text;
pub mod json;
pub mod cli;
pub mod docker;
pub mod files;
pub mod apple;
pub mod terminal;
pub mod runtime;
pub mod tray;

verus! {
}
