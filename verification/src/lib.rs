pub mod config;
pub mod context;
pub mod controller;
pub mod diff;
pub mod finder;
pub mod git;
pub mod graph;
pub mod help;
pub mod host;
pub mod input;
pub mod intent;
pub mod launch;
pub mod picker;
pub mod presenter;
pub mod root;
pub mod search;
pub mod text;

use vstd::prelude::*;

verus! {

/// Label of the Herdr pane that hosts the graph viewer.
pub const PANE_LABEL: &'static str = "Git Graph";

} // verus!
