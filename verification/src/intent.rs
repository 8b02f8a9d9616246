//! What a key press asks the viewer to do.
use vstd::prelude::*;

verus! {

#[derive(Debug, Clone, Copy, PartialEq, Eq, Structural)]
pub enum Intent {
    MoveUp,
    MoveDown,
    PageUp,
    PageDown,
    /// Opens the commit details pane (idempotent; Esc closes the viewer).
    ToggleDetailsPane,
    ToggleDiff,
    BranchPicker,
    Search,
    Help,
    Quit,
    Cancel,
    Confirm,
    ScrollDetailsUp,
    ScrollDetailsDown,
}

} // verus!
