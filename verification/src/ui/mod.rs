//! The presentation model: rows of the diff view, status-bar texts and style
//! roles. Drawing them on a terminal happens outside the library.
pub mod panel;
pub mod statusbar;
pub mod overlay;

use vstd::prelude::*;

verus! {

/// High-level application phase, shown by the status bar and overlays.
#[derive(Debug, Clone, Copy, PartialEq, Eq, Structural)]
pub enum AppState {
    Idle,
    Scanning,
    /// Files are being compared in the background.
    Comparing { done: usize, total: usize },
    Ready,
}

} // verus!
