//! Choices of the capture-target picker.

use vstd::prelude::*;

verus! {

/// Tab selection for the picker UI.
#[derive(Debug, Clone, Copy, PartialEq, Eq, Structural)]
pub enum PickerTab {
    Screens,
    Windows,
}

/// Intent that triggered opening the picker.
#[derive(Debug, Clone, Copy, PartialEq, Eq, Structural)]
pub enum PickerIntent {
    StartRecording,
    StartAmbient,
}

} // verus!
