//! Annotates a desktop wallpaper with a task list.
//!
//! The library holds the verified logic: the file-state resolver that keeps
//! an original copy of the wallpaper beside its annotated variant, the text
//! layout engine that wraps text to a pixel budget, and the compositor that
//! treats a panel of the image and overlays the wrapped lines. Reading the
//! environment, running desktop commands and touching the filesystem stay
//! outside the library.

use vstd::prelude::*;

pub mod compose;
pub mod layout;
pub mod orchestrate;
pub mod paths;
pub mod strings;

verus! {

/// The errors this library and its callers distinguish.
#[derive(Clone, Copy, Debug, PartialEq, Eq, Structural)]
pub enum WallError {
    /// The desktop environment could not be identified.
    EnvironmentUnsupported,
    /// An external theme or wallpaper query failed.
    QueryFailed,
    /// An annotated wallpaper exists with no backing original.
    OriginalMissing,
    /// A filesystem copy during backup creation failed.
    CopyFailed,
    /// The input image is below the minimum usable size.
    ImageTooSmall,
    /// The image could not be decoded, transformed or encoded.
    ImageDecodeOrEncodeFailed,
    /// The external wallpaper-set call failed after files were written.
    ActivationFailed,
}

/// The light/dark theme a run operates under.
#[derive(Clone, Copy, Debug, PartialEq, Eq, Structural)]
pub enum Theme {
    Light,
    Dark,
}

} // verus!
