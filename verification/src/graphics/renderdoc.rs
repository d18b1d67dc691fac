//! Captures of frames, for debugging.

use vstd::prelude::*;

verus! {

/// The tool that captures frames, if there is any.
#[derive(Copy, Clone, Debug, PartialEq, Eq, Structural)]
pub struct RenderDoc {
    pub available: bool,
}

/// What is to be captured.
#[derive(Copy, Clone, Debug, PartialEq, Eq, Structural)]
pub enum Capture {
    Nothing,
    NextFrame,
    NextFrames(u32),
}

/// Starts with the tool, if it could be loaded.
pub fn init(loaded: bool) -> (rd: RenderDoc)
    ensures
        rd == (RenderDoc { available: loaded }),
{
    RenderDoc { available: loaded }
}

/// Decides what to capture: the next frames, as many as wanted, if there is a tool for that.
pub fn trigger_capture(rd: &RenderDoc, n_frames: u32) -> (capture: Capture)
    ensures
        capture == (if !rd.available {
            Capture::Nothing
        } else if n_frames == 1 {
            Capture::NextFrame
        } else {
            Capture::NextFrames(n_frames)
        }),
{
    if rd.available {
        if n_frames == 1 {
            Capture::NextFrame
        } else {
            Capture::NextFrames(n_frames)
        }
    } else {
        Capture::Nothing
    }
}

} // verus!
