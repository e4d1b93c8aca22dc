//! The vocabulary of the console protocol: the calls that the player asks
//! its driver to make on the console, and what the driver reports back.

use crate::color::Color;
use crate::glyph::text_units;
use uefi::CString16;
use vstd::prelude::*;

verus! {

/// A text mode of the console, as the console enumerates it.
#[derive(Clone, Copy, Debug, PartialEq, Eq, Structural)]
pub struct DisplayMode {
    pub index: usize,
    pub columns: usize,
    pub rows: usize,
}

/// The failure of a console call, with the status that the console gave.
#[derive(Clone, Copy, Debug, PartialEq, Eq, Structural)]
pub struct SinkFailure {
    pub status: usize,
}

/// What the driver reports of the console call that it was last asked to
/// make.
#[derive(Clone, Copy, Debug, PartialEq, Eq, Structural)]
pub enum Reply {
    /// The call returned.
    Done,
    /// The call failed.
    Failed(SinkFailure),
}

/// A call on the console, as a plain value.
pub enum Call {
    SelectMode(DisplayMode),
    Clear,
    SetColors { foreground: Color, background: Color },
    Write(Seq<u16>),
    Delay(usize),
}

/// A call on the console that the driver is asked to make.
#[derive(Debug, PartialEq, Eq)]
pub enum SinkCall {
    /// Make the mode the current one.
    SelectMode(DisplayMode),
    /// Reset the whole surface to the background that was last set.
    Clear,
    /// Set the colors for the text that follows.
    SetColors { foreground: Color, background: Color },
    /// Draw the text at the cursor in the colors that were last set.
    Write(CString16),
    /// Hold for the given time before the next call.
    Delay(usize),
}

impl View for SinkCall {
    type V = Call;

    open spec fn view(&self) -> Call {
        match *self {
            SinkCall::SelectMode(mode) => Call::SelectMode(mode),
            SinkCall::Clear => Call::Clear,
            SinkCall::SetColors { foreground, background } => Call::SetColors {
                foreground,
                background,
            },
            SinkCall::Write(text) => Call::Write(text_units(text)),
            SinkCall::Delay(time) => Call::Delay(time),
        }
    }
}

} // verus!
