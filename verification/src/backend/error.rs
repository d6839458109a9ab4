//! What a backend can fail with.

use vstd::prelude::*;

use crate::text::{decimal_text, push_decimal};

verus! {

/// Anything a backend can fail with.
#[derive(Debug)]
pub enum BackendError {
    /// The buffer to draw into has not the size of the frame.
    BufferSize { expected: usize, actual: usize },
    /// There is no usable adapter.
    NoAdapter,
    /// The adapter gave no device, and why.
    DeviceRequest(String),
    /// The pixels did not come back, and why.
    Readback(String),
    /// The scene holds more than can be drawn in one pass.
    SceneTooLarge { used: u32, max: u32 },
    /// An edge of the frame is longer than a scene can be.
    EdgeTooLong { edge: u32 },
    /// The device has no textures of the frame's size.
    FrameTooLarge { width: u32, height: u32, limit: u32 },
    /// Something else.
    Other(String),
}

/// What an error says to a person.
pub open spec fn backend_error_text(e: BackendError) -> Seq<char> {
    match e {
        BackendError::BufferSize { expected, actual } => "buffer holds "@ + decimal_text(
            actual as nat,
        ) + " bytes where the frame needs "@ + decimal_text(expected as nat),
        BackendError::NoAdapter => "no usable GPU adapter"@,
        BackendError::DeviceRequest(m) => "device request failed: "@ + m@,
        BackendError::Readback(m) => "readback failed: "@ + m@,
        BackendError::SceneTooLarge { used, max } => "scene uses "@ + decimal_text(used as nat)
            + " draw-info words of "@ + decimal_text(max as nat),
        BackendError::EdgeTooLong { edge } => decimal_text(edge as nat)
            + " px is longer than a scene can be"@,
        BackendError::FrameTooLarge { width, height, limit } => decimal_text(width as nat)
            + " × "@ + decimal_text(height as nat) + " px is past the "@ + decimal_text(
            limit as nat,
        ) + " px this device can hold"@,
        BackendError::Other(m) => m@,
    }
}

impl BackendError {
    /// What the error says to a person.
    pub fn message(&self) -> (out: String)
        ensures
            out@ == backend_error_text(*self),
    {
        let mut out = String::new();
        match self {
            BackendError::BufferSize { expected, actual } => {
                out.append("buffer holds ");
                push_decimal(&mut out, *actual as u64);
                out.append(" bytes where the frame needs ");
                push_decimal(&mut out, *expected as u64);
            },
            BackendError::NoAdapter => out.append("no usable GPU adapter"),
            BackendError::DeviceRequest(m) => {
                out.append("device request failed: ");
                out.append(m.as_str());
            },
            BackendError::Readback(m) => {
                out.append("readback failed: ");
                out.append(m.as_str());
            },
            BackendError::SceneTooLarge { used, max } => {
                out.append("scene uses ");
                push_decimal(&mut out, *used as u64);
                out.append(" draw-info words of ");
                push_decimal(&mut out, *max as u64);
            },
            BackendError::EdgeTooLong { edge } => {
                push_decimal(&mut out, *edge as u64);
                out.append(" px is longer than a scene can be");
            },
            BackendError::FrameTooLarge { width, height, limit } => {
                push_decimal(&mut out, *width as u64);
                out.append(" × ");
                push_decimal(&mut out, *height as u64);
                out.append(" px is past the ");
                push_decimal(&mut out, *limit as u64);
                out.append(" px this device can hold");
            },
            BackendError::Other(m) => out.append(m.as_str()),
        }
        assert(out@ =~= backend_error_text(*self));
        out
    }
}

} // verus!
