//! Getting a frame back from the GPU: how rows are padded on the way, and
//! what has to be allocated for it.

use vstd::prelude::*;

use super::error::BackendError;

verus! {

/// What the rows of a copied texture are aligned to, in bytes.
pub const ROW_ALIGNMENT: u32 = 256;

/// Bytes in a row of `width` pixels, padded to the alignment of a copy.
pub open spec fn padded_row(width: u32) -> int {
    (width * 4 + 255) / 256 * 256
}

/// Bytes per row in a readback buffer.
pub fn padded_bytes_per_row(width: u32) -> (r: u32)
    requires
        width * 4 + 255 <= u32::MAX,
    ensures
        r == padded_row(width),
{
    let bytes_per_row: u32 = width * 4;
    (bytes_per_row + 255) / ROW_ALIGNMENT * ROW_ALIGNMENT
}

/// Bytes in a readback buffer.
pub fn readback_size(padded: u32, height: u32) -> (r: u64)
    ensures
        r == padded * height,
{
    assert(padded * height <= u32::MAX * u32::MAX) by (nonlinear_arith)
        requires
            0 <= padded <= u32::MAX,
            0 <= height <= u32::MAX,
    ;
    padded as u64 * height as u64
}

/// A padded row is whole in the alignment, holds its pixels, and wastes less
/// than one step of it.
pub proof fn lemma_rows_are_aligned(width: u32)
    ensures
        padded_row(width) % 256 == 0,
        width * 4 <= padded_row(width) < width * 4 + 256,
{
}

/// Check that a buffer has exactly the size of a frame.
pub fn check_buffer(width: u32, height: u32, actual: usize) -> (r: Result<(), BackendError>)
    requires
        width * height * 4 <= usize::MAX,
    ensures
        r == (if actual == width * height * 4 {
            Ok::<(), BackendError>(())
        } else {
            Err(BackendError::BufferSize { expected: (width * height * 4) as usize, actual })
        }),
{
    assert(width * height <= width * height * 4) by (nonlinear_arith)
        requires
            width >= 0,
            height >= 0,
    ;
    let expected: usize = width as usize * height as usize * 4;
    if actual != expected {
        return Err(BackendError::BufferSize { expected, actual });
    }
    Ok(())
}

/// Whether a device whose textures have edges of up to `limit` pixels can hold
/// a frame, or why it cannot.
pub open spec fn frame_fits(width: u32, height: u32, limit: u32) -> Result<(), BackendError> {
    if width > limit || height > limit {
        Err(BackendError::FrameTooLarge { width, height, limit })
    } else {
        Ok(())
    }
}

/// Check a frame against the longest edge a texture of the device can have,
/// before anything is allocated: past it the device would not return.
pub fn check_frame_size(width: u32, height: u32, limit: u32) -> (r: Result<(), BackendError>)
    ensures
        r == frame_fits(width, height, limit),
{
    if width > limit || height > limit {
        return Err(BackendError::FrameTooLarge { width, height, limit });
    }
    Ok(())
}

/// Copy the rows of a readback buffer, without their padding, over `out`.
pub fn unpad_rows(data: &[u8], padded: usize, row_bytes: usize, height: usize, out: &mut Vec<u8>)
    requires
        row_bytes <= padded,
        padded * height <= data@.len(),
        old(out)@.len() == row_bytes * height,
    ensures
        final(out)@.len() == old(out)@.len(),
        forall|y: int, x: int|
            0 <= y < height && 0 <= x < row_bytes ==> #[trigger] final(out)@[y * row_bytes + x]
                == data@[y * padded + x],
{
    let total: usize = data.len();
    let mut y: usize = 0;
    while y < height
        invariant
            y <= height,
            total == data@.len(),
            row_bytes <= padded,
            padded * height <= data@.len(),
            out@.len() == row_bytes * height,
            forall|v: int, x: int|
                0 <= v < y && 0 <= x < row_bytes ==> #[trigger] out@[v * row_bytes + x]
                    == data@[v * padded + x],
        decreases height - y,
    {
        assert(y * row_bytes + row_bytes <= row_bytes * height) by (nonlinear_arith)
            requires
                y + 1 <= height,
        ;
        assert(y * padded + padded <= padded * height) by (nonlinear_arith)
            requires
                y + 1 <= height,
        ;
        assert(out.len() <= usize::MAX);
        assert(y * row_bytes <= row_bytes * height && y * padded <= padded * height)
            by (nonlinear_arith)
            requires
                0 <= y < height,
        ;
        let to: usize = y * row_bytes;
        let from: usize = y * padded;
        let mut x: usize = 0;
        while x < row_bytes
            invariant
                y < height,
                total == data@.len(),
                x <= row_bytes <= padded,
                to == y * row_bytes,
                from == y * padded,
                to + row_bytes <= out@.len(),
                from + padded <= data@.len(),
                out@.len() == row_bytes * height,
                forall|v: int, u: int|
                    0 <= v < y && 0 <= u < row_bytes ==> #[trigger] out@[v * row_bytes + u]
                        == data@[v * padded + u],
                forall|u: int| 0 <= u < x ==> out@[to + u] == #[trigger] data@[from + u],
            decreases row_bytes - x,
        {
            assert(out.len() <= usize::MAX);
            let ghost before = out@;
            out[to + x] = data[from + x];
            assert forall|v: int, u: int|
                0 <= v < y && 0 <= u < row_bytes implies #[trigger] out@[v * row_bytes + u]
                == data@[v * padded + u] by {
                assert(v * row_bytes + u < y * row_bytes) by (nonlinear_arith)
                    requires
                        0 <= v,
                        v + 1 <= y,
                        0 <= u < row_bytes,
                ;
                assert(v * row_bytes + u >= 0) by (nonlinear_arith)
                    requires
                        0 <= v,
                        0 <= u,
                        0 <= row_bytes,
                ;
                assert(before[v * row_bytes + u] == data@[v * padded + u]);
            }
            x = x + 1;
        }
        assert forall|v: int, u: int|
            0 <= v < y + 1 && 0 <= u < row_bytes implies #[trigger] out@[v * row_bytes + u]
            == data@[v * padded + u] by {
            if v == y {
                assert(v * row_bytes == to && v * padded == from);
                assert(out@[to + u] == data@[from + u]);
            }
        }
        y = y + 1;
    }
}

/// Turn the completion of a mapping into the outcome of the readback.
pub fn await_map(res: Option<Result<(), String>>) -> (r: Result<(), BackendError>)
    ensures
        match res {
            Some(Ok(())) => r is Ok,
            Some(Err(e)) => r == Err::<(), BackendError>(BackendError::Readback(e)),
            None => r is Err && r->Err_0 is Readback && r->Err_0->Readback_0@
                == "map_async sender dropped"@,
        },
{
    match res {
        Some(Ok(())) => Ok(()),
        Some(Err(e)) => Err(BackendError::Readback(e)),
        None => Err(BackendError::Readback("map_async sender dropped".to_owned())),
    }
}

/// The target a renderer draws to, as far as its size goes.
#[derive(Debug)]
pub struct TargetSize {
    pub current: Option<(u32, u32)>,
}

impl TargetSize {
    /// No target.
    pub fn new() -> (r: TargetSize)
        ensures
            r.current is None,
    {
        TargetSize { current: None }
    }

    /// Make sure the target has this size. Says whether a new one has to be
    /// allocated.
    pub fn ensure(&mut self, width: u32, height: u32) -> (fresh: bool)
        ensures
            fresh == (old(self).current != Some((width, height))),
            final(self).current == Some((width, height)),
    {
        let same = match self.current {
            Some((w, h)) => w == width && h == height,
            None => false,
        };
        if same {
            return false;
        }
        self.current = Some((width, height));
        true
    }

    /// Start rendering a frame into a buffer: the buffer is checked first,
    /// then the draw budget, then the frame size against the device's limit;
    /// and only then is the target sized. Says whether a new one has to be allocated.
    pub fn render_to_buffer(
        &mut self,
        width: u32,
        height: u32,
        buffer: usize,
        budget: Result<(), BackendError>,
        limit: u32,
    ) -> (r: Result<bool, BackendError>)
        requires
            width * height * 4 <= usize::MAX,
        ensures
            if buffer != width * height * 4 {
                &&& r == Err::<bool, BackendError>(
                    BackendError::BufferSize {
                        expected: (width * height * 4) as usize,
                        actual: buffer,
                    },
                )
                &&& *final(self) == *old(self)
            } else if budget is Err {
                r == Err::<bool, BackendError>(budget->Err_0) && *final(self) == *old(self)
            } else if frame_fits(width, height, limit) is Err {
                &&& r == Err::<bool, BackendError>(frame_fits(width, height, limit)->Err_0)
                &&& *final(self) == *old(self)
            } else {
                &&& r == Ok::<bool, BackendError>(old(self).current != Some((width, height)))
                &&& final(self).current == Some((width, height))
            },
    {
        if let Err(e) = check_buffer(width, height, buffer) {
            return Err(e);
        }
        if let Err(e) = budget {
            return Err(e);
        }
        if let Err(e) = check_frame_size(width, height, limit) {
            return Err(e);
        }
        Ok(self.ensure(width, height))
    }
}

/// A frame is refused exactly when an edge of it is longer than the device can
/// hold, whichever it is.
pub proof fn lemma_frames_fit_by_their_edges(width: u32, height: u32, limit: u32)
    ensures
        frame_fits(width, height, limit) is Ok <==> width <= limit && height <= limit,
        frame_fits(width, height, limit) is Ok <==> frame_fits(height, width, limit) is Ok,
        frame_fits(width, height, limit) is Err ==> frame_fits(width, height, limit)->Err_0
            == (BackendError::FrameTooLarge { width, height, limit }),
{
}

} // verus!
