//! The sparse-strip renderer: what has to be built, uploaded and allocated
//! before a frame is drawn.

use vstd::prelude::*;

use super::error::BackendError;
use super::readback::{check_buffer, check_frame_size, frame_fits, TargetSize};
use super::resources::{first_stuck, missing, Format, SizeBound, SizeBoundView, WantedImage};

verus! {

/// The byte order a buffer is handed out in, as a target format.
pub const BUFFER_FORMAT: Format = 0;

/// What to do before a frame can be drawn, and whether it then can be.
#[derive(Debug)]
pub struct FramePlan {
    /// The size to rebuild the size-bound state for, when it has to be.
    pub rebuild: Option<(u16, u16)>,
    /// The images to upload, in this order.
    pub upload: Vec<u64>,
    /// Whether the frame is drawn once that is done, or why it is not.
    pub outcome: Result<(), BackendError>,
}

/// The state of a renderer: what is built for the current frame size, and
/// the target that a buffer is read back from.
#[derive(Debug)]
pub struct HybridState {
    pub sized: SizeBound,
    pub target: TargetSize,
    /// The format that drawing into a texture writes.
    pub target_format: Format,
}

/// True when no scene can have these edges.
pub open spec fn too_long(width: u32, height: u32) -> bool {
    width > u16::MAX || height > u16::MAX
}

/// The edge that is named in the refusal of a frame.
pub open spec fn longest_reported(width: u32, height: u32) -> u32 {
    if width > u16::MAX {
        width
    } else {
        height
    }
}

/// The size-bound state once a frame of this size can be drawn.
pub open spec fn resized(
    before: SizeBoundView,
    width: u32,
    height: u32,
    format: Format,
) -> SizeBoundView {
    if before.built_for == Some((width, height, format)) {
        before
    } else {
        SizeBoundView { built_for: Some((width, height, format)), images: Set::empty() }
    }
}

/// True when a plan, and the size-bound state after it, are those for a frame.
pub open spec fn prepared(
    before: SizeBoundView,
    width: u32,
    height: u32,
    format: Format,
    limit: u32,
    wanted: Seq<WantedImage>,
    plan: FramePlan,
    after: SizeBoundView,
) -> bool {
    if frame_fits(width, height, limit) is Err {
        &&& plan.rebuild is None && plan.upload@.len() == 0
        &&& plan.outcome == frame_fits(width, height, limit)
        &&& after == before
    } else if before.built_for != Some((width, height, format)) && too_long(width, height) {
        &&& plan.rebuild is None && plan.upload@.len() == 0
        &&& plan.outcome == Err::<(), BackendError>(
            BackendError::EdgeTooLong { edge: longest_reported(width, height) },
        )
        &&& after == before
    } else {
        let sized = resized(before, width, height, format);
        let end = first_stuck(sized.images, wanted, 0);
        &&& plan.rebuild == if before.built_for == Some((width, height, format)) {
            None
        } else {
            Some((width as u16, height as u16))
        }
        &&& plan.upload@ == missing(sized.images, wanted, end as nat)
        &&& plan.outcome is Ok == (end == wanted.len())
        &&& plan.outcome is Err ==> plan.outcome->Err_0 is Other && plan.outcome->Err_0->Other_0@
            == "image conversion did not yield pixel data"@
        &&& after == SizeBoundView { images: sized.images.union(plan.upload@.to_set()), ..sized }
    }
}

impl HybridState {
    /// Nothing built, and textures written in the format of buffers.
    pub fn new() -> (r: HybridState)
        ensures
            r.sized@ == (SizeBoundView { built_for: None, images: Set::empty() }),
            r.target.current is None,
            r.target_format == BUFFER_FORMAT,
    {
        HybridState {
            sized: SizeBound::new(),
            target: TargetSize::new(),
            target_format: BUFFER_FORMAT,
        }
    }

    /// Set the format that drawing into a texture writes.
    ///
    /// Changing it rebuilds the size-bound state at the next frame, so set it
    /// once rather than per frame. Drawing into a buffer is unaffected.
    pub fn set_target_format(&mut self, format: Format)
        ensures
            final(self).target_format == format,
            final(self).sized == old(self).sized,
            final(self).target == old(self).target,
    {
        self.target_format = format;
    }

    /// Shared front half of both ways to draw: the frame size is checked
    /// against the device's limit first, then the size-bound state is rebuilt, then
    /// the images are uploaded.
    pub fn prepare(
        &mut self,
        width: u32,
        height: u32,
        format: Format,
        limit: u32,
        wanted: &Vec<WantedImage>,
    ) -> (plan: FramePlan)
        ensures
            prepared(
                old(self).sized@,
                width,
                height,
                format,
                limit,
                wanted@,
                plan,
                final(self).sized@,
            ),
            final(self).target == old(self).target,
            final(self).target_format == old(self).target_format,
    {
        if let Err(e) = check_frame_size(width, height, limit) {
            return FramePlan { rebuild: None, upload: Vec::new(), outcome: Err(e) };
        }
        match self.sized.ensure_sized(width, height, format) {
            Err(e) => FramePlan { rebuild: None, upload: Vec::new(), outcome: Err(e) },
            Ok(rebuild) => {
                let (upload, outcome) = self.sized.upload_images(wanted);
                FramePlan { rebuild, upload, outcome }
            },
        }
    }

    /// Start drawing into a texture, in the format that was set for it.
    pub fn render_to_texture(
        &mut self,
        width: u32,
        height: u32,
        limit: u32,
        wanted: &Vec<WantedImage>,
    ) -> (plan: FramePlan)
        ensures
            prepared(
                old(self).sized@,
                width,
                height,
                old(self).target_format,
                limit,
                wanted@,
                plan,
                final(self).sized@,
            ),
            final(self).target == old(self).target,
            final(self).target_format == old(self).target_format,
    {
        let format = self.target_format;
        self.prepare(width, height, format, limit, wanted)
    }

    /// Start drawing into a buffer of `buffer` bytes: the buffer is checked
    /// before anything else, and the target is sized after everything else.
    /// Says too whether a new target has to be allocated.
    pub fn render_to_buffer(
        &mut self,
        width: u32,
        height: u32,
        buffer: usize,
        limit: u32,
        wanted: &Vec<WantedImage>,
    ) -> (r: (FramePlan, bool))
        requires
            width * height * 4 <= usize::MAX,
        ensures
            final(self).target_format == old(self).target_format,
            if buffer != width * height * 4 {
                &&& r.0.rebuild is None && r.0.upload@.len() == 0
                &&& r.0.outcome == Err::<(), BackendError>(
                    BackendError::BufferSize {
                        expected: (width * height * 4) as usize,
                        actual: buffer,
                    },
                )
                &&& !r.1
                &&& *final(self) == *old(self)
            } else {
                &&& prepared(
                    old(self).sized@,
                    width,
                    height,
                    BUFFER_FORMAT,
                    limit,
                    wanted@,
                    r.0,
                    final(self).sized@,
                )
                &&& r.0.outcome is Ok ==> r.1 == (old(self).target.current != Some(
                    (width, height),
                )) && final(self).target.current == Some((width, height))
                &&& r.0.outcome is Err ==> !r.1 && final(self).target == old(self).target
            },
    {
        if let Err(e) = check_buffer(width, height, buffer) {
            return (FramePlan { rebuild: None, upload: Vec::new(), outcome: Err(e) }, false);
        }
        let plan = self.prepare(width, height, BUFFER_FORMAT, limit, wanted);
        let fresh = if plan.outcome.is_ok() {
            self.target.ensure(width, height)
        } else {
            false
        };
        (plan, fresh)
    }
}

/// A frame of the size and format the state was built for rebuilds nothing
/// and uploads nothing that is resident: drawing it again is free.
pub proof fn lemma_same_frame_again_costs_nothing(
    before: SizeBoundView,
    width: u32,
    height: u32,
    format: Format,
    limit: u32,
    wanted: Seq<WantedImage>,
    plan: FramePlan,
    after: SizeBoundView,
)
    requires
        width <= limit && height <= limit,
        before.built_for == Some((width, height, format)),
        forall|i: int|
            0 <= i < wanted.len() ==> before.images.contains((#[trigger] wanted[i]).key),
        prepared(before, width, height, format, limit, wanted, plan, after),
    ensures
        plan.rebuild is None,
        plan.upload@.len() == 0,
        plan.outcome is Ok,
        after == before,
{
    lemma_nothing_missing(before.images, wanted, wanted.len());
    lemma_nothing_stuck(before.images, wanted, 0);
    assert(after.images =~= before.images);
}

proof fn lemma_nothing_missing(resident: Set<u64>, wanted: Seq<WantedImage>, n: nat)
    requires
        n <= wanted.len(),
        forall|i: int| 0 <= i < wanted.len() ==> resident.contains((#[trigger] wanted[i]).key),
    ensures
        missing(resident, wanted, n) == Seq::<u64>::empty(),
    decreases n,
{
    if n > 0 {
        lemma_nothing_missing(resident, wanted, (n - 1) as nat);
        assert(resident.contains(wanted[n - 1].key));
    }
}

proof fn lemma_nothing_stuck(resident: Set<u64>, wanted: Seq<WantedImage>, i: int)
    requires
        0 <= i <= wanted.len(),
        forall|j: int| 0 <= j < wanted.len() ==> resident.contains((#[trigger] wanted[j]).key),
    ensures
        first_stuck(resident, wanted, i) == wanted.len(),
    decreases wanted.len() - i,
{
    if i < wanted.len() {
        assert(resident.contains(wanted[i].key));
        lemma_nothing_stuck(resident, wanted, i + 1);
    }
}

} // verus!
