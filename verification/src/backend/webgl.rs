//! The renderer that draws to a canvas of a page: what a resize rebuilds, and
//! what a frame uploads.

use std::collections::HashSet;

use vstd::prelude::*;

use super::error::BackendError;
use super::resources::{dimension, missing, note_convertible, WantedImage};

verus! {

/// The canvas size a renderer is built for, and the images uploaded to it.
#[derive(Debug)]
pub struct HybridWebGlRenderer {
    width: u32,
    height: u32,
    images: HashSet<u64>,
}

/// A renderer as plain values.
#[verifier::ext_equal]
pub struct CanvasView {
    pub width: u32,
    pub height: u32,
    /// The keys of the resident images.
    pub images: Set<u64>,
}

impl View for HybridWebGlRenderer {
    type V = CanvasView;

    closed spec fn view(&self) -> CanvasView {
        CanvasView { width: self.width, height: self.height, images: self.images@ }
    }
}

/// A renderer for a canvas of this size with nothing uploaded to it.
pub open spec fn fresh_canvas(width: u32, height: u32) -> CanvasView {
    CanvasView { width, height, images: Set::empty() }
}

/// The edge that no scene can have, when there is one: the width is asked
/// first.
pub open spec fn unfit_edge(width: u32, height: u32) -> Option<u32> {
    if width > u16::MAX {
        Some(width)
    } else if height > u16::MAX {
        Some(height)
    } else {
        None
    }
}

/// Both edges as a scene is sized in.
fn scene_size(width: u32, height: u32) -> (r: Result<(u16, u16), BackendError>)
    ensures
        r == (match unfit_edge(width, height) {
            Some(edge) => Err(BackendError::EdgeTooLong { edge }),
            None => Ok::<(u16, u16), BackendError>((width as u16, height as u16)),
        }),
{
    let w = match dimension(width) {
        Ok(w) => w,
        Err(e) => return Err(e),
    };
    match dimension(height) {
        Ok(h) => Ok((w, h)),
        Err(e) => Err(e),
    }
}

impl HybridWebGlRenderer {
    /// A renderer for a canvas whose drawing buffer has this size, and the
    /// size of the scene to build for it.
    pub fn new(width: u32, height: u32) -> (r: Result<
        (HybridWebGlRenderer, (u16, u16)),
        BackendError,
    >)
        ensures
            match unfit_edge(width, height) {
                Some(edge) => r == Err::<(HybridWebGlRenderer, (u16, u16)), BackendError>(
                    BackendError::EdgeTooLong { edge },
                ),
                None => r is Ok && r->Ok_0.0@ == fresh_canvas(width, height) && r->Ok_0.1 == (
                    width as u16,
                    height as u16,
                ),
            },
    {
        match scene_size(width, height) {
            Ok(size) => {
                let state = HybridWebGlRenderer { width, height, images: HashSet::new() };
                assert(state@ =~= fresh_canvas(width, height));
                Ok((state, size))
            },
            Err(e) => Err(e),
        }
    }

    /// Match the renderer to a new canvas size. Gives the size to build the
    /// scene for when it has to be rebuilt.
    ///
    /// The images are invalidated with the scene, since their handles belong
    /// to the state being rebuilt. A size no scene can have is refused and
    /// nothing changes.
    pub fn resize(&mut self, width: u32, height: u32) -> (r: Result<
        Option<(u16, u16)>,
        BackendError,
    >)
        ensures
            if width == old(self)@.width && height == old(self)@.height {
                r == Ok::<Option<(u16, u16)>, BackendError>(None) && final(self)@ == old(self)@
            } else {
                match unfit_edge(width, height) {
                    Some(edge) => r == Err::<Option<(u16, u16)>, BackendError>(
                        BackendError::EdgeTooLong { edge },
                    ) && final(self)@ == old(self)@,
                    None => r == Ok::<Option<(u16, u16)>, BackendError>(
                        Some((width as u16, height as u16)),
                    ) && final(self)@ == fresh_canvas(width, height),
                }
            },
    {
        if width == self.width && height == self.height {
            return Ok(None);
        }
        match scene_size(width, height) {
            Ok(size) => {
                self.width = width;
                self.height = height;
                self.images = HashSet::new();
                assert(self@ =~= fresh_canvas(width, height));
                Ok(Some(size))
            },
            Err(e) => Err(e),
        }
    }

    /// The canvas size the renderer is built for.
    pub fn size(&self) -> (r: (u32, u32))
        ensures
            r == (self@.width, self@.height),
    {
        (self.width, self.height)
    }

    /// Which of the images a frame wants have to be uploaded before it is
    /// drawn, each once, passing over the ones that cannot be.
    pub fn present(&mut self, wanted: &Vec<WantedImage>) -> (fresh: Vec<u64>)
        ensures
            fresh@ == missing(old(self)@.images, wanted@, wanted@.len()),
            final(self)@ == (CanvasView {
                images: old(self)@.images.union(fresh@.to_set()),
                ..old(self)@
            }),
    {
        note_convertible(&mut self.images, wanted)
    }
}

} // verus!
