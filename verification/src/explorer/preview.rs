//! The preview pane: a window the host resizes, and the plot solved again
//! for it each time.

use vstd::prelude::*;

use super::bitmap::{swizzled, to_bgra};
use super::server::Refusal;

verus! {

/// Pixels of margin around the plot inside the pane.
pub const MARGIN: i32 = 8;

/// The rectangle the host gives the pane.
#[derive(Debug, Clone, Copy, PartialEq, Eq, Structural)]
pub struct Bounds {
    pub left: i32,
    pub top: i32,
    pub right: i32,
    pub bottom: i32,
}

impl Bounds {
    /// True when the size of the rectangle, less the margin, can be counted.
    pub open spec fn measurable(self) -> bool {
        &&& i32::MIN + 16 <= self.right - self.left <= i32::MAX
        &&& i32::MIN + 16 <= self.bottom - self.top <= i32::MAX
    }

    /// The width and height.
    pub fn extent(&self) -> (r: (i32, i32))
        requires
            i32::MIN <= self.right - self.left <= i32::MAX,
            i32::MIN <= self.bottom - self.top <= i32::MAX,
        ensures
            r.0 == self.right - self.left,
            r.1 == self.bottom - self.top,
    {
        (self.right - self.left, self.bottom - self.top)
    }

    /// The room for the plot inside the margin, at least a pixel each way.
    pub fn content(&self) -> (r: (u32, u32))
        requires
            self.measurable(),
        ensures
            r.0 == room(self.right - self.left),
            r.1 == room(self.bottom - self.top),
    {
        let width: i32 = self.right - self.left - 2 * MARGIN;
        let height: i32 = self.bottom - self.top - 2 * MARGIN;
        let w: u32 = if width < 1 {
            1
        } else {
            width as u32
        };
        let h: u32 = if height < 1 {
            1
        } else {
            height as u32
        };
        (w, h)
    }
}

/// What is left of a length inside the margin, at least a pixel.
pub open spec fn room(length: int) -> int {
    if length - 16 < 1 {
        1
    } else {
        length - 16
    }
}

/// What is painted.
#[derive(Debug)]
pub struct Pane {
    /// Top-down pixels, blue first.
    pub pixels: Vec<u8>,
    pub width: u32,
    pub height: u32,
    /// Painted around the plot, so the pane matches the document: red in the
    /// lowest byte, then green, then blue.
    pub background: u32,
}

impl Pane {
    /// Nothing to paint.
    pub fn new() -> (r: Pane)
        ensures
            r.pixels@.len() == 0,
            r.width == 0,
            r.height == 0,
            r.background == 0,
    {
        Pane { pixels: Vec::new(), width: 0, height: 0, background: 0 }
    }

    /// Where the picture stands in a client area, centred and never to the
    /// left of it or above it; `None` while there is nothing to paint.
    pub fn place(&self, client_right: i32, client_bottom: i32) -> (r: Option<(i32, i32)>)
        requires
            self.width <= i32::MAX,
            self.height <= i32::MAX,
        ensures
            r == (if self.pixels@.len() == 0 {
                None::<(i32, i32)>
            } else {
                Some(
                    (
                        centred(client_right as int, self.width as int) as i32,
                        centred(client_bottom as int, self.height as int) as i32,
                    ),
                )
            }),
    {
        if self.pixels.len() == 0 {
            return None;
        }
        Some((centre(client_right, self.width), centre(client_bottom, self.height)))
    }
}

/// Half of what a length leaves over, and nothing when it leaves nothing.
pub open spec fn centred(client: int, length: int) -> int {
    if client <= length {
        0
    } else {
        (client - length) / 2
    }
}

fn centre(client: i32, length: u32) -> (r: i32)
    requires
        length <= i32::MAX,
    ensures
        r == centred(client as int, length as int),
{
    if client <= length as i32 {
        0
    } else {
        (client - length as i32) / 2
    }
}

/// The color of the pixel an image starts with: red in the lowest byte, then
/// green, then blue.
pub open spec fn corner_color(rgba: Seq<u8>) -> int {
    rgba[0] + 256 * rgba[1] + 65536 * rgba[2]
}

/// What showing the preview takes.
#[derive(Debug, Clone, Copy, PartialEq, Eq, Structural)]
pub enum ShowStep {
    /// A window has to be made first.
    CreateWindow,
    /// There is one: draw.
    Draw,
}

/// The preview handler's state.
#[derive(Debug)]
pub struct PreviewHandler {
    /// The document, once it has been read.
    pub document: Option<Vec<u8>>,
    /// Whether the host has given a window to stand in.
    pub parent: bool,
    pub bounds: Bounds,
    /// Whether the pane has a window of its own.
    pub window: bool,
    pub pane: Pane,
}

impl Default for PreviewHandler {
    fn default() -> (r: PreviewHandler)
        ensures
            r.document is None,
            !r.parent,
            !r.window,
            r.bounds == (Bounds { left: 0, top: 0, right: 0, bottom: 0 }),
            r.pane.pixels@.len() == 0,
            r.pane.width == 0 && r.pane.height == 0 && r.pane.background == 0,
    {
        PreviewHandler {
            document: None,
            parent: false,
            bounds: Bounds { left: 0, top: 0, right: 0, bottom: 0 },
            window: false,
            pane: Pane::new(),
        }
    }
}

impl PreviewHandler {
    /// Keep the document's bytes.
    pub fn initialize(&mut self, bytes: Vec<u8>)
        ensures
            *final(self) == (PreviewHandler { document: Some(bytes), ..*old(self) }),
    {
        self.document = Some(bytes);
    }

    /// Take the host's window and rectangle. Says whether the pane's own
    /// window has to be moved.
    pub fn set_window(&mut self, parent: bool, bounds: Option<Bounds>) -> (r: Result<bool, Refusal>)
        ensures
            match bounds {
                None => r == Err::<bool, Refusal>(Refusal::InvalidArgument) && *final(self)
                    == *old(self),
                Some(b) => r == Ok::<bool, Refusal>(old(self).window) && *final(self) == (
                PreviewHandler { parent, bounds: b, ..*old(self) }),
            },
    {
        match bounds {
            None => Err(Refusal::InvalidArgument),
            Some(b) => {
                self.parent = parent;
                self.bounds = b;
                Ok(self.window)
            },
        }
    }

    /// Take a new rectangle. Says whether the pane's own window has to be
    /// moved and the plot solved again, which is what makes the preview
    /// reflow rather than scale.
    pub fn set_rect(&mut self, bounds: Option<Bounds>) -> (r: Result<bool, Refusal>)
        ensures
            match bounds {
                None => r == Err::<bool, Refusal>(Refusal::InvalidArgument) && *final(self)
                    == *old(self),
                Some(b) => r == Ok::<bool, Refusal>(old(self).window) && *final(self) == (
                PreviewHandler { bounds: b, ..*old(self) }),
            },
    {
        match bounds {
            None => Err(Refusal::InvalidArgument),
            Some(b) => {
                self.bounds = b;
                Ok(self.window)
            },
        }
    }

    /// What showing the preview takes: there has to be a document, and a
    /// window or somewhere to put one.
    pub fn do_preview(&self) -> (r: Result<ShowStep, Refusal>)
        ensures
            r == (if self.document is None || (!self.window && !self.parent) {
                Err::<ShowStep, Refusal>(Refusal::Failed)
            } else if self.window {
                Ok(ShowStep::Draw)
            } else {
                Ok(ShowStep::CreateWindow)
            }),
    {
        if self.document.is_none() {
            return Err(Refusal::Failed);
        }
        if self.window {
            return Ok(ShowStep::Draw);
        }
        if !self.parent {
            return Err(Refusal::Failed);
        }
        Ok(ShowStep::CreateWindow)
    }

    /// Record that the pane has a window of its own.
    pub fn window_created(&mut self)
        ensures
            *final(self) == (PreviewHandler { window: true, ..*old(self) }),
    {
        self.window = true;
    }

    /// The size to draw the plot at, while there is a window to draw in and a
    /// document to draw. A preview that cannot be drawn leaves the pane as it
    /// was.
    pub fn redraw(&self) -> (r: Option<(u32, u32)>)
        requires
            self.bounds.measurable(),
        ensures
            match r {
                Some((w, h)) => self.window && self.document is Some && w == room(
                    self.bounds.right - self.bounds.left,
                ) && h == room(self.bounds.bottom - self.bounds.top),
                None => !self.window || self.document is None,
            },
    {
        if !self.window || self.document.is_none() {
            return None;
        }
        Some(self.bounds.content())
    }

    /// Take up a picture that was drawn. The margin takes the color of the
    /// picture's corner, so it matches whatever the document asked for.
    pub fn drawn(&mut self, width: u32, height: u32, rgba: &[u8])
        requires
            rgba@.len() >= 4,
        ensures
            final(self).pane.pixels@ == swizzled(rgba@),
            final(self).pane.width == width,
            final(self).pane.height == height,
            final(self).pane.background == corner_color(rgba@),
            *final(self) == (PreviewHandler { pane: final(self).pane, ..*old(self) }),
    {
        let background: u32 = rgba[0] as u32 + 256 * rgba[1] as u32 + 65536 * rgba[2] as u32;
        self.pane = Pane { pixels: to_bgra(rgba), width, height, background };
    }

    /// Let everything go. Says whether the pane's window has to be destroyed.
    pub fn unload(&mut self) -> (r: bool)
        ensures
            r == old(self).window,
            final(self).document is None,
            !final(self).window,
            final(self).pane.pixels@.len() == 0,
            final(self).pane.width == 0 && final(self).pane.height == 0,
            final(self).pane.background == 0,
            final(self).parent == old(self).parent,
            final(self).bounds == old(self).bounds,
    {
        let had = self.window;
        self.window = false;
        self.document = None;
        self.pane = Pane::new();
        had
    }

    /// Whether there is a window to give the focus to.
    pub fn set_focus(&self) -> (r: Result<(), Refusal>)
        ensures
            r == (if self.window {
                Ok::<(), Refusal>(())
            } else {
                Err(Refusal::Failed)
            }),
    {
        if self.window {
            Ok(())
        } else {
            Err(Refusal::Failed)
        }
    }
}

/// A picture that fits the room inside the margin keeps the margin on every
/// side of it, to within a pixel.
pub proof fn lemma_picture_keeps_the_margin(client: int, length: int)
    requires
        client >= 17,
        1 <= length <= room(client),
    ensures
        centred(client, length) >= 8,
        client - (centred(client, length) + length) >= 8,
{
}

/// A picture is put in the middle: what is left before it and behind it differs
/// by a pixel at most, and one that is too long starts at the edge.
pub proof fn lemma_picture_is_in_the_middle(client: int, length: int)
    ensures
        length <= client ==> 0 <= (client - length - centred(client, length)) - centred(
            client,
            length,
        ) <= 1,
        length >= client ==> centred(client, length) == 0,
{
}

/// A color that fills what a picture leaves has red lowest and blue highest.
pub proof fn lemma_corner_color_holds_its_channels(rgba: Seq<u8>)
    requires
        rgba.len() >= 4,
    ensures
        corner_color(rgba) % 256 == rgba[0],
        corner_color(rgba) / 256 % 256 == rgba[1],
        corner_color(rgba) / 65536 == rgba[2],
{
}

} // verus!
