//! What crosses between the windows and the thread that owns the documents.

use vstd::prelude::*;

use super::export::ExportSpec;
use crate::fixed::{Fixed, Reading};

verus! {

/// Identity of one open document, as the frontend refers to it.
#[derive(Debug, Clone, Copy, PartialEq, Eq, Hash, PartialOrd, Ord, Structural)]
pub struct TabId(pub u32);

/// What the frontend knows about one open document.
#[derive(Debug)]
pub struct TabInfo {
    /// Identity to pass back for a frame, an export or a close.
    pub id: TabId,
    /// File name, for the tab strip.
    pub title: String,
    /// Full path, for the tooltip and for recognizing a re-open.
    pub path: String,
    /// Bumped on each successful reload.
    pub generation: u32,
    /// Width in points the writer rendered at, if it recorded one.
    pub hint_width: Option<Fixed>,
    /// Height in points the writer rendered at, if it recorded one.
    pub hint_height: Option<Fixed>,
    /// Resolution the writer rendered at, if it recorded one.
    pub hint_dpi: Option<Fixed>,
    /// Version of whatever wrote the document.
    pub writer_version: Option<String>,
    /// Why the last reload failed, when it did. The document on screen is
    /// the last one that read cleanly.
    pub stale: Option<String>,
}

/// What a window is told as it boots.
#[derive(Debug)]
pub struct Attachment {
    /// The document this window shows, or `None` if it shows none.
    pub document: Option<TabInfo>,
    /// Whether the inverted theme is in use, so a second window adopts it
    /// rather than deciding again from the desktop's setting.
    pub dark: bool,
}

/// One file that could not be opened.
#[derive(Debug)]
pub struct OpenFailure {
    /// The path as given.
    pub path: String,
    /// Text to show.
    pub message: String,
}

/// The result of asking for one or more files to be opened.
///
/// Partial success is the normal case worth designing for: dropping four
/// files on the window where one is truncated should open three and say so
/// about the fourth.
#[derive(Debug)]
pub struct OpenOutcome {
    /// Documents now open. A file that was already open appears here as the
    /// tab it already had.
    pub opened: Vec<TabInfo>,
    /// Files that could not be opened, and why.
    pub failed: Vec<OpenFailure>,
}

impl OpenOutcome {
    /// Nothing opened and nothing failed.
    pub fn new() -> (r: OpenOutcome)
        ensures
            r.opened@.len() == 0,
            r.failed@.len() == 0,
    {
        OpenOutcome { opened: Vec::new(), failed: Vec::new() }
    }

    /// Record how opening one more file went.
    pub fn record(&mut self, result: Result<TabInfo, OpenFailure>)
        ensures
            final(self).opened@ == (match result {
                Ok(info) => old(self).opened@.push(info),
                Err(_) => old(self).opened@,
            }),
            final(self).failed@ == (match result {
                Ok(_) => old(self).failed@,
                Err(failure) => old(self).failed@.push(failure),
            }),
    {
        match result {
            Ok(info) => self.opened.push(info),
            Err(failure) => self.failed.push(failure),
        }
    }
}

/// What the frontend wants drawn.
#[derive(Debug, Clone, Copy)]
pub struct FrameSpec {
    /// Device pixels across.
    pub width: u32,
    /// Device pixels down.
    pub height: u32,
    /// 96 times the device pixel ratio, which is what makes a theme length
    /// in points come out the right physical size.
    pub dpi: Reading,
    /// Render at half resolution: the same layout at a quarter of the
    /// pixels, which is a cheap frame to send during a resize drag.
    pub draft: bool,
    /// The frontend's request counter, echoed back in the header.
    pub seq: u32,
}

/// A unit of work for the render thread.
#[derive(Debug)]
pub enum Request {
    /// Read these files and open a tab for each.
    Open { paths: Vec<String> },
    /// Forget a document and stop watching it.
    Close { tab: TabId },
    /// Draw one frame.
    Frame { tab: TabId, spec: FrameSpec },
    /// Switch every open document between its theme and the inverted form.
    SetDark { dark: bool },
    /// Report what a booting window needs to know.
    Attach { showing: Option<TabId> },
    /// Write a document out.
    Export { tab: TabId, order: ExportSpec, path: String },
    /// Re-read a document from disk. `attempt` counts retries of a read that
    /// failed in a way that suggests the file was mid-write.
    Reload { tab: TabId, attempt: u8 },
    /// Drop everything and end the thread.
    Shutdown,
}

} // verus!
