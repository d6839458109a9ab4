//! One open document, as the render thread holds it.
//!
//! What is drawn, the composition itself, stays with the thread that drew
//! it; this is everything that decides how it is drawn and what is said of
//! it.

use vstd::prelude::*;

use super::channel::{TabId, TabInfo};
use super::error::{DocumentError, ViewerError};
use super::paths::{
    driveless, file_name, forward, lemma_slashed_reads_one_way, lies_in, name_of, parent, part_of,
    shown, slashed,
};
use crate::color::Color;
use crate::fixed::{Fixed, ONE};

verus! {

/// The size, resolution and background the writer had in mind. Advisory.
#[derive(Debug, Clone, Copy)]
pub struct DocumentHints {
    pub size: Option<(Fixed, Fixed)>,
    pub dpi: Option<Fixed>,
    pub background: Option<Color>,
}

/// What reading a document's bytes gave.
#[derive(Debug)]
pub struct ReadDocument {
    pub hints: DocumentHints,
    /// The paper color of the document's own theme.
    pub paper: Color,
    /// The paper color of the inverted theme.
    pub inverted_paper: Color,
    /// Version string of whatever wrote the document, when it recorded one.
    pub writer_version: Option<String>,
}

/// Why reading a document's bytes failed, and what the failure says.
#[derive(Debug)]
pub struct ReadFailure {
    pub cause: DocumentError,
    pub text: String,
}

/// A document and what it takes to re-theme and re-read it.
#[derive(Debug)]
pub struct OpenDoc {
    /// Identity the frontend uses for this document.
    pub id: TabId,
    /// Where it was read from. Also the watch key.
    pub path: String,
    /// The file exactly as read. An export starts from a composition nobody
    /// has drawn, and the only way to get one is to read the document again.
    pub bytes: Vec<u8>,
    /// What reading it gave.
    pub read: ReadDocument,
    /// Whether the inverted theme is in use.
    pub dark: bool,
    /// Bumped on every successful reload, so a frame received after a reload
    /// can be recognized as describing the previous document.
    pub generation: u32,
    /// The message from the most recent failed reload, if the last one
    /// failed. The plot on screen is still the last one that read cleanly.
    pub stale: Option<String>,
}

/// The number that follows `n`, starting over after the last.
pub open spec fn wrapped_next(n: u32) -> u32 {
    if n == u32::MAX {
        0
    } else {
        (n + 1) as u32
    }
}

/// The color a frame or an export is cleared to: the paper of the theme in
/// use, except that the writer's own background wins while its own theme is
/// in use. Always opaque.
pub open spec fn background_of(doc: OpenDoc) -> Color {
    let color = if doc.dark {
        doc.read.inverted_paper
    } else {
        match doc.read.hints.background {
            Some(c) => c,
            None => doc.read.paper,
        }
    };
    Color { alpha: Fixed { nanos: ONE }, ..color }
}

/// The name shown on a tab for a path that reads as `reading`: the file's own,
/// or the whole path.
pub open spec fn title_of(path: Seq<char>, reading: Seq<char>) -> Seq<char> {
    match name_of(reading) {
        Some(name) => name,
        None => path,
    }
}

/// True when `title` can be the name of the document at `path`. Where
/// backslashes may separate, so may either reading be; a path with a drive or
/// a share has some part of it for a title.
pub open spec fn titles(title: Seq<char>, path: Seq<char>) -> bool {
    &&& slashed(path) ==> title == title_of(path, path)
    &&& driveless(path) ==> title == title_of(path, path) || title == title_of(path, forward(path))
    &&& part_of(title, path)
}

/// True when `info` is what the frontend is told about `doc`.
pub open spec fn describes(info: TabInfo, doc: OpenDoc) -> bool {
    &&& info.id == doc.id
    &&& titles(info.title@, doc.path@)
    &&& info.path@ == doc.path@
    &&& info.generation == doc.generation
    &&& info.hint_width == (match doc.read.hints.size {
        Some((w, _)) => Some(w),
        None => None,
    })
    &&& info.hint_height == (match doc.read.hints.size {
        Some((_, h)) => Some(h),
        None => None,
    })
    &&& info.hint_dpi == doc.read.hints.dpi
    &&& shown(info.writer_version) == shown(doc.read.writer_version)
    &&& shown(info.stale) == shown(doc.stale)
}

fn copied(s: &Option<String>) -> (r: Option<String>)
    ensures
        shown(r) == shown(*s),
{
    match s {
        Some(s) => Some(s.clone()),
        None => None,
    }
}

/// True when `e` says that the document at `path` could not be read, for
/// the reason in `failure`.
pub open spec fn reports(e: ViewerError, path: Seq<char>, failure: ReadFailure) -> bool {
    match e {
        ViewerError::Document { path: p, cause, text } => p@ == path && cause == failure.cause
            && text == failure.text,
        _ => false,
    }
}

impl OpenDoc {
    /// Open the document at `path` from what reading its bytes gave.
    pub fn open(
        id: TabId,
        path: String,
        bytes: Vec<u8>,
        read: Result<ReadDocument, ReadFailure>,
        dark: bool,
    ) -> (r: Result<OpenDoc, ViewerError>)
        ensures
            match read {
                Ok(read) => r == Ok::<OpenDoc, ViewerError>(
                    OpenDoc {
                        id,
                        path,
                        bytes,
                        read,
                        dark,
                        generation: 0,
                        stale: None,
                    },
                ),
                Err(failure) => r is Err && reports(r->Err_0, path@, failure),
            },
    {
        match read {
            Ok(read) => Ok(
                OpenDoc { id, path, bytes, read, dark, generation: 0, stale: None },
            ),
            Err(failure) => Err(
                ViewerError::document(path.as_str(), failure.cause, failure.text),
            ),
        }
    }

    /// Replace the document with what is on disk at the same path.
    ///
    /// Nothing is replaced until the new bytes have decoded, so a failure
    /// leaves the previous document drawable.
    pub fn reload(
        &mut self,
        bytes: Vec<u8>,
        read: Result<ReadDocument, ReadFailure>,
    ) -> (r: Result<(), ViewerError>)
        ensures
            match read {
                Ok(read) => r is Ok && *final(self) == (OpenDoc {
                    bytes,
                    read,
                    generation: wrapped_next(old(self).generation),
                    stale: None,
                    ..*old(self)
                }),
                Err(failure) => r is Err && reports(r->Err_0, old(self).path@, failure)
                    && *final(self) == *old(self),
            },
    {
        match read {
            Ok(read) => {
                self.bytes = bytes;
                self.read = read;
                self.generation = self.generation.wrapping_add(1);
                self.stale = None;
                Ok(())
            },
            Err(failure) => Err(
                ViewerError::document(self.path.as_str(), failure.cause, failure.text),
            ),
        }
    }

    /// Switch between the document's theme and its inverted form.
    ///
    /// Returns whether anything changed, so a redundant call costs no frame.
    pub fn set_dark(&mut self, dark: bool) -> (changed: bool)
        ensures
            changed == (old(self).dark != dark),
            *final(self) == (OpenDoc { dark, ..*old(self) }),
    {
        if self.dark == dark {
            return false;
        }
        self.dark = dark;
        true
    }

    /// Color a frame or an export is cleared to.
    ///
    /// Keyed to the palette's paper so it inverts with the theme. The
    /// writer's own background hint wins while its own theme is in use;
    /// there is no inverted counterpart for it, so dark mode falls back to
    /// paper. Always opaque: a viewer shows a plot against a window.
    pub fn background(&self) -> (c: Color)
        ensures
            c == background_of(*self),
    {
        let color = if self.dark {
            self.read.inverted_paper
        } else {
            match self.read.hints.background {
                Some(c) => c,
                None => self.read.paper,
            }
        };
        color.with_alpha(Fixed { nanos: ONE })
    }

    /// Name to show on the tab.
    pub fn title(&self) -> (title: String)
        ensures
            titles(title@, self.path@),
    {
        proof {
            let path = self.path@;
            if slashed(path) {
                lemma_slashed_reads_one_way(path);
            }
            let start: int = 0;
            assert(path.subrange(start, start + path.len()) =~= path);
        }
        titled(file_name(self.path.as_str()), self.path.as_str())
    }

    /// Directory whose changes could be this document's.
    ///
    /// A watch is registered on the parent rather than on the file, so this
    /// is the key the watcher counts references against.
    pub fn watch_dir(&self) -> (dir: Option<String>)
        ensures
            lies_in(self.path@, shown(dir)),
    {
        parent(self.path.as_str())
    }
}

/// The title of the document at `path`, given the name that its path ends in,
/// when it ends in one.
pub fn titled(name: Option<String>, path: &str) -> (title: String)
    ensures
        title@ == (match name {
            Some(name) => name@,
            None => path@,
        }),
{
    match name {
        Some(name) => name,
        None => path.to_owned(),
    }
}

/// What the frontend is told about a document.
pub fn tab_info(doc: &OpenDoc) -> (info: TabInfo)
    ensures
        describes(info, *doc),
{
    let (hint_width, hint_height) = match doc.read.hints.size {
        Some((w, h)) => (Some(w), Some(h)),
        None => (None, None),
    };
    TabInfo {
        id: doc.id,
        title: doc.title(),
        path: doc.path.clone(),
        generation: doc.generation,
        hint_width,
        hint_height,
        hint_dpi: doc.read.hints.dpi,
        writer_version: copied(&doc.read.writer_version),
        stale: copied(&doc.stale),
    }
}

/// Inverting a document's theme and inverting it back leaves the document,
/// and the color it is drawn over, as they were.
pub proof fn lemma_theme_toggles_back(doc: OpenDoc)
    ensures
        ({
            let away = OpenDoc { dark: !doc.dark, ..doc };
            let back = OpenDoc { dark: doc.dark, ..away };
            back == doc && background_of(back) == background_of(doc)
        }),
{
}

} // verus!
