//! Everything a command can fail with, and the rule that decides whether a
//! failed reload is worth retrying.

use vstd::prelude::*;

use crate::text::{decimal_text, push_decimal};

verus! {

/// Why bytes could not be rebuilt into a document.
#[derive(Debug)]
pub enum DocumentError {
    /// The bytes do not start as a document does.
    BadMagic,
    /// The bytes end before what they announce.
    UnexpectedEof { offset: u64, wanted: u64, available: u64 },
    /// A number is not encoded as one.
    BadVarint { offset: u64 },
    /// A chunk that every document has is not there.
    MissingChunk { tag: String },
    /// A text is not UTF-8.
    BadUtf8 { offset: u64 },
    /// The document has a format version that this build does not read.
    UnsupportedVersion { found: u32, supported: u32 },
    /// The document sets flags that this build does not know.
    UnsupportedFlags { bits: u32 },
    /// The document holds a chunk that cannot be skipped and is not known.
    UnknownCriticalChunk { tag: String },
    /// The document draws with a geom that is not known.
    UnknownGeom { kind: String },
    /// The document is damaged in some other way.
    Damaged,
}

/// True for the failures that are statements about the document rather than
/// about its arrival, which waiting cannot mend.
pub open spec fn is_final(error: DocumentError) -> bool {
    error is UnsupportedVersion || error is UnsupportedFlags || error is UnknownCriticalChunk
        || error is UnknownGeom
}

/// Whether a failed read is worth trying again shortly.
///
/// The case this exists for is a file being rewritten under an open tab: a
/// watcher can fire while a writer is halfway through, and the truncated
/// prefix fails to decode in whatever way the cut happened to land. All of
/// those come good on their own once the write finishes. The four that do
/// not mean that this build cannot rebuild what is in the file however long
/// it waits.
pub fn retryable(error: &DocumentError) -> (r: bool)
    ensures
        r == !is_final(*error),
{
    match error {
        DocumentError::UnsupportedVersion { .. } => false,
        DocumentError::UnsupportedFlags { .. } => false,
        DocumentError::UnknownCriticalChunk { .. } => false,
        DocumentError::UnknownGeom { .. } => false,
        _ => true,
    }
}

/// How long to wait before each retry of a reload, and, by its length, how
/// many to attempt.
///
/// Spread rather than uniform: an editor's own save completes inside the
/// first gap, and the later two cover a slow copy over a network share.
pub const RETRY_DELAYS_MS: [u64; 3] = [150, 400, 900];

/// The retries grow further apart, and all of them together are over in less
/// than three seconds: a save that has not landed in that long is not a save
/// in progress.
pub proof fn lemma_retry_budget_is_bounded_and_increasing()
    ensures
        forall|i: int|
            0 <= i && i + 1 < RETRY_DELAYS_MS@.len() ==> #[trigger] RETRY_DELAYS_MS@[i]
                < RETRY_DELAYS_MS@[i + 1],
        RETRY_DELAYS_MS@[0] + RETRY_DELAYS_MS@[1] + RETRY_DELAYS_MS@[2] < 3_000,
{
}

/// Anything a command can fail with.
///
/// The UI shows these to a person, so the message is the whole payload.
#[derive(Debug)]
pub enum ViewerError {
    /// The file could not be read from disk, or written to it.
    Io { path: String, source: String },
    /// The bytes were read but are not a document this build can rebuild.
    Document {
        path: String,
        cause: DocumentError,
        /// What the failure says of itself.
        text: String,
    },
    /// Rasterization failed: no adapter, a frame too large for the device, a
    /// readback that did not come back.
    Backend(String),
    /// Encoding a frame or an export failed.
    Encode(String),
    /// A tab id the render thread does not know. Reachable whenever the
    /// frontend races a close against a frame it already asked for.
    NoSuchTab(u32),
    /// The render thread is gone, which is terminal: every document lived on
    /// it.
    RenderThreadGone,
    /// A request was accepted and then dropped without an answer.
    Dropped,
    /// The user closed a dialog without choosing.
    Canceled,
    /// A request that cannot be satisfied as asked.
    Rejected(String),
}

/// What an error says to a person.
pub open spec fn error_text(e: ViewerError) -> Seq<char> {
    match e {
        ViewerError::Io { path, source } => "cannot read "@ + path@ + ": "@ + source@,
        ViewerError::Document { path, cause, text } => path@
            + " is not a readable plot document: "@ + text@,
        ViewerError::Backend(m) => "rendering failed: "@ + m@,
        ViewerError::Encode(m) => "encoding failed: "@ + m@,
        ViewerError::NoSuchTab(id) => "no open document with id "@ + decimal_text(id as nat),
        ViewerError::RenderThreadGone => "the render thread is not running"@,
        ViewerError::Dropped => "the render thread dropped the request"@,
        ViewerError::Canceled => "canceled"@,
        ViewerError::Rejected(m) => m@,
    }
}

impl ViewerError {
    /// What the error says to a person.
    pub fn message(&self) -> (out: String)
        ensures
            out@ == error_text(*self),
    {
        let mut out = String::new();
        match self {
            ViewerError::Io { path, source } => {
                out.append("cannot read ");
                out.append(path.as_str());
                out.append(": ");
                out.append(source.as_str());
            },
            ViewerError::Document { path, cause, text } => {
                out.append(path.as_str());
                out.append(" is not a readable plot document: ");
                out.append(text.as_str());
            },
            ViewerError::Backend(m) => {
                out.append("rendering failed: ");
                out.append(m.as_str());
            },
            ViewerError::Encode(m) => {
                out.append("encoding failed: ");
                out.append(m.as_str());
            },
            ViewerError::NoSuchTab(id) => {
                out.append("no open document with id ");
                push_decimal(&mut out, *id as u64);
            },
            ViewerError::RenderThreadGone => out.append("the render thread is not running"),
            ViewerError::Dropped => out.append("the render thread dropped the request"),
            ViewerError::Canceled => out.append("canceled"),
            ViewerError::Rejected(m) => out.append(m.as_str()),
        }
        assert(out@ =~= error_text(*self));
        out
    }

    /// Wrap an IO failure against the path it happened to.
    pub fn io(path: &str, source: String) -> (r: ViewerError)
        ensures
            r is Io,
            r->Io_path@ == path@,
            r->source == source,
    {
        ViewerError::Io { path: path.to_owned(), source }
    }

    /// Wrap a decode failure against the path it happened to.
    pub fn document(path: &str, source: DocumentError, text: String) -> (r: ViewerError)
        ensures
            r is Document,
            r->Document_path@ == path@,
            r->cause == source,
            r->text == text,
    {
        ViewerError::Document { path: path.to_owned(), cause: source, text }
    }

    /// Whether a reload that failed with this error is worth trying again:
    /// only a document that may have been caught halfway through a write.
    pub fn worth_retrying(&self) -> (r: bool)
        ensures
            r == (self is Document && !is_final(self->cause)),
    {
        match self {
            ViewerError::Document { cause, .. } => retryable(cause),
            _ => false,
        }
    }
}

} // verus!
