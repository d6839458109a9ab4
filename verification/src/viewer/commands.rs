//! What the commands the frontend invokes decide, around the waiting.
//!
//! Most of them take a window and derive the document from it: one window
//! shows one document for its whole life.

use vstd::prelude::*;
use vstd::utf8::encode_utf8;

use super::channel::TabId;
use super::error::{error_text, ViewerError};
use super::export::{format_extension, format_label, ExportFormat};
use super::frame::{error_frame, frame_bytes, no_document, FrameHeader, FrameStatus};
use super::paths::{
    driveless, file_stem, forward, is_absolute, join_path, lemma_slashed_reads_one_way, part_of,
    slashed, stem_of, taken_from,
};
use crate::text::{chars_of, texts};

verus! {

/// Where a frame request goes.
#[derive(Debug)]
pub enum FrameRoute {
    /// To the render thread, for this document.
    Ask(TabId),
    /// Back to the window, with this reply.
    Reply(Vec<u8>),
}

/// Decide who answers a window's frame request.
///
/// An empty window asking for a frame is not an error: it is a window whose
/// document was closed while a request was in flight.
pub fn render_frame(tab: Option<TabId>, ready: bool, seq_no: u32) -> (r: FrameRoute)
    ensures
        match tab {
            None => r is Reply && r->Reply_0@ == frame_bytes(
                FrameHeader::spec_empty(FrameStatus::NoSuchTab, 0, seq_no),
                seq![],
            ),
            Some(tab) => if ready {
                r == FrameRoute::Ask(tab)
            } else {
                r is Reply && r->Reply_0@ == frame_bytes(
                    FrameHeader::spec_empty(FrameStatus::Error, 0, seq_no),
                    encode_utf8(error_text(ViewerError::RenderThreadGone)),
                )
            },
        },
{
    match tab {
        None => FrameRoute::Reply(no_document(seq_no)),
        Some(tab) => if ready {
            FrameRoute::Ask(tab)
        } else {
            let message = ViewerError::RenderThreadGone.message();
            FrameRoute::Reply(error_frame(0, seq_no, message.as_str()))
        },
    }
}

/// The document a window exports; a window without one has nothing to.
pub fn exported_tab(tab: Option<TabId>) -> (r: Result<TabId, ViewerError>)
    ensures
        match tab {
            Some(tab) => r == Ok::<TabId, ViewerError>(tab),
            None => r is Err && r->Err_0 is Rejected && r->Err_0->Rejected_0@
                == "this window has no document to export"@,
        },
{
    match tab {
        Some(tab) => Ok(tab),
        None => Err(ViewerError::Rejected("this window has no document to export".to_owned())),
    }
}

/// The title of the dialog that asks where to write.
pub fn export_title(format: ExportFormat) -> (out: String)
    ensures
        out@ == "Export as "@ + format_label(format),
{
    let mut out = String::new();
    out.append("Export as ");
    out.append(format.label());
    assert(out@ =~= "Export as "@ + format_label(format));
    out
}

/// A document's own name carrying a format's extension.
pub open spec fn export_name(stem: Option<Seq<char>>, format: ExportFormat) -> Seq<char> {
    (match stem {
        Some(s) => s,
        None => "plot"@,
    }) + "."@ + format_extension(format)
}

/// The name for an export of a document whose own name has this stem.
pub fn name_for(stem: Option<&str>, format: ExportFormat) -> (out: String)
    ensures
        out@ == export_name(
            match stem {
                Some(s) => Some(s@),
                None => None,
            },
            format,
        ),
{
    let mut out = String::new();
    match stem {
        Some(s) => out.append(s),
        None => out.append("plot"),
    }
    out.append(".");
    out.append(format.extension());
    assert(out@ =~= export_name(
        match stem {
            Some(s) => Some(s@),
            None => None,
        },
        format,
    ));
    out
}

/// The document's own name carrying the target format's extension.
///
/// A save dialog pre-filled with the document's own extension when a picture
/// was asked for is how a document gets overwritten by its own picture.
pub fn default_file_name(suggested: &str, format: ExportFormat) -> (out: String)
    ensures
        exists|stem: Option<Seq<char>>|
            (stem is Some ==> part_of(stem->0, suggested@)) && out@ == #[trigger] export_name(
                stem,
                format,
            ),
        driveless(suggested@) ==> out@ == export_name(stem_of(suggested@), format) || out@
            == export_name(stem_of(forward(suggested@)), format),
        slashed(suggested@) ==> out@ == export_name(stem_of(suggested@), format),
{
    proof {
        if slashed(suggested@) {
            lemma_slashed_reads_one_way(suggested@);
        }
    }
    match file_stem(suggested) {
        Some(stem) => name_for(Some(stem.as_str()), format),
        None => name_for(None, format),
    }
}

/// Whatever a document is called, its export carries the format's extension.
pub proof fn lemma_export_name_has_the_extension(stem: Option<Seq<char>>, format: ExportFormat)
    ensures
        exists|head: Seq<char>|
            export_name(stem, format) == #[trigger] (head + "."@ + format_extension(format)),
{
    let head = match stem {
        Some(s) => s,
        None => "plot"@,
    };
    assert(export_name(stem, format) == head + "."@ + format_extension(format));
}

/// True when an argument names a document: anything starting with a dash is
/// a flag.
pub open spec fn names_document(arg: Seq<char>) -> bool {
    !(arg.len() > 0 && arg[0] == '-')
}

/// Whether an argument names a document rather than being a flag.
pub fn is_document(arg: &str) -> (r: bool)
    ensures
        r == names_document(arg@),
{
    let chars = chars_of(arg);
    !(chars.len() > 0 && chars[0] == '-')
}

/// The path an argument stands for, given whether it is absolute and what it
/// comes to from where the launcher was, when that is known.
pub fn placed(path: String, absolute: bool, from_cwd: Option<String>) -> (r: String)
    ensures
        r == (match from_cwd {
            Some(joined) => if absolute {
                path
            } else {
                joined
            },
            None => path,
        }),
{
    match from_cwd {
        Some(joined) => if absolute {
            path
        } else {
            joined
        },
        None => path,
    }
}

/// True when `r` is what `path` stands for: itself without a `cwd`, and taken
/// from that with one.
pub open spec fn resolved(r: Seq<char>, path: Seq<char>, cwd: Option<&str>) -> bool {
    match cwd {
        None => r == path,
        Some(dir) => taken_from(r, dir@, path),
    }
}

/// Make `path` absolute against `cwd` if it is not already. Without a `cwd`
/// it stays as it is.
pub fn resolve(path: String, cwd: Option<&str>) -> (r: String)
    ensures
        resolved(r@, path@, cwd),
{
    let absolute = is_absolute(path.as_str());
    let from_cwd = match cwd {
        Some(dir) => Some(join_path(dir, path.as_str())),
        None => None,
    };
    placed(path, absolute, from_cwd)
}

/// The first `n` arguments that name documents.
pub open spec fn documents(args: Seq<Seq<char>>, n: nat) -> Seq<Seq<char>>
    decreases n,
{
    if n == 0 {
        seq![]
    } else {
        let before = documents(args, (n - 1) as nat);
        if names_document(args[n - 1]) {
            before.push(args[n - 1])
        } else {
            before
        }
    }
}

/// Absolute paths from a command line, resolved against `cwd`.
///
/// A file association passes a path that may be relative to wherever the
/// launcher happened to be, and a second launch's `cwd` is not this
/// process's. Flags are left out; the rest stay in order.
pub fn paths_from_args(args: &Vec<String>, cwd: Option<&str>) -> (paths: Vec<String>)
    ensures
        paths@.len() == documents(texts(args@), args@.len()).len(),
        forall|j: int|
            0 <= j < paths@.len() ==> resolved(
                (#[trigger] paths@[j])@,
                documents(texts(args@), args@.len())[j],
                cwd,
            ),
{
    let mut paths: Vec<String> = Vec::new();
    let ghost all = texts(args@);
    let mut i: usize = 0;
    while i < args.len()
        invariant
            i <= args@.len(),
            all == texts(args@),
            paths@.len() == documents(all, i as nat).len(),
            forall|j: int|
                0 <= j < paths@.len() ==> resolved(
                    (#[trigger] paths@[j])@,
                    documents(all, i as nat)[j],
                    cwd,
                ),
        decreases args@.len() - i,
    {
        assert(all[i as int] == args@[i as int]@);
        if is_document(args[i].as_str()) {
            paths.push(resolve(args[i].clone(), cwd));
        }
        i = i + 1;
    }
    paths
}

/// The documents named on a command line are its arguments without the options,
/// in the order they were given.
pub proof fn lemma_documents_leave_options_out(args: Seq<Seq<char>>, n: nat)
    requires
        n <= args.len(),
    ensures
        documents(args, n) == args.take(n as int).filter(
            |arg: Seq<char>| arg.len() == 0 || arg[0] != '-',
        ),
    decreases n,
{
    let plain = |arg: Seq<char>| arg.len() == 0 || arg[0] != '-';
    reveal(Seq::filter);
    if n > 0 {
        let m = (n - 1) as nat;
        lemma_documents_leave_options_out(args, m);
        assert(args.take(n as int).drop_last() =~= args.take(m as int));
        assert(args.take(n as int).last() == args[m as int]);
    } else {
        assert(args.take(0) =~= seq![]);
    }
}

} // verus!
