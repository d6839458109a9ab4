//! The render thread's decisions: what becomes of each request, which
//! documents are open, and what is told to whom.

use std::collections::HashMap;

use vstd::prelude::*;
use vstd::utf8::encode_utf8;

use super::channel::{Attachment, FrameSpec, OpenFailure, OpenOutcome, Request, TabId, TabInfo};
use super::doc::{
    background_of, describes, tab_info, wrapped_next, OpenDoc, ReadDocument, ReadFailure,
};
use super::error::{error_text, is_final, DocumentError, ViewerError};
use super::export::{
    answers, holds_pixels, reject_resolution, unusable_resolution, ExportSpec,
    MAX_TEXTURE_DIMENSION,
};
use super::frame::{error_frame, frame_bytes, Encoding, FLAG_DRAFT, FrameHeader, FrameStatus};
use super::watch::{delay_after, schedule_reload};
use crate::color::Color;
use crate::fixed::{usable, Fixed};
use crate::text::same_text;

verus! {

/// The tab a request asks a frame of, when it asks for one.
pub open spec fn frame_of(request: Request) -> Option<TabId> {
    match request {
        Request::Frame { tab, .. } => Some(tab),
        _ => None,
    }
}

/// True when a later request of the batch asks for a frame of the same tab.
pub open spec fn overtaken(batch: Seq<Request>, i: int) -> bool {
    exists|j: int|
        i < j < batch.len() && frame_of(batch[i]) is Some && frame_of(#[trigger] batch[j])
            == frame_of(batch[i])
}

/// What is done with one request of a batch.
#[derive(Debug)]
pub enum Step {
    /// Draw the frame it asks for and send it.
    Draw,
    /// Send this reply: the frame it asks for is no longer wanted.
    Supersede(Vec<u8>),
    /// Carry it out.
    Perform,
    /// Stop, leaving everything behind it undone.
    Stop,
}

/// True when `step` is what is done with request `i`.
pub open spec fn is_step_for(step: Step, batch: Seq<Request>, i: int) -> bool {
    match batch[i] {
        Request::Frame { tab, spec } => if overtaken(batch, i) {
            step is Supersede && step->Supersede_0@ == frame_bytes(
                FrameHeader::spec_empty(FrameStatus::Superseded, tab.0, spec.seq),
                seq![],
            )
        } else {
            step is Draw
        },
        Request::Shutdown => step is Stop,
        _ => step is Perform,
    }
}

/// How many requests of a batch are taken up: all of them, or those up to
/// and with the first that stops the thread.
pub open spec fn taken_up(batch: Seq<Request>, i: int) -> int
    decreases batch.len() - i,
{
    if i >= batch.len() {
        batch.len() as int
    } else if batch[i] is Shutdown {
        i + 1
    } else {
        taken_up(batch, i + 1)
    }
}

/// The last request of the first `n` that asks for a frame of `tab`.
pub open spec fn last_frame(batch: Seq<Request>, n: int, tab: TabId) -> Option<int>
    decreases n,
{
    if n <= 0 {
        None
    } else if frame_of(batch[n - 1]) == Some(tab) {
        Some(n - 1)
    } else {
        last_frame(batch, n - 1, tab)
    }
}

proof fn lemma_last_frame(batch: Seq<Request>, n: int, tab: TabId)
    requires
        0 <= n <= batch.len(),
    ensures
        match last_frame(batch, n, tab) {
            Some(k) => 0 <= k < n && frame_of(batch[k]) == Some(tab) && forall|j: int|
                k < j < n ==> frame_of(#[trigger] batch[j]) != Some(tab),
            None => forall|j: int| 0 <= j < n ==> frame_of(#[trigger] batch[j]) != Some(tab),
        },
    decreases n,
{
    if n > 0 && frame_of(batch[n - 1]) != Some(tab) {
        lemma_last_frame(batch, n - 1, tab);
    }
}

/// True when `newest` knows the last request of the first `n` that asks for
/// a frame of a tab, or that there is none.
pub open spec fn remembers(
    newest: Map<u32, usize>,
    batch: Seq<Request>,
    n: int,
    tab: u32,
) -> bool {
    match last_frame(batch, n, TabId(tab)) {
        Some(k) => newest.contains_key(tab) && newest[tab] == k,
        None => !newest.contains_key(tab),
    }
}

/// For each tab that a batch asks a frame of, the last request that does.
fn newest_frames(batch: &Vec<Request>) -> (newest: HashMap<u32, usize>)
    ensures
        forall|t: u32| #[trigger] remembers(newest@, batch@, batch@.len() as int, t),
{
    broadcast use vstd::std_specs::hash::group_hash_axioms;

    let mut newest: HashMap<u32, usize> = HashMap::new();
    let mut i: usize = 0;
    while i < batch.len()
        invariant
            i <= batch@.len(),
            forall|t: u32| #[trigger] remembers(newest@, batch@, i as int, t),
        decreases batch@.len() - i,
    {
        let ghost before = newest@;
        if let Request::Frame { tab, .. } = &batch[i] {
            newest.insert(tab.0, i);
        }
        assert forall|t: u32| #[trigger] remembers(newest@, batch@, i + 1, t) by {
            assert(remembers(before, batch@, i as int, t));
            if let Some(tab) = frame_of(batch@[i as int]) {
                assert(tab == TabId(tab.0));
            }
        }
        i = i + 1;
    }
    newest
}

/// Decide what to do with each request of a batch, in order.
///
/// Frames are coalesced here and nowhere else. A resize drag queues one per
/// pointer move and only the last describes the size the window actually
/// has, so every earlier one for the same tab is answered without being
/// drawn. Everything that is not a frame runs in arrival order, which is
/// what keeps a theme change from being overtaken by the frame that should
/// follow it.
pub fn dispatch(batch: &Vec<Request>) -> (steps: Vec<Step>)
    ensures
        steps@.len() == taken_up(batch@, 0),
        forall|i: int| 0 <= i < steps@.len() ==> is_step_for(#[trigger] steps@[i], batch@, i),
{
    broadcast use vstd::std_specs::hash::group_hash_axioms;

    let newest = newest_frames(batch);
    let mut steps: Vec<Step> = Vec::new();
    let nothing: Vec<u8> = Vec::new();
    let mut i: usize = 0;
    while i < batch.len()
        invariant
            i <= batch@.len(),
            steps@.len() == i,
            nothing@ == Seq::<u8>::empty(),
            taken_up(batch@, 0) == taken_up(batch@, i as int),
            forall|t: u32| #[trigger] remembers(newest@, batch@, batch@.len() as int, t),
            forall|j: int| 0 <= j < i ==> is_step_for(#[trigger] steps@[j], batch@, j),
        decreases batch@.len() - i,
    {
        match &batch[i] {
            Request::Frame { tab, spec } => {
                proof {
                    lemma_last_frame(batch@, batch@.len() as int, *tab);
                    assert(*tab == TabId(tab.0));
                    assert(remembers(newest@, batch@, batch@.len() as int, tab.0));
                    assert(frame_of(batch@[i as int]) == Some(*tab));
                    if overtaken(batch@, i as int) {
                        let j = choose|j: int|
                            i < j < batch@.len() && frame_of(#[trigger] batch@[j]) == frame_of(
                                batch@[i as int],
                            );
                        assert(newest@[tab.0] != i);
                    } else {
                        assert(newest@[tab.0] == i) by {
                            let k = newest@[tab.0] as int;
                            if k > i {
                                assert(frame_of(batch@[k]) == frame_of(batch@[i as int]));
                            }
                        }
                    }
                }
                let is_newest = match newest.get(&tab.0) {
                    Some(k) => *k == i,
                    None => false,
                };
                if is_newest {
                    steps.push(Step::Draw);
                } else {
                    let reply = FrameHeader::empty(
                        FrameStatus::Superseded,
                        tab.0,
                        spec.seq,
                    ).with_payload(nothing.as_slice());
                    steps.push(Step::Supersede(reply));
                }
            },
            Request::Shutdown => {
                steps.push(Step::Stop);
                return steps;
            },
            _ => steps.push(Step::Perform),
        }
        i = i + 1;
    }
    steps
}

/// Of the frames of one tab in a batch, exactly the last is drawn.
pub proof fn lemma_only_the_newest_frame_is_drawn(
    steps: Seq<Step>,
    batch: Seq<Request>,
    i: int,
    j: int,
)
    requires
        steps.len() == taken_up(batch, 0),
        forall|k: int| 0 <= k < steps.len() ==> is_step_for(#[trigger] steps[k], batch, k),
        0 <= i < j < steps.len(),
        frame_of(batch[i]) is Some,
        frame_of(batch[i]) == frame_of(batch[j]),
    ensures
        steps[i] is Supersede,
        !overtaken(batch, j) ==> steps[j] is Draw,
{
    lemma_taken_up_is_in_range(batch, 0);
    assert(is_step_for(steps[i], batch, i));
    assert(is_step_for(steps[j], batch, j));
    assert(frame_of(batch[j]) == frame_of(batch[i]));
}

proof fn lemma_taken_up_is_in_range(batch: Seq<Request>, i: int)
    requires
        0 <= i <= batch.len(),
    ensures
        i <= taken_up(batch, i) <= batch.len(),
    decreases batch.len() - i,
{
    if i < batch.len() && !(batch[i] is Shutdown) {
        lemma_taken_up_is_in_range(batch, i + 1);
    }
}

/// Everything that is not a frame is carried out, in the order it came, up
/// to the request that stops the thread.
pub proof fn lemma_everything_else_runs_in_order(
    steps: Seq<Step>,
    batch: Seq<Request>,
    i: int,
)
    requires
        steps.len() == taken_up(batch, 0),
        forall|k: int| 0 <= k < steps.len() ==> is_step_for(#[trigger] steps[k], batch, k),
        0 <= i < steps.len(),
        frame_of(batch[i]) is None,
    ensures
        steps[i] is Perform || (steps[i] is Stop && i + 1 == steps.len()),
{
    lemma_taken_up_is_in_range(batch, 0);
    assert(is_step_for(steps[i], batch, i));
    if batch[i] is Shutdown {
        lemma_stop_ends_the_batch(batch, 0, i);
    }
}

proof fn lemma_stop_ends_the_batch(batch: Seq<Request>, from: int, i: int)
    requires
        0 <= from <= i < batch.len(),
        batch[i] is Shutdown,
        i < taken_up(batch, from),
    ensures
        taken_up(batch, from) == i + 1,
    decreases i - from,
{
    if from < i && !(batch[from] is Shutdown) {
        lemma_stop_ends_the_batch(batch, from + 1, i);
    }
}

/// Whether there is something to rasterize with.
///
/// Asked for on first use, so a machine with no adapter still opens
/// documents and still exports SVG and PDF, and asked for once rather than
/// once per frame.
#[derive(Debug)]
pub enum RendererState {
    /// Nobody has asked yet.
    Untried,
    /// There is one.
    Ready,
    /// There is none, and why.
    Failed(String),
}

/// What has to happen before something can be rasterized.
#[derive(Debug)]
pub enum RendererStep {
    /// Nothing: there is a renderer.
    Use,
    /// Ask for one.
    Build,
    /// Nothing helps.
    Refuse(ViewerError),
}

/// Every decision about the open documents.
#[derive(Debug)]
pub struct Worker {
    /// Open documents, in tab order.
    docs: Vec<OpenDoc>,
    next_id: u32,
    /// Whether the inverted theme is in use. A window-wide preference rather
    /// than a per-document one, so a new tab opens in the mode already shown.
    dark: bool,
    encoding: Encoding,
    renderer: RendererState,
}

/// The render thread's state as plain values.
#[verifier::ext_equal]
pub struct WorkerView {
    pub docs: Seq<OpenDoc>,
    pub next_id: u32,
    pub dark: bool,
    pub encoding: Encoding,
    pub renderer: RendererState,
}

impl View for Worker {
    type V = WorkerView;

    closed spec fn view(&self) -> WorkerView {
        WorkerView {
            docs: self.docs@,
            next_id: self.next_id,
            dark: self.dark,
            encoding: self.encoding,
            renderer: self.renderer,
        }
    }
}

/// The first document, from `i` on, with this id; the number of them when
/// none has it.
pub open spec fn tab_index(docs: Seq<OpenDoc>, tab: TabId, i: int) -> int
    decreases docs.len() - i,
{
    if i >= docs.len() {
        docs.len() as int
    } else if docs[i].id == tab {
        i
    } else {
        tab_index(docs, tab, i + 1)
    }
}

/// The first document, from `i` on, read from this path; the number of them
/// when none was.
pub open spec fn path_index(docs: Seq<OpenDoc>, path: Seq<char>, i: int) -> int
    decreases docs.len() - i,
{
    if i >= docs.len() {
        docs.len() as int
    } else if docs[i].path@ == path {
        i
    } else {
        path_index(docs, path, i + 1)
    }
}

proof fn lemma_tab_index(docs: Seq<OpenDoc>, tab: TabId, i: int)
    requires
        0 <= i <= docs.len(),
    ensures
        i <= tab_index(docs, tab, i) <= docs.len(),
        tab_index(docs, tab, i) < docs.len() ==> docs[tab_index(docs, tab, i)].id == tab,
        tab_index(docs, tab, i) == docs.len() ==> forall|j: int|
            i <= j < docs.len() ==> (#[trigger] docs[j]).id != tab,
    decreases docs.len() - i,
{
    if i < docs.len() && docs[i].id != tab {
        lemma_tab_index(docs, tab, i + 1);
    }
}

proof fn lemma_path_index(docs: Seq<OpenDoc>, path: Seq<char>, i: int)
    requires
        0 <= i <= docs.len(),
    ensures
        i <= path_index(docs, path, i) <= docs.len(),
        path_index(docs, path, i) < docs.len() ==> docs[path_index(docs, path, i)].path@ == path,
        path_index(docs, path, i) == docs.len() ==> forall|j: int|
            i <= j < docs.len() ==> (#[trigger] docs[j]).path@ != path,
    decreases docs.len() - i,
{
    if i < docs.len() && docs[i].path@ != path {
        lemma_path_index(docs, path, i + 1);
    }
}

impl WorkerView {
    /// What holds of every state: no two documents share an id or a path,
    /// every id was handed out, and every document is in the theme in use.
    pub open spec fn consistent(self) -> bool {
        &&& forall|i: int, j: int|
            0 <= i < j < self.docs.len() ==> (#[trigger] self.docs[i]).id != (
            #[trigger] self.docs[j]).id && self.docs[i].path@ != self.docs[j].path@
        &&& forall|i: int|
            0 <= i < self.docs.len() ==> (#[trigger] self.docs[i]).id.0 < self.next_id
                && self.docs[i].dark == self.dark
    }

    /// True when a document with this id is open.
    pub open spec fn is_open(self, tab: TabId) -> bool {
        tab_index(self.docs, tab, 0) < self.docs.len()
    }

    /// The open document with this id.
    pub open spec fn doc(self, tab: TabId) -> OpenDoc {
        self.docs[tab_index(self.docs, tab, 0)]
    }

    /// True when a document read from this path is open.
    pub open spec fn has_path(self, path: Seq<char>) -> bool {
        path_index(self.docs, path, 0) < self.docs.len()
    }
}

/// The size and resolution a frame is solved at, or why it is not. A draft
/// halves both, and no edge is shorter than a pixel or longer than a texture
/// can hold.
pub open spec fn geometry_of(spec: FrameSpec) -> Result<(u32, u32, Fixed), Seq<char>> {
    match usable(spec.dpi) {
        None => Err(unusable_resolution(spec.dpi)),
        Some(dpi) => if spec.draft {
            Ok((edge(half_up(spec.width)), edge(half_up(spec.height)), dpi.spec_scaled(1, 2)))
        } else {
            Ok((edge(spec.width), edge(spec.height), dpi))
        },
    }
}

/// Half of a count, rounded up.
pub open spec fn half_up(n: u32) -> u32 {
    (n / 2 + n % 2) as u32
}

/// A count brought into the range an edge can have.
pub open spec fn edge(n: u32) -> u32 {
    if n < 1 {
        1
    } else if n > MAX_TEXTURE_DIMENSION {
        MAX_TEXTURE_DIMENSION
    } else {
        n
    }
}

fn clamp_edge(n: u32) -> (r: u32)
    ensures
        r == edge(n),
{
    if n < 1 {
        1
    } else if n > MAX_TEXTURE_DIMENSION {
        MAX_TEXTURE_DIMENSION
    } else {
        n
    }
}

/// Turn a frame request into the size and resolution to solve at.
///
/// A draft halves both, which leaves the point-space extent, the only thing
/// the layout is solved against, the same to within half a pixel. So a draft
/// is the same picture at fewer samples rather than a different one.
pub fn frame_geometry(spec: &FrameSpec) -> (r: Result<(u32, u32, Fixed), ViewerError>)
    ensures
        answers(r, geometry_of(*spec)),
{
    let dpi = match spec.dpi.positive() {
        Some(dpi) => dpi,
        None => return Err(reject_resolution(spec.dpi)),
    };
    if spec.draft {
        let width: u32 = spec.width / 2 + spec.width % 2;
        let height: u32 = spec.height / 2 + spec.height % 2;
        Ok((clamp_edge(width), clamp_edge(height), dpi.scaled(1, 2)))
    } else {
        Ok((clamp_edge(spec.width), clamp_edge(spec.height), dpi))
    }
}

/// A draft is the same picture at fewer samples: twice its edges is the size
/// asked for to within a pixel, and twice its resolution is the one asked
/// for to within a billionth.
pub proof fn lemma_draft_is_the_same_picture(spec: FrameSpec)
    requires
        spec.draft,
        1 <= spec.width <= MAX_TEXTURE_DIMENSION,
        1 <= spec.height <= MAX_TEXTURE_DIMENSION,
        usable(spec.dpi) is Some,
    ensures
        geometry_of(spec) is Ok,
        ({
            let (w, h, dpi) = geometry_of(spec)->Ok_0;
            let asked = usable(spec.dpi)->0;
            &&& spec.width <= 2 * w <= spec.width + 1
            &&& spec.height <= 2 * h <= spec.height + 1
            &&& asked.nanos <= 2 * dpi.nanos <= asked.nanos + 1
        }),
{
}

/// What drawing a frame takes: where it is cleared to, and the header of the
/// reply.
#[derive(Debug, Clone, Copy)]
pub struct Drawing {
    /// The header of the reply, less the length of its payload.
    pub header: FrameHeader,
    /// The color the frame is cleared to.
    pub background: Color,
    /// How many bytes of pixels are drawn.
    pub bytes: usize,
}

/// The flags of a frame.
pub open spec fn frame_flags(encoding: Encoding, draft: bool) -> u8 {
    match (encoding, draft) {
        (Encoding::RawRgba, false) => 0,
        (Encoding::PngFast, false) => 1,
        (Encoding::RawRgba, true) => 2,
        (Encoding::PngFast, true) => 3,
    }
}

/// True when `r` is what drawing a frame of `tab` starts with: an unknown
/// tab is refused first, then a resolution nothing can be solved at.
pub open spec fn is_drawing_of(
    r: Result<Drawing, ViewerError>,
    v: WorkerView,
    tab: TabId,
    spec: FrameSpec,
) -> bool {
    if !v.is_open(tab) {
        r == Err::<Drawing, ViewerError>(ViewerError::NoSuchTab(tab.0))
    } else {
        match geometry_of(spec) {
            Err(text) => r is Err && r->Err_0 is Rejected && r->Err_0->Rejected_0@ == text,
            Ok((width, height, dpi)) => {
                &&& r is Ok
                &&& r->Ok_0.header == (FrameHeader {
                    flags: frame_flags(v.encoding, spec.draft),
                    status: FrameStatus::Drawn,
                    width,
                    height,
                    dpi,
                    tab: tab.0,
                    seq: spec.seq,
                    payload_len: 0,
                })
                &&& r->Ok_0.background == background_of(v.doc(tab))
                &&& r->Ok_0.bytes == width * height * 4
            },
        }
    }
}

impl Drawing {
    /// The reply carrying `payload`: the pixels as they were drawn, or the
    /// picture they were encoded into.
    pub fn finish(&self, payload: &[u8]) -> (reply: Vec<u8>)
        ensures
            reply@ == frame_bytes(self.header, payload@),
    {
        self.header.with_payload(payload)
    }
}

/// The reply to a frame request, whatever came of it: a closed tab is an
/// ordinary outcome, and any other failure is reported by its message.
pub open spec fn frame_reply(
    result: Result<Vec<u8>, ViewerError>,
    tab: TabId,
    seq_no: u32,
) -> Seq<u8> {
    match result {
        Ok(bytes) => bytes@,
        Err(ViewerError::NoSuchTab(_)) => frame_bytes(
            FrameHeader::spec_empty(FrameStatus::NoSuchTab, tab.0, seq_no),
            seq![],
        ),
        Err(e) => frame_bytes(
            FrameHeader::spec_empty(FrameStatus::Error, tab.0, seq_no),
            encode_utf8(error_text(e)),
        ),
    }
}

/// Report whatever happened to a frame inside its header.
pub fn frame(result: Result<Vec<u8>, ViewerError>, tab: TabId, seq_no: u32) -> (reply: Vec<u8>)
    ensures
        reply@ == frame_reply(result, tab, seq_no),
{
    match result {
        Ok(bytes) => bytes,
        Err(ViewerError::NoSuchTab(_)) => {
            let nothing: Vec<u8> = Vec::new();
            FrameHeader::empty(FrameStatus::NoSuchTab, tab.0, seq_no).with_payload(
                nothing.as_slice(),
            )
        },
        Err(e) => error_frame(tab.0, seq_no, e.message().as_str()),
    }
}

/// What was found where a document is to be opened from.
#[derive(Debug)]
pub enum FileRead {
    /// The file could not be read, and why.
    Unreadable(String),
    /// The file's bytes, and what decoding them gave.
    Bytes(Vec<u8>, Result<ReadDocument, ReadFailure>),
}

/// What is said of a file that could not be opened; `None` for one that
/// could.
pub open spec fn open_failure(path: Seq<char>, file: FileRead) -> Option<Seq<char>> {
    match file {
        FileRead::Unreadable(why) => Some("cannot read "@ + path + ": "@ + why@),
        FileRead::Bytes(_, Ok(_)) => None,
        FileRead::Bytes(_, Err(failure)) => Some(
            path + " is not a readable plot document: "@ + failure.text@,
        ),
    }
}

/// A file to open a tab for.
#[derive(Debug)]
pub struct Candidate {
    /// The path as given.
    pub given: String,
    /// The path in the form the file is known by.
    pub path: String,
    /// What was found there.
    pub file: FileRead,
}

/// The document a file becomes when it is opened.
pub open spec fn opened_doc(v: WorkerView, c: Candidate) -> OpenDoc {
    OpenDoc {
        id: TabId(v.next_id),
        path: c.path,
        bytes: c.file->Bytes_0,
        read: c.file->Bytes_1->Ok_0,
        dark: v.dark,
        generation: 0,
        stale: None,
    }
}

/// The state once the first `n` files have been opened, or not.
pub open spec fn after_opening(v: WorkerView, files: Seq<Candidate>, n: nat) -> WorkerView
    decreases n,
{
    if n == 0 {
        v
    } else {
        let before = after_opening(v, files, (n - 1) as nat);
        let c = files[n - 1];
        if before.has_path(c.path@) || open_failure(c.path@, c.file) is Some {
            before
        } else {
            WorkerView {
                docs: before.docs.push(opened_doc(before, c)),
                next_id: (before.next_id + 1) as u32,
                ..before
            }
        }
    }
}

/// True when file `i` ends up open, because it was or because it could be
/// read.
pub open spec fn ends_up_open(v: WorkerView, files: Seq<Candidate>, i: int) -> bool {
    after_opening(v, files, i as nat).has_path(files[i].path@) || open_failure(
        files[i].path@,
        files[i].file,
    ) is None
}

/// How many of the first `n` files end up open.
pub open spec fn opened_count(v: WorkerView, files: Seq<Candidate>, n: int) -> int
    decreases n,
{
    if n <= 0 {
        0
    } else {
        opened_count(v, files, n - 1) + if ends_up_open(v, files, n - 1) {
            1int
        } else {
            0
        }
    }
}

/// True when an outcome reports file `i`: by the tab it has, or by why it has
/// none.
pub open spec fn reports(
    outcome: OpenOutcome,
    v: WorkerView,
    files: Seq<Candidate>,
    i: int,
) -> bool {
    let k = opened_count(v, files, i);
    if ends_up_open(v, files, i) {
        let after = after_opening(v, files, (i + 1) as nat);
        &&& 0 <= k < outcome.opened@.len()
        &&& describes(
            outcome.opened@[k],
            after.docs[path_index(after.docs, files[i].path@, 0)],
        )
    } else {
        &&& 0 <= i - k < outcome.failed@.len()
        &&& outcome.failed@[i - k].path@ == files[i].given@
        &&& outcome.failed@[i - k].message@ == open_failure(files[i].path@, files[i].file)->0
    }
}

/// What comes of re-reading a document.
#[derive(Debug)]
pub enum ReloadStep {
    /// The document is not open any more.
    Ignored,
    /// It was replaced; tell everybody.
    Reloaded(TabInfo),
    /// Try again after a wait.
    Retry { delay_ms: u64, attempt: u8 },
    /// It failed for good, and what to say.
    Failed(String),
}

/// Why a reload failed, and whether waiting may mend it: a file that is
/// empty or absent is mid-write or mid-rename, and a document caught halfway
/// comes good on its own.
pub open spec fn reload_failure(path: Seq<char>, file: FileRead) -> Option<(Seq<char>, bool)> {
    match file {
        FileRead::Unreadable(why) => Some(("cannot read "@ + path + ": "@ + why@, true)),
        FileRead::Bytes(bytes, read) => if bytes@.len() == 0 {
            Some(("the file is empty"@, true))
        } else {
            match read {
                Ok(_) => None,
                Err(failure) => Some(
                    (
                        path + " is not a readable plot document: "@ + failure.text@,
                        !is_final(failure.cause),
                    ),
                ),
            }
        },
    }
}

impl Worker {
    /// Nothing open, in the light theme.
    pub fn new(encoding: Encoding) -> (r: Worker)
        ensures
            r@ == (WorkerView {
                docs: seq![],
                next_id: 1,
                dark: false,
                encoding,
                renderer: RendererState::Untried,
            }),
            r@.consistent(),
    {
        let r = Worker {
            docs: Vec::new(),
            next_id: 1,
            dark: false,
            encoding,
            renderer: RendererState::Untried,
        };
        assert(r@.docs =~= seq![]);
        r
    }

    /// How frames are carried.
    pub fn encoding(&self) -> (r: Encoding)
        ensures
            r == self@.encoding,
    {
        self.encoding
    }

    fn position(&self, tab: TabId) -> (r: Option<usize>)
        ensures
            r is Some == self@.is_open(tab),
            r is Some ==> r->0 == tab_index(self@.docs, tab, 0) && r->0 < self.docs@.len(),
    {
        proof {
            lemma_tab_index(self@.docs, tab, 0);
        }
        let mut i: usize = 0;
        while i < self.docs.len()
            invariant
                i <= self.docs@.len(),
                tab_index(self@.docs, tab, 0) == tab_index(self@.docs, tab, i as int),
            decreases self.docs@.len() - i,
        {
            if self.docs[i].id == tab {
                return Some(i);
            }
            i = i + 1;
        }
        None
    }

    /// The document with this id, when it is open.
    pub fn document(&self, tab: TabId) -> (r: Option<&OpenDoc>)
        ensures
            match r {
                Some(doc) => self@.is_open(tab) && *doc == self@.doc(tab),
                None => !self@.is_open(tab),
            },
    {
        match self.position(tab) {
            Some(i) => Some(&self.docs[i]),
            None => None,
        }
    }

    /// What is told about the document at `path`, when it is open already.
    ///
    /// A path already open is answered with the tab it already has rather
    /// than a second copy of it, which is what makes double-clicking the same
    /// file twice behave the way a document app should.
    pub fn known(&self, path: &str) -> (r: Option<TabInfo>)
        ensures
            match r {
                Some(info) => self@.has_path(path@) && describes(
                    info,
                    self@.docs[path_index(self@.docs, path@, 0)],
                ),
                None => !self@.has_path(path@),
            },
    {
        let mut i: usize = 0;
        while i < self.docs.len()
            invariant
                i <= self.docs@.len(),
                path_index(self@.docs, path@, 0) == path_index(self@.docs, path@, i as int),
            decreases self.docs@.len() - i,
        {
            if same_text(self.docs[i].path.as_str(), path) {
                return Some(tab_info(&self.docs[i]));
            }
            i = i + 1;
        }
        None
    }

    /// Open a tab for a file that is not open yet. A failure names the path
    /// as it was given.
    pub fn adopt(&mut self, candidate: Candidate) -> (r: Result<TabInfo, OpenFailure>)
        requires
            old(self)@.consistent(),
            old(self)@.next_id < u32::MAX,
            !old(self)@.has_path(candidate.path@),
        ensures
            final(self)@.consistent(),
            match open_failure(candidate.path@, candidate.file) {
                Some(message) => {
                    &&& r is Err
                    &&& r->Err_0.path == candidate.given
                    &&& r->Err_0.message@ == message
                    &&& final(self)@ == old(self)@
                },
                None => {
                    let doc = opened_doc(old(self)@, candidate);
                    &&& r is Ok
                    &&& describes(r->Ok_0, doc)
                    &&& final(self)@ == (WorkerView {
                        docs: old(self)@.docs.push(doc),
                        next_id: (old(self)@.next_id + 1) as u32,
                        ..old(self)@
                    })
                },
            },
    {
        let ghost was = self@;
        let opened = match candidate.file {
            FileRead::Unreadable(why) => Err(ViewerError::io(candidate.path.as_str(), why)),
            FileRead::Bytes(bytes, read) => OpenDoc::open(
                TabId(self.next_id),
                candidate.path,
                bytes,
                read,
                self.dark,
            ),
        };
        match opened {
            Ok(doc) => {
                self.next_id = self.next_id + 1;
                let info = tab_info(&doc);
                proof {
                    lemma_path_index(was.docs, candidate.path@, 0);
                }
                self.docs.push(doc);
                assert(self@.docs =~= was.docs.push(doc));
                Ok(info)
            },
            Err(e) => {
                let message = e.message();
                assert(self@ =~= was);
                Err(OpenFailure { path: candidate.given, message })
            },
        }
    }

    /// Open a tab for each file.
    ///
    /// One that is open already is answered with the tab it has, and one that
    /// cannot be opened does not stop the others.
    pub fn open(&mut self, files: Vec<Candidate>) -> (outcome: OpenOutcome)
        requires
            old(self)@.consistent(),
            old(self)@.next_id + files@.len() <= u32::MAX,
        ensures
            final(self)@.consistent(),
            final(self)@ == after_opening(old(self)@, files@, files@.len()),
            outcome.opened@.len() == opened_count(old(self)@, files@, files@.len() as int),
            outcome.opened@.len() + outcome.failed@.len() == files@.len(),
            forall|i: int|
                0 <= i < files@.len() ==> #[trigger] reports(outcome, old(self)@, files@, i),
    {
        let ghost was = self@;
        let ghost all = files@;
        let mut outcome = OpenOutcome::new();
        for candidate in it: files
            invariant
                it.seq() == all,
                all == files@,
                was == old(self)@,
                self@.consistent(),
                was.next_id + all.len() <= u32::MAX,
                self@.next_id <= was.next_id + it.index(),
                self@ == after_opening(was, all, it.index() as nat),
                outcome.opened@.len() == opened_count(was, all, it.index()),
                outcome.opened@.len() + outcome.failed@.len() == it.index(),
                forall|i: int| 0 <= i < it.index() ==> #[trigger] reports(outcome, was, all, i),
        {
            let ghost n = it.index();
            let ghost before = self@;
            let ghost earlier = outcome;
            assert(candidate == all[n]);
            let result = match self.known(candidate.path.as_str()) {
                Some(info) => Ok(info),
                None => {
                    let ghost doc = opened_doc(before, candidate);
                    proof {
                        lemma_reopening_finds_the_same_tab(before, doc);
                    }
                    self.adopt(candidate)
                },
            };
            outcome.record(result);
            proof {
                lemma_opened_count_is_in_range(was, all, n);
                assert(self@ == after_opening(was, all, (n + 1) as nat));
                assert(reports(outcome, was, all, n));
                assert forall|i: int| 0 <= i < n + 1 implies #[trigger] reports(
                    outcome,
                    was,
                    all,
                    i,
                ) by {
                    if i < n {
                        assert(reports(earlier, was, all, i));
                    }
                }
            }
        }
        outcome
    }

    /// Forget a document, and name the path there is nothing more to watch
    /// for.
    pub fn close(&mut self, tab: TabId) -> (path: Option<String>)
        requires
            old(self)@.consistent(),
        ensures
            final(self)@.consistent(),
            match path {
                Some(p) => old(self)@.is_open(tab) && p == old(self)@.doc(tab).path
                    && final(self)@ == (WorkerView {
                    docs: old(self)@.docs.remove(tab_index(old(self)@.docs, tab, 0)),
                    ..old(self)@
                }),
                None => !old(self)@.is_open(tab) && final(self)@ == old(self)@,
            },
    {
        match self.position(tab) {
            Some(i) => {
                let doc = self.docs.remove(i);
                Some(doc.path)
            },
            None => None,
        }
    }

    /// Switch every open document between its theme and the inverted form.
    pub fn set_dark(&mut self, dark: bool)
        requires
            old(self)@.consistent(),
        ensures
            final(self)@.consistent(),
            final(self)@ == (WorkerView {
                dark,
                docs: old(self)@.docs.map_values(|d: OpenDoc| OpenDoc { dark, ..d }),
                ..old(self)@
            }),
    {
        let ghost was = self@;
        self.dark = dark;
        let mut i: usize = 0;
        while i < self.docs.len()
            invariant
                i <= self.docs@.len(),
                self.docs@.len() == was.docs.len(),
                self.dark == dark,
                self.next_id == was.next_id,
                self.encoding == was.encoding,
                self.renderer == was.renderer,
                forall|j: int|
                    0 <= j < i ==> #[trigger] self.docs@[j] == (OpenDoc { dark, ..was.docs[j] }),
                forall|j: int| i <= j < self.docs@.len() ==> #[trigger] self.docs@[j] == was.docs[j],
            decreases self.docs@.len() - i,
        {
            let doc = &mut self.docs[i];
            doc.set_dark(dark);
            i = i + 1;
        }
        assert(self@.docs =~= was.docs.map_values(|d: OpenDoc| OpenDoc { dark, ..d }));
        assert forall|a: int, b: int| 0 <= a < b < self@.docs.len() implies (
        #[trigger] self@.docs[a]).id != (#[trigger] self@.docs[b]).id && self@.docs[a].path@
            != self@.docs[b].path@ by {
            assert(was.docs[a].id != was.docs[b].id);
        }
        assert forall|a: int| 0 <= a < self@.docs.len() implies (#[trigger] self@.docs[a]).id.0
            < self@.next_id && self@.docs[a].dark == self@.dark by {
            assert(was.docs[a].id.0 < was.next_id);
        }
    }

    /// What a booting window is told.
    pub fn attach(&self, showing: Option<TabId>) -> (r: Attachment)
        ensures
            r.dark == self@.dark,
            match showing {
                Some(tab) => match r.document {
                    Some(info) => self@.is_open(tab) && describes(info, self@.doc(tab)),
                    None => !self@.is_open(tab),
                },
                None => r.document is None,
            },
    {
        let document = match showing {
            Some(tab) => match self.position(tab) {
                Some(i) => Some(tab_info(&self.docs[i])),
                None => None,
            },
            None => None,
        };
        Attachment { document, dark: self.dark }
    }

    /// What drawing a frame of `tab` takes, or why it cannot be drawn.
    pub fn draw(&self, tab: TabId, spec: &FrameSpec) -> (r: Result<Drawing, ViewerError>)
        ensures
            is_drawing_of(r, self@, tab, *spec),
    {
        let i = match self.position(tab) {
            Some(i) => i,
            None => return Err(ViewerError::NoSuchTab(tab.0)),
        };
        let (width, height, dpi) = match frame_geometry(spec) {
            Ok(g) => g,
            Err(e) => return Err(e),
        };
        let draft: u8 = if spec.draft {
            FLAG_DRAFT
        } else {
            0
        };
        let flags: u8 = self.encoding.flag() | draft;
        assert(0u8 | 0u8 == 0u8 && 0u8 | 2u8 == 2u8 && 1u8 | 0u8 == 1u8 && 1u8 | 2u8 == 3u8)
            by (bit_vector);
        assert(width * height * 4 <= 16384 * 16384 * 4) by (nonlinear_arith)
            requires
                width <= 16384,
                height <= 16384,
        ;
        assert(width * height <= 16384 * 16384) by (nonlinear_arith)
            requires
                width <= 16384,
                height <= 16384,
        ;
        let header = FrameHeader {
            flags,
            status: FrameStatus::Drawn,
            width,
            height,
            dpi,
            tab: tab.0,
            seq: spec.seq,
            payload_len: 0,
        };
        let bytes: usize = width as usize * height as usize * 4;
        Ok(Drawing { header, background: self.docs[i].background(), bytes })
    }

    /// What writing a document out starts from: the color it is drawn over.
    /// Says too whether a renderer is needed; a vector export needs none, so
    /// a failure to get one must not stop it.
    pub fn export_source(
        &self,
        tab: TabId,
        spec: &ExportSpec,
    ) -> (r: Result<(Color, bool), ViewerError>)
        ensures
            r == (if self@.is_open(tab) {
                Ok::<(Color, bool), ViewerError>(
                    (background_of(self@.doc(tab)), holds_pixels(spec.format)),
                )
            } else {
                Err(ViewerError::NoSuchTab(tab.0))
            }),
    {
        match self.position(tab) {
            Some(i) => Ok((self.docs[i].background(), spec.format.is_raster())),
            None => Err(ViewerError::NoSuchTab(tab.0)),
        }
    }

    /// What has to happen before something can be rasterized.
    pub fn start_renderer(&self) -> (r: RendererStep)
        ensures
            match self@.renderer {
                RendererState::Ready => r is Use,
                RendererState::Untried => r is Build,
                RendererState::Failed(m) => r is Refuse && r->Refuse_0 is Rejected
                    && r->Refuse_0->Rejected_0@ == m@,
            },
    {
        match &self.renderer {
            RendererState::Ready => RendererStep::Use,
            RendererState::Untried => RendererStep::Build,
            RendererState::Failed(m) => RendererStep::Refuse(ViewerError::Rejected(m.clone())),
        }
    }

    /// Record how asking for a renderer went, so that it is asked once.
    pub fn renderer_built(&mut self, built: Result<(), String>) -> (r: Result<(), ViewerError>)
        ensures
            match built {
                Ok(()) => r is Ok && final(self)@ == (WorkerView {
                    renderer: RendererState::Ready,
                    ..old(self)@
                }),
                Err(why) => {
                    &&& r is Err
                    &&& r->Err_0 is Rejected
                    &&& r->Err_0->Rejected_0@ == "cannot rasterize: "@ + why@
                    &&& final(self)@.renderer is Failed
                    &&& final(self)@.renderer->Failed_0@ == "cannot rasterize: "@ + why@
                    &&& final(self)@ == (WorkerView {
                        renderer: final(self)@.renderer,
                        ..old(self)@
                    })
                },
            },
    {
        match built {
            Ok(()) => {
                self.renderer = RendererState::Ready;
                Ok(())
            },
            Err(why) => {
                let mut message = String::new();
                message.append("cannot rasterize: ");
                message.append(why.as_str());
                assert(message@ =~= "cannot rasterize: "@ + why@);
                self.renderer = RendererState::Failed(message.clone());
                Err(ViewerError::Rejected(message))
            },
        }
    }

    /// The path to re-read when a document's file may have changed.
    pub fn reload_path(&self, tab: TabId) -> (path: Option<String>)
        ensures
            match path {
                Some(p) => self@.is_open(tab) && p@ == self@.doc(tab).path@,
                None => !self@.is_open(tab),
            },
    {
        match self.position(tab) {
            Some(i) => Some(self.docs[i].path.clone()),
            None => None,
        }
    }

    /// Replace a document with what was found on disk.
    ///
    /// A failure that looks like a half-written file is retried while the
    /// budget lasts; anything else is recorded and reported, and the previous
    /// document stays, so a broken save leaves a working plot rather than an
    /// empty tab.
    pub fn reload(&mut self, tab: TabId, attempt: u8, file: FileRead) -> (r: ReloadStep)
        requires
            old(self)@.consistent(),
        ensures
            final(self)@.consistent(),
            !old(self)@.is_open(tab) ==> r is Ignored && final(self)@ == old(self)@,
            old(self)@.is_open(tab) ==> ({
                let i = tab_index(old(self)@.docs, tab, 0);
                let doc = old(self)@.docs[i];
                match reload_failure(doc.path@, file) {
                    None => {
                        let next = OpenDoc {
                            bytes: file->Bytes_0,
                            read: file->Bytes_1->Ok_0,
                            generation: wrapped_next(doc.generation),
                            stale: None,
                            ..doc
                        };
                        &&& r is Reloaded
                        &&& describes(r->Reloaded_0, next)
                        &&& final(self)@ == (WorkerView {
                            docs: old(self)@.docs.update(i, next),
                            ..old(self)@
                        })
                    },
                    Some((message, mends)) => if mends && delay_after(attempt) is Some {
                        &&& r == (ReloadStep::Retry {
                            delay_ms: delay_after(attempt)->0,
                            attempt: (attempt + 1) as u8,
                        })
                        &&& final(self)@ == old(self)@
                    } else {
                        &&& r is Failed
                        &&& r->Failed_0@ == message
                        &&& final(self)@.docs[i].stale is Some
                        &&& final(self)@.docs[i].stale->0@ == message
                        &&& final(self)@ == (WorkerView {
                            docs: old(self)@.docs.update(
                                i,
                                OpenDoc { stale: final(self)@.docs[i].stale, ..doc },
                            ),
                            ..old(self)@
                        })
                    },
                }
            }),
    {
        let ghost was = self@;
        let i = match self.position(tab) {
            Some(i) => i,
            None => return ReloadStep::Ignored,
        };
        let (message, mends) = match file {
            FileRead::Unreadable(why) => {
                let e = ViewerError::io(self.docs[i].path.as_str(), why);
                (e.message(), true)
            },
            FileRead::Bytes(bytes, read) => {
                if bytes.len() == 0 {
                    ("the file is empty".to_owned(), true)
                } else {
                    let doc = &mut self.docs[i];
                    match doc.reload(bytes, read) {
                        Ok(()) => {
                            let info = tab_info(&self.docs[i]);
                            assert(self@.docs =~= was.docs.update(i as int, self.docs@[i as int]));
                            proof {
                                lemma_update_stays_consistent(was, i as int, self.docs@[i as int]);
                            }
                            return ReloadStep::Reloaded(info);
                        },
                        Err(e) => (e.message(), e.worth_retrying()),
                    }
                }
            },
        };
        assert(self@.docs =~= was.docs);
        if mends {
            if let Some(delay_ms) = schedule_reload(attempt) {
                return ReloadStep::Retry { delay_ms, attempt: attempt + 1 };
            }
        }
        let doc = &mut self.docs[i];
        doc.stale = Some(message.clone());
        assert(self@.docs =~= was.docs.update(i as int, self.docs@[i as int]));
        proof {
            lemma_update_stays_consistent(was, i as int, self.docs@[i as int]);
        }
        ReloadStep::Failed(message)
    }
}

proof fn lemma_update_stays_consistent(v: WorkerView, i: int, doc: OpenDoc)
    requires
        v.consistent(),
        0 <= i < v.docs.len(),
        doc.id == v.docs[i].id,
        doc.path@ == v.docs[i].path@,
        doc.dark == v.docs[i].dark,
    ensures
        (WorkerView { docs: v.docs.update(i, doc), ..v }).consistent(),
{
    let docs = v.docs.update(i, doc);
    assert forall|a: int, b: int| 0 <= a < b < docs.len() implies (#[trigger] docs[a]).id != (
    #[trigger] docs[b]).id && docs[a].path@ != docs[b].path@ by {
        assert(v.docs[a].id != v.docs[b].id && v.docs[a].path@ != v.docs[b].path@);
    }
    assert forall|a: int| 0 <= a < docs.len() implies (#[trigger] docs[a]).id.0 < v.next_id
        && docs[a].dark == v.dark by {
        assert(v.docs[a].id.0 < v.next_id);
    }
}

proof fn lemma_opened_count_is_in_range(v: WorkerView, files: Seq<Candidate>, n: int)
    requires
        0 <= n,
    ensures
        0 <= opened_count(v, files, n) <= n,
    decreases n,
{
    if n > 0 {
        lemma_opened_count_is_in_range(v, files, n - 1);
    }
}

/// A path that has been opened is known from then on, under the id it was
/// given, and opening it again is answered with that tab.
pub proof fn lemma_reopening_finds_the_same_tab(v: WorkerView, doc: OpenDoc)
    requires
        !v.has_path(doc.path@),
    ensures
        ({
            let after = WorkerView { docs: v.docs.push(doc), ..v };
            &&& after.has_path(doc.path@)
            &&& after.docs[path_index(after.docs, doc.path@, 0)] == doc
        }),
{
    let docs = v.docs.push(doc);
    lemma_path_index(v.docs, doc.path@, 0);
    lemma_path_index(docs, doc.path@, 0);
    let k = path_index(docs, doc.path@, 0);
    if k < v.docs.len() {
        assert(docs[k] == v.docs[k]);
    } else if k == docs.len() {
        assert(docs[v.docs.len() as int].path@ == doc.path@);
    }
}

/// Opening files leaves every document that was open as it is, and gives the
/// new ones ids that were never handed out before.
pub proof fn lemma_opening_adds_new_tabs_only(v: WorkerView, files: Seq<Candidate>, n: nat)
    requires
        v.next_id + files.len() <= u32::MAX,
        n <= files.len(),
    ensures
        ({
            let after = after_opening(v, files, n);
            &&& v.next_id <= after.next_id <= v.next_id + n
            &&& v.docs.len() <= after.docs.len()
            &&& forall|i: int| 0 <= i < v.docs.len() ==> #[trigger] after.docs[i] == v.docs[i]
            &&& forall|i: int|
                v.docs.len() <= i < after.docs.len() ==> v.next_id <= (
                #[trigger] after.docs[i]).id.0 < after.next_id
        }),
    decreases n,
{
    if n > 0 {
        lemma_opening_adds_new_tabs_only(v, files, (n - 1) as nat);
    }
}

/// A closed document is gone: its id is not open and its path is not known.
pub proof fn lemma_closed_document_is_gone(v: WorkerView, tab: TabId)
    requires
        v.consistent(),
        v.is_open(tab),
    ensures
        ({
            let after = WorkerView {
                docs: v.docs.remove(tab_index(v.docs, tab, 0)),
                ..v
            };
            !after.is_open(tab) && !after.has_path(v.doc(tab).path@)
        }),
{
    lemma_tab_index(v.docs, tab, 0);
    let i = tab_index(v.docs, tab, 0);
    let docs = v.docs.remove(i);
    lemma_tab_index(docs, tab, 0);
    lemma_path_index(docs, v.docs[i].path@, 0);
    assert forall|j: int| 0 <= j < docs.len() implies (#[trigger] docs[j]).id != tab
        && docs[j].path@ != v.docs[i].path@ by {
        if j < i {
            assert(docs[j] == v.docs[j]);
            assert(v.docs[j].id != v.docs[i].id);
        } else {
            assert(docs[j] == v.docs[j + 1]);
            assert(v.docs[i].id != v.docs[j + 1].id);
        }
    }
}

/// A frame that is no draft has the edges and the resolution asked for, each
/// edge by itself; an edge of nothing is one pixel, and one that is too long is
/// the longest there is. A frame is refused only for its resolution.
pub proof fn lemma_frame_is_as_large_as_asked(spec: FrameSpec)
    requires
        !spec.draft,
    ensures
        geometry_of(spec) is Ok <==> spec.dpi is Finite && spec.dpi->Finite_0.nanos > 0,
        geometry_of(spec) is Ok ==> ({
            let (w, h, dpi) = geometry_of(spec)->Ok_0;
            &&& 1 <= spec.width <= 16384 ==> w == spec.width
            &&& 1 <= spec.height <= 16384 ==> h == spec.height
            &&& spec.width == 0 ==> w == 1
            &&& spec.height == 0 ==> h == 1
            &&& spec.width > 16384 ==> w == 16384
            &&& spec.height > 16384 ==> h == 16384
            &&& dpi == spec.dpi->Finite_0
        }),
{
}

/// The flags of a frame say one thing each: the lowest whether its pixels are
/// compressed, the next whether it is a draft.
pub proof fn lemma_flags_say_what_a_frame_is(encoding: Encoding, draft: bool)
    ensures
        frame_flags(encoding, draft) % 2 == 1 <==> encoding == Encoding::PngFast,
        frame_flags(encoding, draft) / 2 == 1 <==> draft,
        frame_flags(encoding, draft) < 4,
{
}

/// A file that is opened becomes a document of that path and those bytes, as
/// they were read, in the theme the others are in, and never reloaded yet.
pub proof fn lemma_opened_document_is_the_file(v: WorkerView, files: Seq<Candidate>, i: int)
    requires
        0 <= i < files.len(),
        open_failure(files[i].path@, files[i].file) is None,
        !after_opening(v, files, i as nat).has_path(files[i].path@),
    ensures
        ({
            let before = after_opening(v, files, i as nat);
            let after = after_opening(v, files, (i + 1) as nat);
            let doc = after.docs.last();
            &&& after.docs == before.docs.push(doc)
            &&& doc.path == files[i].path
            &&& files[i].file == FileRead::Bytes(doc.bytes, Ok(doc.read))
            &&& doc.dark == before.dark && doc.generation == 0 && doc.stale is None
            &&& doc.id.0 == before.next_id
        }),
{
    let before = after_opening(v, files, i as nat);
    let after = after_opening(v, files, (i + 1) as nat);
    assert(after.docs.drop_last() =~= before.docs);
    assert(after.docs =~= before.docs.push(after.docs.last()));
}

/// The document found under an id or a path is the first that has it, and none
/// is found only where none has.
pub proof fn lemma_first_document_is_found(
    docs: Seq<OpenDoc>,
    tab: TabId,
    path: Seq<char>,
    i: int,
)
    requires
        0 <= i <= docs.len(),
    ensures
        ({
            let at = tab_index(docs, tab, i);
            &&& i <= at <= docs.len()
            &&& forall|k: int| i <= k < at ==> (#[trigger] docs[k]).id != tab
            &&& at < docs.len() ==> docs[at].id == tab
        }),
        ({
            let at = path_index(docs, path, i);
            &&& i <= at <= docs.len()
            &&& forall|k: int| i <= k < at ==> (#[trigger] docs[k]).path@ != path
            &&& at < docs.len() ==> docs[at].path@ == path
        }),
    decreases docs.len() - i,
{
    if i < docs.len() {
        lemma_first_document_is_found(docs, tab, path, i + 1);
    }
}

/// Reloading is worth another try exactly where the file may still be being
/// written: it cannot be read, it is empty, or it fails in a way that more bytes
/// could mend.
pub proof fn lemma_half_written_files_are_tried_again(path: Seq<char>, file: FileRead)
    ensures
        match (file, reload_failure(path, file)) {
            (FileRead::Unreadable(_), failure) => failure is Some && (failure->0).1,
            (FileRead::Bytes(bytes, read), failure) => {
                &&& bytes@.len() == 0 ==> failure is Some && (failure->0).1
                &&& bytes@.len() > 0 && read is Ok ==> failure is None
                &&& bytes@.len() > 0 && read is Err ==> failure is Some && (failure->0).1
                    == match read->Err_0.cause {
                    DocumentError::UnsupportedVersion { .. } => false,
                    DocumentError::UnsupportedFlags { .. } => false,
                    DocumentError::UnknownCriticalChunk { .. } => false,
                    DocumentError::UnknownGeom { .. } => false,
                    _ => true,
                }
            },
        },
{
}

} // verus!
