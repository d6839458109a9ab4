//! One window per document, and the map that says which shows what.
//!
//! A window shows one document for its whole life, and opening a second
//! document opens a second window. A window is bound to its document before
//! it is created, so its scripts can simply ask what they are showing.

use std::path::PathBuf;

use vstd::hash_map::StringHashMap;
use vstd::prelude::*;

use super::channel::{TabId, TabInfo};
use crate::text::{decimal_text, lemma_decimal_text_is_injective, push_decimal};

verus! {

/// `std::path::PathBuf`: a path, carried through as it is. Nothing is
/// claimed of what it holds.
#[verifier::external_type_specification]
#[verifier::external_body]
pub struct ExPathBuf(PathBuf);

/// Paths that arrived before the app was ready to open them.
///
/// On a first launch by double-click the event naming the document is
/// delivered before the app has been set up. Buffering it, and draining once
/// there is something to open it with, is what makes a double-click work on
/// the first try.
#[derive(Debug)]
pub struct PendingOpens {
    paths: Vec<PathBuf>,
}

impl View for PendingOpens {
    type V = Seq<PathBuf>;

    closed spec fn view(&self) -> Seq<PathBuf> {
        self.paths@
    }
}

impl Default for PendingOpens {
    fn default() -> (r: PendingOpens)
        ensures
            r@ == Seq::<PathBuf>::empty(),
    {
        PendingOpens { paths: Vec::new() }
    }
}

impl PendingOpens {
    /// Hold `paths` until the app can open them.
    pub fn queue(&mut self, paths: Vec<PathBuf>)
        ensures
            final(self)@ == old(self)@ + paths@,
    {
        let mut more = paths;
        self.paths.append(&mut more);
    }

    /// Take everything buffered.
    pub fn drain(&mut self) -> (held: Vec<PathBuf>)
        ensures
            held@ == old(self)@,
            final(self)@ == Seq::<PathBuf>::empty(),
    {
        let mut held: Vec<PathBuf> = Vec::new();
        held.append(&mut self.paths);
        assert(held@ =~= old(self)@);
        held
    }

    /// What to open now of the paths that just arrived: all of them once the
    /// app is ready; before that they are held for the drain that follows.
    pub fn deliver(&mut self, paths: Vec<PathBuf>, ready: bool) -> (now: Vec<PathBuf>)
        ensures
            ready ==> now@ == paths@ && final(self)@ == old(self)@,
            !ready ==> now@ == Seq::<PathBuf>::empty() && final(self)@ == old(self)@ + paths@,
    {
        if ready {
            paths
        } else {
            self.queue(paths);
            Vec::new()
        }
    }
}

/// Which window shows which document.
pub struct WindowMap {
    /// Window label to the document it shows, or `None` while it shows none.
    bound: StringHashMap<Option<TabId>>,
    next: u32,
}

/// The map as plain values.
#[verifier::ext_equal]
pub struct WindowsView {
    /// Window label to the document it shows, or `None` while it shows none.
    pub bound: Map<Seq<char>, Option<TabId>>,
    /// How many labels have been handed out.
    pub handed_out: nat,
}

impl WindowMap {
    /// There are only so many windows.
    #[verifier::type_invariant]
    spec fn countable(self) -> bool {
        self.bound@.dom().finite()
    }
}

impl View for WindowMap {
    type V = WindowsView;

    closed spec fn view(&self) -> WindowsView {
        WindowsView { bound: self.bound@, handed_out: self.next as nat }
    }
}

/// The `n`th label.
pub open spec fn label_text(n: nat) -> Seq<char> {
    "doc-"@ + decimal_text(n)
}

impl WindowsView {
    /// The document a window shows.
    pub open spec fn shows(self, label: Seq<char>) -> Option<TabId> {
        if self.bound.contains_key(label) {
            self.bound[label]
        } else {
            None
        }
    }

    /// True when a window exists and shows nothing.
    pub open spec fn vacant(self, label: Seq<char>) -> bool {
        self.bound.contains_key(label) && self.bound[label] is None
    }

    /// The first of `live`, from `i` on, that shows `tab`; the number of
    /// them when none does.
    pub open spec fn first_showing(self, live: Seq<String>, tab: TabId, i: int) -> int
        decreases live.len() - i,
    {
        if i >= live.len() {
            live.len() as int
        } else if self.shows(live[i]@) == Some(tab) {
            i
        } else {
            self.first_showing(live, tab, i + 1)
        }
    }

    /// The first of `live`, from `i` on, that is vacant; the number of them
    /// when none is.
    pub open spec fn first_vacant(self, live: Seq<String>, i: int) -> int
        decreases live.len() - i,
    {
        if i >= live.len() {
            live.len() as int
        } else if self.vacant(live[i]@) {
            i
        } else {
            self.first_vacant(live, i + 1)
        }
    }
}

impl Default for WindowMap {
    fn default() -> (r: WindowMap)
        ensures
            r@ == (WindowsView { bound: Map::empty(), handed_out: 0 }),
    {
        WindowMap { bound: StringHashMap::new(), next: 0 }
    }
}

/// What became of a document that was to be shown.
#[derive(Debug)]
pub enum Presented {
    /// It is in this window already: bring the window forward.
    Focus(String),
    /// It was given to this window, which was empty: retitle it and tell it.
    Bound(String),
    /// It needs a window of its own.
    Open,
}

impl WindowMap {
    /// The windows there are, taken out to be changed.
    fn take_bound(&mut self) -> (bound: StringHashMap<Option<TabId>>)
        ensures
            bound@ == old(self)@.bound,
            bound@.dom().finite(),
            final(self)@.handed_out == old(self)@.handed_out,
    {
        proof {
            use_type_invariant(&*self);
        }
        let mut bound: StringHashMap<Option<TabId>> = StringHashMap::new();
        core::mem::swap(&mut self.bound, &mut bound);
        bound
    }

    /// A label no window has used yet.
    pub fn next_label(&mut self) -> (label: String)
        requires
            old(self)@.handed_out < u32::MAX,
        ensures
            label@ == label_text(old(self)@.handed_out + 1),
            final(self)@ == (WindowsView {
                handed_out: old(self)@.handed_out + 1,
                ..old(self)@
            }),
    {
        proof {
            use_type_invariant(&*self);
        }
        self.next = self.next + 1;
        let mut label = String::new();
        label.append("doc-");
        push_decimal(&mut label, self.next as u64);
        assert(label@ =~= label_text(self.next as nat));
        label
    }

    /// Record that a window exists, showing `tab` if it has one.
    pub fn insert(&mut self, label: String, tab: Option<TabId>)
        ensures
            final(self)@ == (WindowsView {
                bound: old(self)@.bound.insert(label@, tab),
                ..old(self)@
            }),
            final(self)@.bound.len() == old(self)@.bound.len() + (if old(self)@.bound.contains_key(
                label@,
            ) {
                0int
            } else {
                1
            }),
    {
        let mut bound = self.take_bound();
        bound.insert(label, tab);
        self.bound = bound;
    }

    /// Give an existing window a document.
    pub fn bind(&mut self, label: &str, tab: TabId)
        ensures
            final(self)@ == (WindowsView {
                bound: old(self)@.bound.insert(label@, Some(tab)),
                ..old(self)@
            }),
    {
        self.insert(label.to_owned(), Some(tab));
    }

    /// The document a window shows.
    pub fn tab_for(&self, label: &str) -> (tab: Option<TabId>)
        ensures
            tab == self@.shows(label@),
    {
        match self.bound.get(label) {
            Some(tab) => *tab,
            None => None,
        }
    }

    /// Whether a window exists and is showing nothing.
    ///
    /// The one window this is true of is the empty one the app opens when it
    /// is launched with no document, and reusing it is what stops opening a
    /// file from leaving a stray blank window behind.
    pub fn is_vacant(&self, label: &str) -> (r: bool)
        ensures
            r == self@.vacant(label@),
    {
        match self.bound.get(label) {
            Some(tab) => tab.is_none(),
            None => false,
        }
    }

    /// Forget a window, reporting the document it was showing.
    pub fn forget(&mut self, label: &str) -> (tab: Option<TabId>)
        ensures
            tab == old(self)@.shows(label@),
            final(self)@ == (WindowsView {
                bound: old(self)@.bound.remove(label@),
                ..old(self)@
            }),
            final(self)@.bound.len() == old(self)@.bound.len() - (if old(self)@.bound.contains_key(
                label@,
            ) {
                1int
            } else {
                0
            }),
    {
        let tab = self.tab_for(label);
        let mut bound = self.take_bound();
        bound.remove(label);
        self.bound = bound;
        tab
    }

    /// How many windows are open.
    pub fn count(&self) -> (n: usize)
        ensures
            n == self@.bound.len(),
            self@.bound.dom().finite(),
    {
        proof {
            use_type_invariant(self);
        }
        self.bound.len()
    }

    /// The first of the live windows that shows `tab`, if any.
    pub fn label_showing(&self, live: &Vec<String>, tab: TabId) -> (r: Option<String>)
        ensures
            ({
                let i = self@.first_showing(live@, tab, 0);
                match r {
                    Some(label) => i < live@.len() && label@ == live@[i]@,
                    None => i == live@.len(),
                }
            }),
    {
        let mut i: usize = 0;
        while i < live.len()
            invariant
                i <= live@.len(),
                self@.first_showing(live@, tab, 0) == self@.first_showing(live@, tab, i as int),
            decreases live@.len() - i,
        {
            if let Some(shown) = self.tab_for(live[i].as_str()) {
                if shown == tab {
                    return Some(live[i].clone());
                }
            }
            i = i + 1;
        }
        None
    }

    /// An open window showing nothing, if there is one.
    pub fn vacant_label(&self, live: &Vec<String>) -> (r: Option<String>)
        ensures
            ({
                let i = self@.first_vacant(live@, 0);
                match r {
                    Some(label) => i < live@.len() && label@ == live@[i]@,
                    None => i == live@.len(),
                }
            }),
    {
        let mut i: usize = 0;
        while i < live.len()
            invariant
                i <= live@.len(),
                self@.first_vacant(live@, 0) == self@.first_vacant(live@, i as int),
            decreases live@.len() - i,
        {
            if self.is_vacant(live[i].as_str()) {
                return Some(live[i].clone());
            }
            i = i + 1;
        }
        None
    }

    /// The window that asked, when it can take the first document: it has to
    /// be showing nothing.
    pub fn reusable(&self, asking: Option<&str>) -> (r: Option<String>)
        ensures
            match (asking, r) {
                (Some(label), Some(taken)) => self@.vacant(label@) && taken@ == label@,
                (Some(label), None) => !self@.vacant(label@),
                (None, r) => r is None,
            },
    {
        match asking {
            Some(label) => if self.is_vacant(label) {
                Some(label.to_owned())
            } else {
                None
            },
            None => None,
        }
    }

    /// Decide how to show `tab`.
    ///
    /// A document already in one of the live windows is brought forward
    /// rather than opened a second time. Otherwise the first document goes to
    /// `reusable`, when there is one, which makes opening from a blank window
    /// fill that window; everything after gets a window of its own.
    pub fn present(
        &mut self,
        live: &Vec<String>,
        reusable: &mut Option<String>,
        tab: TabId,
    ) -> (r: Presented)
        ensures
            ({
                let i = old(self)@.first_showing(live@, tab, 0);
                if i < live@.len() {
                    &&& r is Focus
                    &&& r->Focus_0@ == live@[i]@
                    &&& final(self)@ == old(self)@
                    &&& *final(reusable) == *old(reusable)
                } else {
                    match *old(reusable) {
                        Some(label) => {
                            &&& r is Bound
                            &&& r->Bound_0 == label
                            &&& *final(reusable) is None
                            &&& final(self)@ == (WindowsView {
                                bound: old(self)@.bound.insert(label@, Some(tab)),
                                ..old(self)@
                            })
                        },
                        None => r is Open && final(self)@ == old(self)@ && *final(reusable) is None,
                    }
                }
            }),
    {
        proof {
            lemma_first_showing_is_in_range(self@, live@, tab, 0);
        }
        if let Some(label) = self.label_showing(live, tab) {
            return Presented::Focus(label);
        }
        match reusable.take() {
            Some(label) => {
                self.bind(label.as_str(), tab);
                Presented::Bound(label)
            },
            None => Presented::Open,
        }
    }
}

proof fn lemma_first_showing_is_in_range(v: WindowsView, live: Seq<String>, tab: TabId, i: int)
    requires
        0 <= i <= live.len(),
    ensures
        i <= v.first_showing(live, tab, i) <= live.len(),
        v.first_showing(live, tab, i) < live.len() ==> v.shows(
            live[v.first_showing(live, tab, i)]@,
        ) == Some(tab),
        v.first_showing(live, tab, i) == live.len() ==> forall|j: int|
            i <= j < live.len() ==> v.shows((#[trigger] live[j])@) != Some(tab),
    decreases live.len() - i,
{
    if i < live.len() && v.shows(live[i]@) != Some(tab) {
        lemma_first_showing_is_in_range(v, live, tab, i + 1);
    }
}

/// The title of a window.
pub open spec fn title_text(document: Option<TabInfo>) -> Seq<char> {
    match document {
        Some(info) => info.title@,
        None => "Hephaestus Viewer"@,
    }
}

/// Window title, which on macOS is also the text on its tab.
pub fn title_for(document: &Option<TabInfo>) -> (title: String)
    ensures
        title@ == title_text(*document),
{
    match document {
        Some(info) => info.title.clone(),
        None => "Hephaestus Viewer".to_owned(),
    }
}

/// No two labels are the same.
pub proof fn lemma_labels_are_unique(m: nat, n: nat)
    requires
        label_text(m) == label_text(n),
    ensures
        m == n,
{
    let k = "doc-"@.len() as int;
    assert(label_text(m).skip(k) =~= decimal_text(m));
    assert(label_text(n).skip(k) =~= decimal_text(n));
    lemma_decimal_text_is_injective(m, n);
}

/// A window that was inserted or bound shows what it was given, and every
/// other window shows what it did before. There is one more window exactly
/// when the label is new.
pub proof fn lemma_binding_touches_one_window(
    v: WindowsView,
    label: Seq<char>,
    tab: Option<TabId>,
    other: Seq<char>,
)
    requires
        v.bound.dom().finite(),
    ensures
        ({
            let after = WindowsView { bound: v.bound.insert(label, tab), ..v };
            &&& after.shows(label) == tab
            &&& after.vacant(label) == (tab is None)
            &&& other != label ==> after.shows(other) == v.shows(other) && after.vacant(other)
                == v.vacant(other)
            &&& after.bound.len() == v.bound.len() + (if v.bound.contains_key(label) {
                0int
            } else {
                1
            })
        }),
{
}

/// A window that was forgotten shows nothing and is not vacant either, and
/// every other window shows what it did before. There is one window less
/// exactly when the label was known, and forgetting it again changes nothing.
pub proof fn lemma_forgotten_window_is_gone(v: WindowsView, label: Seq<char>, other: Seq<char>)
    requires
        v.bound.dom().finite(),
    ensures
        ({
            let after = WindowsView { bound: v.bound.remove(label), ..v };
            &&& after.shows(label) is None && !after.vacant(label)
            &&& other != label ==> after.shows(other) == v.shows(other) && after.vacant(other)
                == v.vacant(other)
            &&& after.bound.len() == v.bound.len() - (if v.bound.contains_key(label) {
                1int
            } else {
                0
            })
            &&& after.bound.remove(label) == after.bound
        }),
{
    let after = v.bound.remove(label);
    assert(after.remove(label) =~= after);
    if !v.bound.contains_key(label) {
        assert(after =~= v.bound);
    }
}

/// The window that a document is found in is the first that shows it, and none
/// is found only where none does; likewise for a window that shows nothing yet.
pub proof fn lemma_first_window_is_found(v: WindowsView, live: Seq<String>, tab: TabId, i: int)
    requires
        0 <= i <= live.len(),
    ensures
        ({
            let at = v.first_showing(live, tab, i);
            &&& i <= at <= live.len()
            &&& forall|k: int| i <= k < at ==> v.shows((#[trigger] live[k])@) != Some(tab)
            &&& at < live.len() ==> v.shows(live[at]@) == Some(tab)
        }),
        ({
            let at = v.first_vacant(live, i);
            &&& i <= at <= live.len()
            &&& forall|k: int| i <= k < at ==> !v.vacant((#[trigger] live[k])@)
            &&& at < live.len() ==> v.vacant(live[at]@)
        }),
    decreases live.len() - i,
{
    if i < live.len() {
        lemma_first_window_is_found(v, live, tab, i + 1);
    }
}

} // verus!
