//! Watching open documents for changes on disk.
//!
//! The watch goes on the directory, not the file: a careful writer saves by
//! renaming a finished file over the old one, and a watch on the file would
//! survive exactly one such save. One directory is watched once however many
//! documents in it are open, which is what the reference counting is for.

use vstd::hash_map::StringHashMap;
use vstd::prelude::*;

use super::channel::TabId;
use super::error::RETRY_DELAYS_MS;
use super::paths::{lies_in, parent, shown};

verus! {

/// How long to wait for a burst of events to settle, in milliseconds.
///
/// An editor's save is several filesystem events and a rename is two more,
/// so without this one save would trigger several reads of the same file.
pub const DEBOUNCE_MS: u64 = 250;

/// Which paths belong to which tab, and which directories are being watched
/// on their behalf.
pub struct Registry {
    /// Canonical document path to the tab showing it.
    files: StringHashMap<TabId>,
    /// Watched directory to how many open documents live in it.
    dirs: StringHashMap<u64>,
}

/// The registry as plain values.
#[verifier::ext_equal]
pub struct RegistryView {
    pub files: Map<Seq<char>, TabId>,
    pub dirs: Map<Seq<char>, u64>,
}

impl View for Registry {
    type V = RegistryView;

    closed spec fn view(&self) -> RegistryView {
        RegistryView { files: self.files@, dirs: self.dirs@ }
    }
}

impl RegistryView {
    /// How many open documents live in a directory.
    pub open spec fn count(self, dir: Seq<char>) -> nat {
        if self.dirs.contains_key(dir) {
            self.dirs[dir] as nat
        } else {
            0
        }
    }

    /// Every directory that is listed has something in it.
    pub open spec fn counts_are_positive(self) -> bool {
        forall|d: Seq<char>| #[trigger] self.dirs.contains_key(d) ==> self.dirs[d] > 0
    }

    /// The tab a changed path belongs to: under the spelling reported, or
    /// else under the one it resolves to.
    pub open spec fn owner(self, path: Seq<char>, resolved: Option<Seq<char>>) -> Option<TabId> {
        if self.files.contains_key(path) {
            Some(self.files[path])
        } else {
            match resolved {
                Some(p) => if self.files.contains_key(p) {
                    Some(self.files[p])
                } else {
                    None
                },
                None => None,
            }
        }
    }

    /// The registry once `path` in `dir` has been added.
    pub open spec fn added(self, path: Seq<char>, dir: Seq<char>, tab: TabId) -> RegistryView {
        RegistryView {
            files: self.files.insert(path, tab),
            dirs: self.dirs.insert(dir, (self.count(dir) + 1) as u64),
        }
    }

    /// The registry once `path` has been added where it lies in `dir`, or in
    /// none.
    pub open spec fn added_at(
        self,
        path: Seq<char>,
        dir: Option<Seq<char>>,
        tab: TabId,
    ) -> RegistryView {
        match dir {
            Some(dir) => if self.count(dir) == u64::MAX {
                self
            } else {
                self.added(path, dir, tab)
            },
            None => self,
        }
    }

    /// The directory that has to be watched once something in it is added.
    pub open spec fn newly_watched(self, dir: Option<Seq<char>>) -> Option<Seq<char>> {
        match dir {
            Some(d) => if self.count(d) == 0 {
                dir
            } else {
                None
            },
            None => None,
        }
    }

    /// The registry once `path` has been removed where it lies in `dir`, or
    /// in none.
    pub open spec fn removed_at(self, path: Seq<char>, dir: Option<Seq<char>>) -> RegistryView {
        match dir {
            Some(dir) => self.removed(path, dir),
            None => self,
        }
    }

    /// The directory that need not be watched once something in it is
    /// removed.
    pub open spec fn no_longer_watched(self, dir: Option<Seq<char>>) -> Option<Seq<char>> {
        match dir {
            Some(d) => if self.dirs.contains_key(d) && self.count(d) <= 1 {
                dir
            } else {
                None
            },
            None => None,
        }
    }

    /// The registry once `path` in `dir` has been removed.
    pub open spec fn removed(self, path: Seq<char>, dir: Seq<char>) -> RegistryView {
        RegistryView {
            files: self.files.remove(path),
            dirs: if self.count(dir) <= 1 {
                self.dirs.remove(dir)
            } else {
                self.dirs.insert(dir, (self.count(dir) - 1) as u64)
            },
        }
    }
}

/// What a filesystem event says happened.
#[derive(Debug, Clone, Copy, PartialEq, Eq, Structural)]
pub enum ChangeKind {
    /// Something unspecified.
    Any,
    /// The file was read or opened.
    Access,
    /// The file appeared.
    Create,
    /// Its contents or its name changed.
    Modify,
    /// The file went away.
    Remove,
    /// Something else.
    Other,
}

/// A path as an event names it, and as it resolves, when it does.
#[derive(Debug)]
pub struct ChangedPath {
    pub path: String,
    pub resolved: Option<String>,
}

/// One filesystem event.
#[derive(Debug)]
pub struct Change {
    pub kind: ChangeKind,
    pub paths: Vec<ChangedPath>,
}

/// True when an event says the file's contents may have changed.
pub open spec fn may_have_changed(kind: ChangeKind) -> bool {
    kind == ChangeKind::Any || kind == ChangeKind::Create || kind == ChangeKind::Modify
}

/// Whether an event says the file's contents may have changed.
///
/// A removal is deliberately not one of them. A document whose file has gone
/// is still a plot on screen that can be exported, and a rename over the
/// file, which is how an atomic save arrives, is reported as a modification
/// of the destination rather than a removal.
pub fn worth_reloading(kind: ChangeKind) -> (r: bool)
    ensures
        r == may_have_changed(kind),
{
    match kind {
        ChangeKind::Any => true,
        ChangeKind::Create => true,
        ChangeKind::Modify => true,
        _ => false,
    }
}

/// The resolved spelling of a changed path.
pub open spec fn resolved_of(p: ChangedPath) -> Option<Seq<char>> {
    match p.resolved {
        Some(s) => Some(s@),
        None => None,
    }
}

/// True when one of the first `n` paths of an event belongs to `tab`.
pub open spec fn names_tab(v: RegistryView, paths: Seq<ChangedPath>, n: int, tab: TabId) -> bool {
    exists|j: int|
        0 <= j < n && v.owner((#[trigger] paths[j]).path@, resolved_of(paths[j])) == Some(tab)
}

/// True when one of the first `n` events may have changed the document of
/// `tab`.
pub open spec fn touches(v: RegistryView, events: Seq<Change>, n: int, tab: TabId) -> bool {
    exists|i: int|
        0 <= i < n && may_have_changed((#[trigger] events[i]).kind) && names_tab(
            v,
            events[i].paths@,
            events[i].paths@.len() as int,
            tab,
        )
}

fn push_once(tabs: &mut Vec<TabId>, tab: TabId)
    requires
        old(tabs)@.no_duplicates(),
    ensures
        final(tabs)@.no_duplicates(),
        forall|t: TabId| #[trigger]
            final(tabs)@.contains(t) == (old(tabs)@.contains(t) || t == tab),
{
    let mut i: usize = 0;
    while i < tabs.len()
        invariant
            i <= tabs@.len(),
            tabs@ == old(tabs)@,
            tabs@.no_duplicates(),
            forall|j: int| 0 <= j < i ==> tabs@[j] != tab,
        decreases tabs@.len() - i,
    {
        if tabs[i] == tab {
            assert(tabs@[i as int] == tab);
            return;
        }
        i = i + 1;
    }
    let ghost before = tabs@;
    tabs.push(tab);
    assert forall|t: TabId| #[trigger] tabs@.contains(t) == (before.contains(t) || t == tab) by {
        if before.contains(t) {
            let j = choose|j: int| 0 <= j < before.len() && before[j] == t;
            assert(tabs@[j] == t);
        }
        if t == tab {
            assert(tabs@[before.len() as int] == t);
        }
        if tabs@.contains(t) && t != tab {
            let j = choose|j: int| 0 <= j < tabs@.len() && tabs@[j] == t;
            assert(before[j] == t);
        }
    }
}

impl Registry {
    /// A registry of nothing.
    pub fn new() -> (r: Registry)
        ensures
            r@ == (RegistryView { files: Map::empty(), dirs: Map::empty() }),
    {
        Registry { files: StringHashMap::new(), dirs: StringHashMap::new() }
    }

    /// The tab a changed path belongs to, if any.
    ///
    /// A watcher does not promise the spelling the path was registered
    /// under, so the resolved one is tried when the reported one is unknown.
    pub fn tab_for(&self, path: &str, resolved: Option<&str>) -> (tab: Option<TabId>)
        ensures
            tab == self@.owner(
                path@,
                match resolved {
                    Some(p) => Some(p@),
                    None => None,
                },
            ),
    {
        if let Some(tab) = self.files.get(path) {
            return Some(*tab);
        }
        match resolved {
            Some(p) => match self.files.get(p) {
                Some(tab) => Some(*tab),
                None => None,
            },
            None => None,
        }
    }

    /// Report changes to `path` as belonging to `tab`. Gives the directory
    /// that is to be watched from now on, if there is one. A path that lies in
    /// no directory is not reported on, nor one in a directory of which no
    /// more can be counted.
    pub fn add(&mut self, path: &str, tab: TabId) -> (watch: Option<String>)
        ensures
            exists|dir: Option<Seq<char>>| #[trigger]
                lies_in(path@, dir) && final(self)@ == old(self)@.added_at(path@, dir, tab)
                    && shown(watch) == old(self)@.newly_watched(dir),
    {
        let dir = parent(path);
        assert(lies_in(path@, shown(dir)));
        match dir {
            Some(dir) => {
                let full = match self.dirs.get(dir.as_str()) {
                    Some(n) => *n == u64::MAX,
                    None => false,
                };
                if full || !self.add_in(path, dir.as_str(), tab) {
                    return None;
                }
                Some(dir)
            },
            None => None,
        }
    }

    /// Report changes to `path`, which lies in `dir`, as belonging to `tab`.
    /// Says whether the directory is to be watched from now on.
    pub fn add_in(&mut self, path: &str, dir: &str, tab: TabId) -> (first: bool)
        requires
            old(self)@.count(dir@) < u64::MAX,
        ensures
            final(self)@ == old(self)@.added(path@, dir@, tab),
            first == (old(self)@.count(dir@) == 0),
    {
        let count: u64 = match self.dirs.get(dir) {
            Some(n) => *n,
            None => 0,
        };
        self.files.insert(path.to_owned(), tab);
        self.dirs.insert(dir.to_owned(), count + 1);
        count == 0
    }

    /// Forget that a directory is watched, so that opening another document
    /// in it tries again rather than assuming a watch exists.
    pub fn watch_failed(&mut self, dir: &str)
        ensures
            final(self)@ == (RegistryView { dirs: old(self)@.dirs.remove(dir@), ..old(self)@ }),
    {
        self.dirs.remove(dir);
    }

    /// Stop reporting changes to `path`. Gives the directory that no longer
    /// needs watching, if there is one.
    pub fn remove(&mut self, path: &str) -> (unwatch: Option<String>)
        ensures
            exists|dir: Option<Seq<char>>| #[trigger]
                lies_in(path@, dir) && final(self)@ == old(self)@.removed_at(path@, dir) && shown(
                    unwatch,
                ) == old(self)@.no_longer_watched(dir),
    {
        let dir = parent(path);
        assert(lies_in(path@, shown(dir)));
        match dir {
            Some(dir) => if self.remove_from(path, dir.as_str()) {
                Some(dir)
            } else {
                None
            },
            None => None,
        }
    }

    /// Stop reporting changes to `path`, which lies in `dir`. Says whether
    /// the directory no longer needs watching.
    pub fn remove_from(&mut self, path: &str, dir: &str) -> (last: bool)
        ensures
            final(self)@ == old(self)@.removed(path@, dir@),
            last == (old(self)@.dirs.contains_key(dir@) && old(self)@.count(dir@) <= 1),
    {
        self.files.remove(path);
        match self.dirs.get(dir) {
            Some(n) => {
                let n: u64 = *n;
                if n <= 1 {
                    self.dirs.remove(dir);
                    true
                } else {
                    self.dirs.insert(dir.to_owned(), n - 1);
                    false
                }
            },
            None => {
                assert(self.dirs@.remove(dir@) =~= self.dirs@);
                false
            },
        }
    }

    /// The tabs whose documents a burst of events may have changed.
    ///
    /// One entry per tab however many events named it: an editor's save is a
    /// burst, and re-reading the same file four times would only find the
    /// same bytes.
    pub fn affected(&self, events: &Vec<Change>) -> (tabs: Vec<TabId>)
        ensures
            tabs@.no_duplicates(),
            forall|t: TabId| #[trigger]
                tabs@.contains(t) == touches(self@, events@, events@.len() as int, t),
    {
        let mut tabs: Vec<TabId> = Vec::new();
        let ghost v = self@;
        let mut i: usize = 0;
        while i < events.len()
            invariant
                i <= events@.len(),
                v == self@,
                tabs@.no_duplicates(),
                forall|t: TabId| #[trigger]
                    tabs@.contains(t) == touches(v, events@, i as int, t),
            decreases events@.len() - i,
        {
            let event = &events[i];
            let ghost before = tabs@;
            if worth_reloading(event.kind) {
                let mut j: usize = 0;
                while j < event.paths.len()
                    invariant
                        i < events@.len(),
                        event == events@[i as int],
                        j <= event.paths@.len(),
                        v == self@,
                        tabs@.no_duplicates(),
                        forall|t: TabId| #[trigger]
                            tabs@.contains(t) == (before.contains(t) || names_tab(
                                v,
                                event.paths@,
                                j as int,
                                t,
                            )),
                    decreases event.paths@.len() - j,
                {
                    let p = &event.paths[j];
                    let found = match &p.resolved {
                        Some(r) => self.tab_for(p.path.as_str(), Some(r.as_str())),
                        None => self.tab_for(p.path.as_str(), None),
                    };
                    assert(found == v.owner(
                        event.paths@[j as int].path@,
                        resolved_of(event.paths@[j as int]),
                    ));
                    let ghost so_far = tabs@;
                    if let Some(tab) = found {
                        push_once(&mut tabs, tab);
                    }
                    assert forall|t: TabId| #[trigger]
                        tabs@.contains(t) == (before.contains(t) || names_tab(
                            v,
                            event.paths@,
                            j + 1,
                            t,
                        )) by {
                        lemma_names_one_more(v, event.paths@, j as int, t);
                        assert(tabs@.contains(t) == (so_far.contains(t) || found == Some(t)));
                    }
                    j = j + 1;
                }
            }
            assert forall|t: TabId| #[trigger]
                tabs@.contains(t) == touches(v, events@, i + 1, t) by {
                lemma_touches_one_more(v, events@, i as int, t);
                assert(before.contains(t) == touches(v, events@, i as int, t));
            }
            i = i + 1;
        }
        tabs
    }
}

proof fn lemma_names_one_more(v: RegistryView, paths: Seq<ChangedPath>, n: int, tab: TabId)
    requires
        0 <= n < paths.len(),
    ensures
        names_tab(v, paths, n + 1, tab) == (names_tab(v, paths, n, tab) || v.owner(
            paths[n].path@,
            resolved_of(paths[n]),
        ) == Some(tab)),
{
    if names_tab(v, paths, n + 1, tab) {
        let j = choose|j: int|
            0 <= j < n + 1 && v.owner((#[trigger] paths[j]).path@, resolved_of(paths[j])) == Some(
                tab,
            );
        if j < n {
            assert(names_tab(v, paths, n, tab));
        }
    }
    if names_tab(v, paths, n, tab) {
        let j = choose|j: int|
            0 <= j < n && v.owner((#[trigger] paths[j]).path@, resolved_of(paths[j])) == Some(tab);
        assert(j < n + 1);
    }
}

proof fn lemma_touches_one_more(v: RegistryView, events: Seq<Change>, n: int, tab: TabId)
    requires
        0 <= n < events.len(),
    ensures
        touches(v, events, n + 1, tab) == (touches(v, events, n, tab) || (may_have_changed(
            events[n].kind,
        ) && names_tab(v, events[n].paths@, events[n].paths@.len() as int, tab))),
{
    if touches(v, events, n + 1, tab) {
        let j = choose|i: int|
            0 <= i < n + 1 && may_have_changed((#[trigger] events[i]).kind) && names_tab(
                v,
                events[i].paths@,
                events[i].paths@.len() as int,
                tab,
            );
        if j < n {
            assert(touches(v, events, n, tab));
        }
    }
    if touches(v, events, n, tab) {
        let j = choose|i: int|
            0 <= i < n && may_have_changed((#[trigger] events[i]).kind) && names_tab(
                v,
                events[i].paths@,
                events[i].paths@.len() as int,
                tab,
            );
        assert(j < n + 1);
    }
}

/// The wait before the attempt that follows `attempt`, while the budget
/// lasts.
pub open spec fn delay_after(attempt: u8) -> Option<u64> {
    if attempt < 3 {
        Some(RETRY_DELAYS_MS@[attempt as int])
    } else {
        None
    }
}

/// How long to wait before trying a reload again after `attempt`.
///
/// The delays list is also the retry budget, so an attempt past its end is
/// the point at which a failure becomes the answer rather than something to
/// wait out.
pub fn schedule_reload(attempt: u8) -> (delay: Option<u64>)
    ensures
        delay == delay_after(attempt),
{
    match attempt {
        0 => Some(150),
        1 => Some(400),
        2 => Some(900),
        _ => None,
    }
}

/// Adding and removing keep every listed directory in use: one is listed
/// exactly while something in it is open.
pub proof fn lemma_counts_stay_positive(
    v: RegistryView,
    path: Seq<char>,
    dir: Seq<char>,
    tab: TabId,
)
    requires
        v.counts_are_positive(),
        v.count(dir) < u64::MAX,
    ensures
        v.added(path, dir, tab).counts_are_positive(),
        v.removed(path, dir).counts_are_positive(),
{
}

/// Removing a path that was just added leaves the registry as it was.
pub proof fn lemma_remove_undoes_add(
    v: RegistryView,
    path: Seq<char>,
    dir: Seq<char>,
    tab: TabId,
)
    requires
        v.counts_are_positive(),
        v.count(dir) < u64::MAX,
        !v.files.contains_key(path),
    ensures
        v.added(path, dir, tab).removed(path, dir) == v,
{
    let after = v.added(path, dir, tab).removed(path, dir);
    assert(after.files =~= v.files);
    assert(after.dirs =~= v.dirs);
}

/// A directory that holds two open documents stays watched when one of them
/// is closed.
pub proof fn lemma_shared_directory_stays_watched(
    v: RegistryView,
    first: Seq<char>,
    second: Seq<char>,
    dir: Seq<char>,
    a: TabId,
    b: TabId,
)
    requires
        v.count(dir) + 2 < u64::MAX,
    ensures
        v.added(first, dir, a).added(second, dir, b).removed(first, dir).dirs.contains_key(dir),
        first != second ==> v.added(first, dir, a).added(second, dir, b).removed(
            first,
            dir,
        ).owner(second, None) == Some(b),
{
}

} // verus!
