//! The in-process server: which class is asked for, and when the library may
//! go.

use vstd::prelude::*;

use super::registry::{CLSID_PREVIEW_HANDLER, CLSID_THUMBNAIL_PROVIDER};

verus! {

/// Why a call is refused.
#[derive(Debug, Clone, Copy, PartialEq, Eq, Structural)]
pub enum Refusal {
    /// A pointer that has to be there is not.
    InvalidArgument,
    /// The call came out of turn.
    Unexpected,
    /// It could not be done.
    Failed,
    /// The class cannot be made part of another object.
    NoAggregation,
    /// The class is not one of this library's.
    ClassNotAvailable,
}

/// Which of the two extensions a factory makes.
#[derive(Debug, Clone, Copy, PartialEq, Eq, Structural)]
pub enum Class {
    Thumbnail,
    Preview,
}

/// The class that an id stands for.
pub open spec fn class_of(clsid: u128) -> Option<Class> {
    if clsid == CLSID_THUMBNAIL_PROVIDER {
        Some(Class::Thumbnail)
    } else if clsid == CLSID_PREVIEW_HANDLER {
        Some(Class::Preview)
    } else {
        None
    }
}

/// Which factory is asked for. `clsid` is `None` where its pointer is null,
/// and `slots` says whether the other two pointers are there.
pub fn class_object(clsid: Option<u128>, slots: bool) -> (r: Result<Class, Refusal>)
    ensures
        r == (match clsid {
            Some(id) if slots => match class_of(id) {
                Some(class) => Ok::<Class, Refusal>(class),
                None => Err(Refusal::ClassNotAvailable),
            },
            _ => Err(Refusal::InvalidArgument),
        }),
{
    match clsid {
        Some(id) => {
            if !slots {
                Err(Refusal::InvalidArgument)
            } else if id == CLSID_THUMBNAIL_PROVIDER {
                Ok(Class::Thumbnail)
            } else if id == CLSID_PREVIEW_HANDLER {
                Ok(Class::Preview)
            } else {
                Err(Refusal::ClassNotAvailable)
            }
        },
        None => Err(Refusal::InvalidArgument),
    }
}

/// The two classes have two ids.
pub proof fn lemma_classes_are_distinct()
    ensures
        class_of(CLSID_THUMBNAIL_PROVIDER) == Some(Class::Thumbnail),
        class_of(CLSID_PREVIEW_HANDLER) == Some(Class::Preview),
{
    assert(CLSID_THUMBNAIL_PROVIDER != CLSID_PREVIEW_HANDLER);
}

/// How many objects and locks keep the library loaded.
#[derive(Debug)]
pub struct Objects {
    pub live: usize,
}

/// The count that follows, starting over after the last.
pub open spec fn count_up(n: usize) -> usize {
    if n == usize::MAX {
        0
    } else {
        (n + 1) as usize
    }
}

/// The count that precedes, starting over before the first.
pub open spec fn count_down(n: usize) -> usize {
    if n == 0 {
        usize::MAX
    } else {
        (n - 1) as usize
    }
}

impl Objects {
    /// None.
    pub fn new() -> (r: Objects)
        ensures
            r.live == 0,
    {
        Objects { live: 0 }
    }

    /// Count one more.
    pub fn retain(&mut self)
        ensures
            final(self).live == count_up(old(self).live),
    {
        self.live = self.live.wrapping_add(1);
    }

    /// Whether an object may be made, and count it if so. `slot` says whether
    /// there is somewhere to put it, and `outer` whether it is to be part of
    /// another.
    pub fn create_instance(&mut self, slot: bool, outer: bool) -> (r: Result<(), Refusal>)
        ensures
            r == (if !slot {
                Err::<(), Refusal>(Refusal::InvalidArgument)
            } else if outer {
                Err(Refusal::NoAggregation)
            } else {
                Ok(())
            }),
            final(self).live == (if r is Ok {
                count_up(old(self).live)
            } else {
                old(self).live
            }),
    {
        if !slot {
            return Err(Refusal::InvalidArgument);
        }
        if outer {
            return Err(Refusal::NoAggregation);
        }
        self.retain();
        Ok(())
    }

    /// Count one less: an object that was made is gone.
    pub fn release(&mut self)
        ensures
            final(self).live == count_down(old(self).live),
    {
        self.live = self.live.wrapping_sub(1);
    }

    /// Hold the library, or let go of it.
    pub fn lock_server(&mut self, lock: bool)
        ensures
            final(self).live == (if lock {
                count_up(old(self).live)
            } else {
                count_down(old(self).live)
            }),
    {
        if lock {
            self.live = self.live.wrapping_add(1);
        } else {
            self.live = self.live.wrapping_sub(1);
        }
    }

    /// Whether the library may be unloaded.
    pub fn can_unload_now(&self) -> (r: bool)
        ensures
            r == (self.live == 0),
    {
        self.live == 0
    }
}

/// Letting go undoes holding, and releasing an object undoes making it.
pub proof fn lemma_unlocking_undoes_locking(n: usize)
    ensures
        count_down(count_up(n)) == n,
{
}

/// What the library goes through between being loaded and being unloaded.
pub enum Event {
    Made,
    Released,
    Locked,
    Unlocked,
}

/// The count after the first `n` events, from none.
pub open spec fn count_after(events: Seq<Event>, n: nat) -> usize
    decreases n,
{
    if n == 0 {
        0
    } else {
        let before = count_after(events, (n - 1) as nat);
        match events[n - 1] {
            Event::Made => count_up(before),
            Event::Locked => count_up(before),
            Event::Released => count_down(before),
            Event::Unlocked => count_down(before),
        }
    }
}

/// How many more of the first `n` events hold the library than let go of it.
pub open spec fn held(events: Seq<Event>, n: nat) -> int
    decreases n,
{
    if n == 0 {
        0
    } else {
        held(events, (n - 1) as nat) + match events[n - 1] {
            Event::Made => 1int,
            Event::Locked => 1,
            Event::Released => -1,
            Event::Unlocked => -1,
        }
    }
}

/// The library may be unloaded exactly when every object that was made has
/// been released and every lock has been undone, as long as nothing was
/// released or undone more often than it was made, and there were never more
/// of them than can be counted.
pub proof fn lemma_unloads_when_everything_is_gone(events: Seq<Event>, n: nat)
    requires
        n <= events.len(),
        forall|k: nat| k <= n ==> 0 <= #[trigger] held(events, k) <= usize::MAX,
    ensures
        count_after(events, n) == held(events, n),
        (count_after(events, n) == 0) == (held(events, n) == 0),
    decreases n,
{
    assert(0 <= held(events, n) <= usize::MAX);
    if n > 0 {
        assert forall|k: nat| k <= n - 1 implies 0 <= #[trigger] held(events, k) <= usize::MAX by {}
        lemma_unloads_when_everything_is_gone(events, (n - 1) as nat);
    }
}

/// The document a thumbnail is made of, once it has been read.
#[derive(Debug)]
pub struct ThumbnailProvider {
    pub document: Option<Vec<u8>>,
}

impl Default for ThumbnailProvider {
    fn default() -> (r: ThumbnailProvider)
        ensures
            r.document is None,
    {
        ThumbnailProvider { document: None }
    }
}

impl ThumbnailProvider {
    /// Keep the document's bytes.
    pub fn initialize(&mut self, bytes: Vec<u8>)
        ensures
            final(self).document == Some(bytes),
    {
        self.document = Some(bytes);
    }

    /// The document to draw. `slots` says whether there is somewhere to put
    /// the picture; asking before there is a document is a caller error.
    pub fn get_thumbnail(&self, slots: bool) -> (r: Result<&Vec<u8>, Refusal>)
        ensures
            match r {
                Ok(bytes) => slots && self.document == Some(*bytes),
                Err(e) => e == (if !slots {
                    Refusal::InvalidArgument
                } else {
                    Refusal::Unexpected
                }) && (slots ==> self.document is None),
            },
    {
        if !slots {
            return Err(Refusal::InvalidArgument);
        }
        match &self.document {
            Some(bytes) => Ok(bytes),
            None => Err(Refusal::Unexpected),
        }
    }
}

} // verus!
