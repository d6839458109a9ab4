//! The half of a renderer that is bound to a frame size: what a resize
//! rebuilds, and which images are resident.

use std::collections::HashSet;

use vstd::prelude::*;

use super::error::BackendError;

verus! {

/// The pixel format of a target, by number.
pub type Format = u32;

/// What size-bound state was built for, and the images uploaded to it.
#[derive(Debug)]
pub struct SizeBound {
    built_for: Option<(u32, u32, Format)>,
    images: HashSet<u64>,
}

/// Size-bound state as plain values.
#[verifier::ext_equal]
pub struct SizeBoundView {
    pub built_for: Option<(u32, u32, Format)>,
    /// The keys of the resident images.
    pub images: Set<u64>,
}

impl View for SizeBound {
    type V = SizeBoundView;

    closed spec fn view(&self) -> SizeBoundView {
        SizeBoundView { built_for: self.built_for, images: self.images@ }
    }
}

/// A pixel count as the sixteen bits a scene is sized in.
pub fn dimension(edge: u32) -> (r: Result<u16, BackendError>)
    ensures
        r == (if edge <= u16::MAX {
            Ok::<u16, BackendError>(edge as u16)
        } else {
            Err(BackendError::EdgeTooLong { edge })
        }),
{
    if edge <= u16::MAX as u32 {
        Ok(edge as u16)
    } else {
        Err(BackendError::EdgeTooLong { edge })
    }
}

/// An image a frame draws.
#[derive(Debug, Clone, Copy)]
pub struct WantedImage {
    /// What the image is known by.
    pub key: u64,
    /// True when converting it yields pixels, which is what can be uploaded.
    pub pixels: bool,
}

/// The images wanted by a frame that are not among `resident` and can be
/// uploaded, each once, in the order they are first wanted; for the first `n`
/// of them.
pub open spec fn missing(resident: Set<u64>, wanted: Seq<WantedImage>, n: nat) -> Seq<u64>
    decreases n,
{
    if n == 0 {
        seq![]
    } else {
        let before = missing(resident, wanted, (n - 1) as nat);
        let image = wanted[n - 1];
        if resident.contains(image.key) || before.contains(image.key) || !image.pixels {
            before
        } else {
            before.push(image.key)
        }
    }
}

/// True when image `i` would have to be uploaded and cannot be.
pub open spec fn stuck(resident: Set<u64>, wanted: Seq<WantedImage>, i: int) -> bool {
    &&& !wanted[i].pixels
    &&& !resident.contains(wanted[i].key)
    &&& !missing(resident, wanted, i as nat).contains(wanted[i].key)
}

/// The first image from `i` on that would have to be uploaded and cannot be;
/// past the last one when there is none.
pub open spec fn first_stuck(resident: Set<u64>, wanted: Seq<WantedImage>, i: int) -> int
    decreases wanted.len() - i,
{
    if i >= wanted.len() || stuck(resident, wanted, i) {
        i
    } else {
        first_stuck(resident, wanted, i + 1)
    }
}

impl SizeBound {
    /// Nothing built.
    pub fn new() -> (r: SizeBound)
        ensures
            r@ == (SizeBoundView { built_for: None, images: Set::empty() }),
    {
        let r = SizeBound { built_for: None, images: HashSet::new() };
        assert(r@.images =~= Set::empty());
        r
    }

    /// Make sure the state is built for this frame. Gives the size to build a
    /// scene for when it has to be rebuilt, which invalidates the images too;
    /// a frame no scene can have is refused and nothing changes.
    pub fn ensure_sized(
        &mut self,
        width: u32,
        height: u32,
        format: Format,
    ) -> (r: Result<Option<(u16, u16)>, BackendError>)
        ensures
            if old(self)@.built_for == Some((width, height, format)) {
                r == Ok::<Option<(u16, u16)>, BackendError>(None) && final(self)@ == old(self)@
            } else if width > u16::MAX {
                r == Err::<Option<(u16, u16)>, BackendError>(
                    BackendError::EdgeTooLong { edge: width },
                ) && final(self)@ == old(self)@
            } else if height > u16::MAX {
                r == Err::<Option<(u16, u16)>, BackendError>(
                    BackendError::EdgeTooLong { edge: height },
                ) && final(self)@ == old(self)@
            } else {
                &&& r == Ok::<Option<(u16, u16)>, BackendError>(
                    Some((width as u16, height as u16)),
                )
                &&& final(self)@ == (SizeBoundView {
                    built_for: Some((width, height, format)),
                    images: Set::empty(),
                })
            },
    {
        let same = match self.built_for {
            Some((w, h, f)) => w == width && h == height && f == format,
            None => false,
        };
        if same {
            return Ok(None);
        }
        let w = match dimension(width) {
            Ok(w) => w,
            Err(e) => return Err(e),
        };
        let h = match dimension(height) {
            Ok(h) => h,
            Err(e) => return Err(e),
        };
        self.built_for = Some((width, height, format));
        self.images = HashSet::new();
        assert(self@.images =~= Set::empty());
        Ok(Some((w, h)))
    }

    /// The size the state is built for.
    pub fn size(&self) -> (r: Option<(u32, u32)>)
        ensures
            r == match self@.built_for {
                Some((w, h, _)) => Some((w, h)),
                None => None,
            },
    {
        match self.built_for {
            Some((w, h, _)) => Some((w, h)),
            None => None,
        }
    }

    /// Which of the images a frame wants have to be uploaded for it, each
    /// once, reusing the ones already held for this size. An image that would
    /// have to be and cannot is an error; the ones before it are uploaded.
    pub fn upload_images(&mut self, wanted: &Vec<WantedImage>) -> (r: (
        Vec<u64>,
        Result<(), BackendError>,
    ))
        ensures
            ({
                let end = first_stuck(old(self)@.images, wanted@, 0);
                &&& r.0@ == missing(old(self)@.images, wanted@, end as nat)
                &&& r.1 is Ok == (end == wanted@.len())
                &&& r.1 is Err ==> r.1->Err_0 is Other && r.1->Err_0->Other_0@
                    == "image conversion did not yield pixel data"@
            }),
            final(self)@ == (SizeBoundView {
                images: old(self)@.images.union(r.0@.to_set()),
                ..old(self)@
            }),
    {
        broadcast use vstd::std_specs::hash::group_hash_axioms;

        let ghost resident = self@.images;
        let ghost built = self@.built_for;
        let mut fresh: Vec<u64> = Vec::new();
        let mut i: usize = 0;
        assert(fresh@ =~= missing(resident, wanted@, 0));
        assert(resident.union(fresh@.to_set()) =~= resident);
        while i < wanted.len()
            invariant
                i <= wanted@.len(),
                resident == old(self)@.images,
                built == old(self)@.built_for,
                self@.built_for == built,
                self@.images == resident.union(fresh@.to_set()),
                fresh@ == missing(resident, wanted@, i as nat),
                first_stuck(resident, wanted@, 0) == first_stuck(resident, wanted@, i as int),
            decreases wanted@.len() - i,
        {
            let image = wanted[i];
            let known = self.images.contains(&image.key);
            if !known {
                if !image.pixels {
                    return (
                        fresh,
                        Err(
                            BackendError::Other(
                                "image conversion did not yield pixel data".to_owned(),
                            ),
                        ),
                    );
                }
                self.images.insert(image.key);
                proof {
                    lemma_pushed(fresh@, image.key);
                }
                fresh.push(image.key);
                assert(self@.images =~= resident.union(fresh@.to_set()));
            }
            i = i + 1;
        }
        (fresh, Ok(()))
    }
}

/// Which of the images a frame wants have to be uploaded next to the resident
/// ones, passing over the ones that cannot be. They are resident then.
pub(crate) fn note_convertible(images: &mut HashSet<u64>, wanted: &Vec<WantedImage>) -> (fresh: Vec<
    u64,
>)
    ensures
        fresh@ == missing(old(images)@, wanted@, wanted@.len()),
        final(images)@ == old(images)@.union(fresh@.to_set()),
{
    broadcast use vstd::std_specs::hash::group_hash_axioms;

    let ghost resident = images@;
    let mut fresh: Vec<u64> = Vec::new();
    let mut i: usize = 0;
    assert(fresh@ =~= missing(resident, wanted@, 0));
    assert(resident.union(fresh@.to_set()) =~= resident);
    while i < wanted.len()
        invariant
            i <= wanted@.len(),
            images@ == resident.union(fresh@.to_set()),
            fresh@ == missing(resident, wanted@, i as nat),
        decreases wanted@.len() - i,
    {
        let image = wanted[i];
        let known = images.contains(&image.key);
        if !known && image.pixels {
            images.insert(image.key);
            proof {
                lemma_pushed(fresh@, image.key);
            }
            fresh.push(image.key);
            assert(images@ =~= resident.union(fresh@.to_set()));
        }
        i = i + 1;
    }
    fresh
}

proof fn lemma_pushed(list: Seq<u64>, key: u64)
    ensures
        list.push(key).to_set() == list.to_set().insert(key),
{
    let more = list.push(key);
    assert(more[list.len() as int] == key);
    assert forall|k: u64| list.contains(k) implies #[trigger] more.contains(k) by {
        let i = choose|i: int| 0 <= i < list.len() && list[i] == k;
        assert(more[i] == k);
    }
    assert(more.to_set() =~= list.to_set().insert(key));
}

/// After an upload every image the frame wants that can be uploaded is
/// resident, nothing that was resident was uploaded again, and nothing was
/// uploaded twice.
pub proof fn lemma_uploads_complete_the_frame(
    resident: Set<u64>,
    wanted: Seq<WantedImage>,
    n: nat,
)
    requires
        n <= wanted.len(),
    ensures
        forall|i: int|
            0 <= i < n && (#[trigger] wanted[i]).pixels ==> resident.contains(wanted[i].key)
                || missing(resident, wanted, n).contains(wanted[i].key),
        forall|k: u64| #[trigger]
            missing(resident, wanted, n).contains(k) ==> !resident.contains(k),
        missing(resident, wanted, n).no_duplicates(),
    decreases n,
{
    if n > 0 {
        let m = (n - 1) as nat;
        let before = missing(resident, wanted, m);
        let after = missing(resident, wanted, n);
        let key = wanted[n - 1].key;
        lemma_uploads_complete_the_frame(resident, wanted, m);
        assert forall|i: int| 0 <= i < n && (#[trigger] wanted[i]).pixels implies resident.contains(
            wanted[i].key,
        ) || after.contains(wanted[i].key) by {
            if after != before {
                assert(after[before.len() as int] == key);
                if i < m && before.contains(wanted[i].key) {
                    let j = choose|j: int| 0 <= j < before.len() && before[j] == wanted[i].key;
                    assert(after[j] == wanted[i].key);
                }
            }
        }
        assert forall|k: u64| #[trigger] after.contains(k) implies !resident.contains(k) by {
            let j = choose|j: int| 0 <= j < after.len() && after[j] == k;
            if j < before.len() {
                assert(before[j] == k);
                assert(before.contains(k));
            }
        }
        if after != before {
            assert forall|a: int, b: int| 0 <= a < after.len() && 0 <= b < after.len() && a
                != b implies after[a] != after[b] by {
                if a < before.len() {
                    assert(before[a] == after[a]);
                    assert(before.contains(before[a]));
                }
                if b < before.len() {
                    assert(before[b] == after[b]);
                    assert(before.contains(before[b]));
                }
            }
        }
    }
}

} // verus!
