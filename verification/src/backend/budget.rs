//! The draw budget of a scene for the compute rasteriser.

use vstd::prelude::*;

use super::error::BackendError;

verus! {

/// Largest number of draw-info words that can be rasterised in one pass.
///
/// The rasteriser stores the scene's draw-info stream at the front of a
/// buffer of fixed size; a scene whose stream is longer cannot be configured
/// at all. A solid fill or stroke costs one word; gradient and image brushes
/// cost more per draw.
pub const MAX_DRAW_INFO_WORDS: u32 = 262_144;

/// `vello::Scene`: a list of drawing commands, carried as it is.
#[verifier::external_type_specification]
#[verifier::external_body]
pub struct ExScene(vello::Scene);

/// The draw-info words of each draw of a scene, in order.
pub uninterp spec fn draw_words(scene: vello::Scene) -> Seq<u32>;

/// `vello::Scene::new`: a scene that draws nothing.
pub assume_specification[ vello::Scene::new ]() -> (scene: vello::Scene)
    ensures
        draw_words(scene) == Seq::<u32>::empty(),
;

/// `vello::Scene::reset`: afterwards the scene draws nothing.
pub assume_specification[ vello::Scene::reset ](scene: &mut vello::Scene)
    ensures
        draw_words(*final(scene)) == Seq::<u32>::empty(),
;

/// `DrawTag::info_size` of each draw tag in the encoding of a scene, through
/// `vello::Scene::encoding`: four bits of the tag, so at most fifteen.
#[verifier::external_body]
fn info_sizes(scene: &vello::Scene) -> (sizes: Vec<u32>)
    ensures
        sizes@ == draw_words(*scene),
        forall|i: int| 0 <= i < sizes@.len() ==> #[trigger] sizes@[i] <= 15,
{
    scene.encoding().draw_tags.iter().map(|tag| tag.info_size()).collect()
}

/// The sum of the first `n` words.
pub open spec fn word_sum(words: Seq<u32>, n: nat) -> nat
    decreases n,
{
    if n == 0 {
        0
    } else {
        word_sum(words, (n - 1) as nat) + words[n - 1] as nat
    }
}

/// The draw-info words a scene occupies.
pub open spec fn words_used(scene: vello::Scene) -> nat {
    word_sum(draw_words(scene), draw_words(scene).len())
}

fn count_words(scene: &vello::Scene) -> (n: u128)
    ensures
        n == words_used(*scene),
{
    let sizes = info_sizes(scene);
    let mut n: u128 = 0;
    let mut i: usize = 0;
    while i < sizes.len()
        invariant
            i <= sizes@.len(),
            forall|j: int| 0 <= j < sizes@.len() ==> #[trigger] sizes@[j] <= 15,
            n == word_sum(sizes@, i as nat),
            n <= i * 15,
        decreases sizes@.len() - i,
    {
        n = n + sizes[i] as u128;
        i = i + 1;
    }
    n
}

/// Whether a scene of so many words is drawn, or why it is rejected.
pub open spec fn budget_outcome(used: nat) -> Result<(), BackendError> {
    if used > MAX_DRAW_INFO_WORDS {
        Err(BackendError::SceneTooLarge { used: used as u32, max: MAX_DRAW_INFO_WORDS })
    } else {
        Ok(())
    }
}

/// Reject a scene that cannot be configured, before any GPU work is queued.
pub fn check_draw_budget(scene: &vello::Scene) -> (r: Result<(), BackendError>)
    requires
        words_used(*scene) <= u32::MAX,
    ensures
        r == budget_outcome(words_used(*scene)),
{
    let used = count_words(scene);
    if used > MAX_DRAW_INFO_WORDS as u128 {
        return Err(
            BackendError::SceneTooLarge { used: used as u32, max: MAX_DRAW_INFO_WORDS },
        );
    }
    Ok(())
}

/// A scene builder for the compute rasteriser.
pub struct VelloScene {
    inner: vello::Scene,
}

impl VelloScene {
    /// The scene being built.
    pub closed spec fn scene(&self) -> vello::Scene {
        self.inner
    }

    /// Build an empty scene.
    pub fn new() -> (r: VelloScene)
        ensures
            draw_words(r.scene()) == Seq::<u32>::empty(),
    {
        VelloScene { inner: vello::Scene::new() }
    }

    /// Borrow the underlying scene, to render it.
    pub fn raw(&self) -> (r: &vello::Scene)
        ensures
            *r == self.scene(),
    {
        &self.inner
    }

    /// Borrow the underlying scene, to draw into it.
    pub fn raw_mut(&mut self) -> (r: &mut vello::Scene)
        ensures
            *r == old(self).scene(),
            final(self).scene() == *final(r),
    {
        &mut self.inner
    }

    /// Draw-info words the encoded scene occupies, to be compared against
    /// [`MAX_DRAW_INFO_WORDS`].
    pub fn draw_info_words(&self) -> (n: u32)
        requires
            words_used(self.scene()) <= u32::MAX,
        ensures
            n == words_used(self.scene()),
    {
        count_words(&self.inner) as u32
    }

    /// True when the scene fits the draw budget, so a render will not be
    /// rejected.
    pub fn fits_draw_budget(&self) -> (r: bool)
        ensures
            r == (words_used(self.scene()) <= MAX_DRAW_INFO_WORDS),
    {
        count_words(&self.inner) <= MAX_DRAW_INFO_WORDS as u128
    }

    /// Why the scene would be rejected, if it would be; `None` for a scene so
    /// large that its words cannot even be counted in the report.
    pub fn budget(&self) -> (r: Option<Result<(), BackendError>>)
        ensures
            match r {
                Some(v) => words_used(self.scene()) <= u32::MAX && v == budget_outcome(
                    words_used(self.scene()),
                ),
                None => words_used(self.scene()) > u32::MAX,
            },
    {
        if count_words(&self.inner) <= u32::MAX as u128 {
            Some(check_draw_budget(&self.inner))
        } else {
            None
        }
    }

    /// Discard everything that was drawn.
    pub fn clear(&mut self)
        ensures
            draw_words(final(self).scene()) == Seq::<u32>::empty(),
    {
        self.inner.reset();
    }
}

impl Default for VelloScene {
    fn default() -> (r: VelloScene)
        ensures
            draw_words(r.scene()) == Seq::<u32>::empty(),
    {
        VelloScene::new()
    }
}

/// An empty scene, or one that was cleared, spends no draw budget.
pub proof fn lemma_empty_scene_spends_nothing(scene: vello::Scene)
    requires
        draw_words(scene) == Seq::<u32>::empty(),
    ensures
        words_used(scene) == 0,
{
}

/// The words of a scene are those of its draws: drawing more spends what the
/// further draws cost, and never less than before.
pub proof fn lemma_draws_add_up(before: Seq<u32>, more: Seq<u32>)
    ensures
        word_sum(before + more, (before + more).len()) == word_sum(before, before.len())
            + word_sum(more, more.len()),
    decreases more.len(),
{
    let all = before + more;
    if more.len() == 0 {
        assert(all =~= before);
    } else {
        let rest = more.drop_last();
        lemma_draws_add_up(before, rest);
        assert(all.drop_last() =~= before + rest);
        lemma_prefix_sum(before + rest, all, (before + rest).len());
        lemma_prefix_sum(rest, more, rest.len());
    }
}

proof fn lemma_prefix_sum(a: Seq<u32>, b: Seq<u32>, n: nat)
    requires
        n <= a.len() <= b.len(),
        forall|i: int| 0 <= i < a.len() ==> a[i] == b[i],
    ensures
        word_sum(a, n) == word_sum(b, n),
    decreases n,
{
    if n > 0 {
        lemma_prefix_sum(a, b, (n - 1) as nat);
    }
}

} // verus!
