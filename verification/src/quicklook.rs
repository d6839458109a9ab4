//! A document in, one PDF page out: what the page is, before it is drawn.

use vstd::prelude::*;

use crate::color::Color;
use crate::fixed::Fixed;
use crate::thumbnailer::sizing::{
    background_for, natural_size, natural_size_of, picture_background, DocumentFacts,
};

verus! {

/// The page a preview is drawn on.
#[derive(Debug, Clone, Copy, PartialEq, Eq, Structural)]
pub struct Page {
    /// Page width in points, which is also that of the file's media box.
    pub width_pt: Fixed,
    /// Page height in points.
    pub height_pt: Fixed,
    /// The color of the paper. Always opaque: a preview on a transparent
    /// page reads as a broken one.
    pub background: Color,
}

/// The page a document is previewed on, or `None` for what is not a
/// document: there is nothing useful to do with a message.
pub fn render(read: Option<DocumentFacts>) -> (r: Option<Page>)
    ensures
        match read {
            None => r is None,
            Some(facts) => r == Some(
                Page {
                    width_pt: natural_size_of(facts.size).0,
                    height_pt: natural_size_of(facts.size).1,
                    background: picture_background(facts),
                },
            ),
        },
{
    match read {
        None => None,
        Some(facts) => {
            let (width_pt, height_pt) = natural_size(facts.size);
            Some(Page { width_pt, height_pt, background: background_for(&facts) })
        },
    }
}

} // verus!
