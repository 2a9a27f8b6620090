//! The collection-template notebook.
use vstd::prelude::*;
use crate::templates::{cover_spec, Cover, DotGrid};

verus! {

/// The collection notebook's pages: a blank-titled cover, then
/// `collection_pages` dot-grid pages.
pub fn collection_fragments(year: i32, collection_pages: u32) -> (r: Vec<String>)
    ensures
        r@.len() == 1 + collection_pages,
        r@[0]@ == cover_spec(year as int, ""@, true),
        forall|i: int| 1 <= i < r@.len() ==> (#[trigger] r@[i])@ == "#dot-page[]\n"@,
{
    let mut fragments: Vec<String> = Vec::new();
    fragments.push(Cover { year, title: "", blank_title: true }.typst());
    let mut k: u32 = 0;
    while k < collection_pages
        invariant
            k <= collection_pages,
            fragments@.len() == 1 + k,
            fragments@[0]@ == cover_spec(year as int, ""@, true),
            forall|i: int| 1 <= i < fragments@.len() ==> (#[trigger] fragments@[i])@ == "#dot-page[]\n"@,
        decreases collection_pages - k,
    {
        fragments.push(DotGrid.typst());
        k = k + 1;
    }
    fragments
}

} // verus!
