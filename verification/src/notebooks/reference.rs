//! The reference notebook.
use vstd::prelude::*;
use crate::templates::{cover_spec, reference_spec, Cover, Reference};

verus! {

/// The reference notebook's pages: a "Reference" cover, then the key and
/// how-to pages.
pub fn reference_fragments(year: i32) -> (r: Vec<String>)
    ensures
        r@.len() == 2,
        r@[0]@ == cover_spec(year as int, "Reference"@, false),
        r@[1]@ == reference_spec(),
{
    let mut fragments: Vec<String> = Vec::new();
    fragments.push(Cover { year, title: "Reference", blank_title: false }.typst());
    fragments.push(Reference.typst());
    fragments
}

} // verus!
