//! The Future Log notebook.
use vstd::prelude::*;
use crate::calendar::{month_name, name_of_month};
use crate::templates::{cover_spec, future_log_block, future_log_blocks, Cover, FutureLog};

verus! {

/// The Future Log page for months `first`, `first + 1` and `first + 2`.
pub open spec fn future_log_page(first: int) -> Seq<char> {
    "#plain-page[\n"@ + future_log_blocks(
        seq![month_name(first), month_name(first + 1), month_name(first + 2)],
    ) + "]\n"@
}

/// The Future Log's pages: a "Future Log" cover, then the twelve months three
/// to a page (four pages).
pub fn future_log_fragments(year: i32) -> (r: Vec<String>)
    ensures
        r@.len() == 5,
        r@[0]@ == cover_spec(year as int, "Future Log"@, false),
        forall|k: int| 0 <= k < 4 ==> (#[trigger] r@[k + 1])@ == future_log_page(3 * k + 1),
{
    let mut fragments: Vec<String> = Vec::new();
    fragments.push(Cover { year, title: "Future Log", blank_title: false }.typst());
    let mut k: u32 = 0;
    while k < 4
        invariant
            k <= 4,
            fragments@.len() == 1 + k,
            fragments@[0]@ == cover_spec(year as int, "Future Log"@, false),
            forall|j: int| 0 <= j < k ==> (#[trigger] fragments@[j + 1])@ == future_log_page(3 * j + 1),
        decreases 4 - k,
    {
        let names: Vec<&str> = vec![
            name_of_month(3 * k + 1),
            name_of_month(3 * k + 2),
            name_of_month(3 * k + 3),
        ];
        let page = FutureLog { months: names.as_slice() }.typst();
        assert(crate::templates::str_views(names@) =~= seq![
            month_name(3 * k + 1),
            month_name(3 * k + 2),
            month_name(3 * k + 3),
        ]);
        fragments.push(page);
        k = k + 1;
    }
    fragments
}

/// The English month names, from January.
pub open spec fn english_months() -> Seq<Seq<char>> {
    seq![
        "January"@, "February"@, "March"@, "April"@, "May"@, "June"@,
        "July"@, "August"@, "September"@, "October"@, "November"@, "December"@,
    ]
}

/// The Future Log's pages hold the months in calendar order, three to a
/// page: page `k` (from 0) is the blocks of the `3k+1`-th, `3k+2`-th and
/// `3k+3`-th months of the year, in that order.
pub proof fn law_future_log_months_in_order(k: int)
    requires
        0 <= k < 4,
    ensures
        future_log_page(3 * k + 1) == "#plain-page[\n"@ + future_log_block(english_months()[3 * k])
            + future_log_block(english_months()[3 * k + 1]) + future_log_block(english_months()[3 * k + 2])
            + "]\n"@,
{
    let n0 = month_name(3 * k + 1);
    let n1 = month_name(3 * k + 2);
    let n2 = month_name(3 * k + 3);
    let one = seq![n0];
    let two = seq![n0, n1];
    let three = seq![n0, n1, n2];
    assert(one.drop_last() =~= Seq::<Seq<char>>::empty());
    assert(two.drop_last() =~= one);
    assert(three.drop_last() =~= two);
    assert(future_log_blocks(Seq::<Seq<char>>::empty()) == Seq::<char>::empty());
    assert(future_log_blocks(one) == future_log_block(n0)) by {
        assert(Seq::<char>::empty() + future_log_block(n0) =~= future_log_block(n0));
    }
    assert(future_log_blocks(two) == future_log_block(n0) + future_log_block(n1));
    assert(future_log_blocks(three) == future_log_block(n0) + future_log_block(n1) + future_log_block(n2));
    assert(month_name(3 * k + 1) == english_months()[3 * k]);
    assert(month_name(3 * k + 2) == english_months()[3 * k + 1]);
    assert(month_name(3 * k + 3) == english_months()[3 * k + 2]);
}

} // verus!
