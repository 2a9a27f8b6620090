//! The file names of a whole year of notebook PDFs, in the order they are built.
use vstd::prelude::*;
use crate::calendar::{month_name, name_of_month};
use crate::text::{decimal, pad2, push_decimal_i64, push_pad2, push_str, string_views};

verus! {

/// `"{y}.{mo:02} {month name}.pdf"`.
pub open spec fn month_file_name(year: int, month: int) -> Seq<char> {
    decimal(year) + "."@ + pad2(month as nat) + " "@ + month_name(month) + ".pdf"@
}

/// The year's notebooks: the Future Log, the twelve months, the Collection
/// Template and the Reference.
pub open spec fn year_file_names(year: int) -> Seq<Seq<char>> {
    seq![decimal(year) + " Future Log.pdf"@] + Seq::new(12, |i: int| month_file_name(year, i + 1))
        + seq![decimal(year) + " Collection Template.pdf"@, decimal(year) + " Reference.pdf"@]
}

/// `"{year}{suffix}"`.
fn year_name(year: i32, suffix: &str) -> (r: String)
    ensures
        r@ == decimal(year as int) + suffix@,
{
    let mut s = String::new();
    push_decimal_i64(&mut s, year as i64);
    push_str(&mut s, suffix);
    s
}

/// The file names of the year's notebook PDFs, in build order.
pub fn notebook_file_names(year: i32) -> (r: Vec<String>)
    ensures
        string_views(r@) == year_file_names(year as int),
{
    let mut names: Vec<String> = Vec::new();
    names.push(year_name(year, " Future Log.pdf"));
    let mut mo: u32 = 1;
    while mo <= 12
        invariant
            1 <= mo <= 13,
            string_views(names@) == seq![decimal(year as int) + " Future Log.pdf"@] + Seq::new(
                (mo - 1) as nat,
                |i: int| month_file_name(year as int, i + 1),
            ),
        decreases 13 - mo,
    {
        let mut s = String::new();
        push_decimal_i64(&mut s, year as i64);
        push_str(&mut s, ".");
        push_pad2(&mut s, mo);
        push_str(&mut s, " ");
        push_str(&mut s, name_of_month(mo));
        push_str(&mut s, ".pdf");
        let ghost prev = string_views(names@);
        names.push(s);
        assert(string_views(names@) =~= prev.push(s@));
        assert(Seq::new(mo as nat, |i: int| month_file_name(year as int, i + 1)) =~= Seq::new(
            (mo - 1) as nat,
            |i: int| month_file_name(year as int, i + 1),
        ).push(month_file_name(year as int, mo as int)));
        mo = mo + 1;
    }
    let ghost mid = string_views(names@);
    names.push(year_name(year, " Collection Template.pdf"));
    names.push(year_name(year, " Reference.pdf"));
    assert(string_views(names@) =~= year_file_names(year as int));
    names
}

} // verus!
