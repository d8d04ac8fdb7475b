//! The table layout of the `tabular` crate, as far as the text output needs
//! it. Everything in this file is taken on trust from that crate's source.

use vstd::prelude::*;

verus! {

/// A table of `tabular`, which is filled row by row and then written out.
#[verifier::external_type_specification]
#[verifier::external_body]
pub struct ExTable(tabular::Table);

/// What `tabular` makes of a row format: the number of columns that it lays
/// out, or `None` where it refuses the format.
pub uninterp spec fn row_format_columns(format: Seq<char>) -> Option<nat>;

/// The row format that a table was made with.
pub uninterp spec fn table_format(table: tabular::Table) -> Seq<char>;

/// The rows of a table, each as the texts of its cells.
pub uninterp spec fn table_rows(table: tabular::Table) -> Seq<Seq<Seq<char>>>;

/// The text that `tabular` writes for a table that was made with `format`
/// and holds `rows`.
pub uninterp spec fn table_text(format: Seq<char>, rows: Seq<Seq<Seq<char>>>) -> Seq<char>;

/// Calls `tabular::Table::new_safe`: an empty table for a row format that
/// `tabular` accepts, and nothing for one that it refuses.
#[verifier::external_body]
pub(crate) fn new_table(format: &str) -> (r: Option<tabular::Table>)
    ensures
        match r {
            Some(table) => {
                &&& row_format_columns(format@) is Some
                &&& table_format(table) == format@
                &&& table_rows(table) == Seq::<Seq<Seq<char>>>::empty()
            },
            None => row_format_columns(format@) is None,
        },
{
    tabular::Table::new_safe(format).ok()
}

/// Calls `tabular::Table::column_count`: the number of columns of the row
/// format that the table was made with.
#[verifier::external_body]
pub(crate) fn column_count(table: &tabular::Table) -> (r: usize)
    ensures
        row_format_columns(table_format(*table)) == Some(r as nat),
{
    table.column_count()
}

/// Calls `tabular::Table::add_row` with a row of two cells, which becomes the
/// last row of the table. `add_row` panics on a row whose number of cells is
/// not the table's number of columns, so the table must have two.
#[verifier::external_body]
pub(crate) fn add_row(table: &mut tabular::Table, first: &str, second: &str)
    requires
        row_format_columns(table_format(*old(table))) == Some(2nat),
    ensures
        table_format(*final(table)) == table_format(*old(table)),
        table_rows(*final(table)) == table_rows(*old(table)).push(seq![first@, second@]),
{
    table.add_row(tabular::Row::new().with_cell(first).with_cell(second));
}

/// Calls `to_string` on a `tabular::Table`, which writes the table as its
/// `Display` impl lays it out: a function of the row format and the rows.
#[verifier::external_body]
pub(crate) fn table_string(table: &tabular::Table) -> (r: String)
    ensures
        r@ == table_text(table_format(*table), table_rows(*table)),
{
    table.to_string()
}

} // verus!
