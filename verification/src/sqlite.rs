use vstd::prelude::*;

use crate::text::concat2;

verus! {

/// A table of the database, by name.
#[derive(Debug, PartialEq, Eq)]
pub struct Table {
    pub name: String,
}

/// The `LIKE` pattern that matches the names starting with `prefix`.
pub fn prefix_pattern(prefix: &str) -> (r: String)
    ensures
        r@ == prefix@ + "%"@,
{
    concat2(prefix, "%")
}

/// The statement that drops the table `table_name` if it exists.
pub fn drop_table_statement(table_name: &str) -> (r: String)
    ensures
        r@ == "DROP TABLE IF EXISTS "@ + table_name@,
{
    concat2("DROP TABLE IF EXISTS ", table_name)
}

/// The query that lists the tables whose names match a `LIKE` pattern.
pub const TABLES_BY_PATTERN_QUERY: &'static str =
    "SELECT name FROM sqlite_master WHERE type='table' AND name LIKE ?";

} // verus!
