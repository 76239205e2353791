//! Schema upkeep that needs no migration system: adding a column a table
//! gained after it was first created.
use vstd::prelude::*;
use crate::text::{push_str, string_from_chars};

verus! {

/// The statement that lists a table's columns.
pub fn table_info_sql(table: &str) -> (r: String)
    ensures
        r@ == "PRAGMA table_info("@ + table@ + ")"@,
{
    let mut out: Vec<char> = Vec::new();
    push_str(&mut out, "PRAGMA table_info(");
    push_str(&mut out, table);
    push_str(&mut out, ")");
    string_from_chars(&out)
}

/// The statement that adds a column.
pub fn add_column_sql(table: &str, column: &str, declaration: &str) -> (r: String)
    ensures
        r@ == "ALTER TABLE "@ + table@ + " ADD COLUMN "@ + column@ + " "@ + declaration@,
{
    let mut out: Vec<char> = Vec::new();
    push_str(&mut out, "ALTER TABLE ");
    push_str(&mut out, table);
    push_str(&mut out, " ADD COLUMN ");
    push_str(&mut out, column);
    push_str(&mut out, " ");
    push_str(&mut out, declaration);
    string_from_chars(&out)
}

/// Whether a column is missing from the ones a table has.
pub fn column_missing(existing: &Vec<String>, column: &str) -> (r: bool)
    ensures
        r == !(exists|k: int| 0 <= k < existing@.len() && (#[trigger] existing@[k])@ == column@),
{
    let mut k: usize = 0;
    while k < existing.len()
        invariant
            k <= existing@.len(),
            forall|j: int| 0 <= j < k ==> (#[trigger] existing@[j])@ != column@,
        decreases existing@.len() - k,
    {
        if crate::text::same_text(existing[k].as_str(), column) {
            return false;
        }
        k = k + 1;
    }
    true
}

} // verus!
