//! The description of the table a dataset was drawn from.

use vstd::prelude::*;

verus! {

/// Where a dataset comes from: the table's name, the query that produced it and,
/// when known, the names of its columns.
pub struct TableInfo {
    pub table_name: String,
    pub query_id: usize,
    pub column_names: Option<Vec<String>>,
}

} // verus!
