//! Destination tables of the ingestion pipeline. Each type names the table
//! its rows go to; composing and executing the inserts happens outside this
//! library.

use vstd::prelude::*;

verus! {

/// Rows decoded from margin-account snapshots.
pub struct MangoAccountTable {}

impl MangoAccountTable {
    pub fn table_name(&self) -> (s: &'static str)
        ensures
            s@ == "mango_account_write"@,
    {
        "mango_account_write"
    }
}

/// Rows decoded from group-configuration snapshots.
pub struct MangoGroupTable {}

impl MangoGroupTable {
    pub fn table_name(&self) -> (s: &'static str)
        ensures
            s@ == "mango_group_write"@,
    {
        "mango_group_write"
    }
}

/// Rows decoded from price-cache snapshots.
pub struct MangoCacheTable {}

impl MangoCacheTable {
    pub fn table_name(&self) -> (s: &'static str)
        ensures
            s@ == "mango_cache_write"@,
    {
        "mango_cache_write"
    }
}

} // verus!
