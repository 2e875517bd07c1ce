//! Store selection by connection URL.

use vstd::prelude::*;
use crate::text::{has_prefix, starts_with};

verus! {

/// Whether a connection URL names a PostgreSQL server.
pub fn is_postgres(database_url: &str) -> (r: bool)
    ensures
        r == (has_prefix(database_url@, "postgres://"@) || has_prefix(
            database_url@,
            "postgresql://"@,
        )),
{
    starts_with(database_url, "postgres://") || starts_with(database_url, "postgresql://")
}

} // verus!
