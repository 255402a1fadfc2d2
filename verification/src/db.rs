//! Configuration of database drivers. Connecting and fetching a schema are
//! the schema provider's work, outside this library; the core only consumes
//! the resulting [`crate::schema::Schema`].

use vstd::prelude::*;

verus! {

/// Configuration options for SQL drivers.
#[derive(Debug, Clone, PartialEq)]
pub enum DriverConfig {
    Odbc {
        /// Connection string for the ODBC driver.
        connection_string: String,
    },
}

} // verus!
