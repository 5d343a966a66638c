//! The storage schema: the embedded database's TOML configuration (the
//! configuration is the schema), and the error and statistics types of the
//! storage layer.

use vstd::prelude::*;
use crate::text::{decimal, push_decimal, push_str};

verus! {

/// A storage-layer error, with the database's message.
#[derive(Debug)]
pub struct StoreError(pub String);

impl StoreError {
    /// Human-readable description of the error.
    pub fn to_string(&self) -> (r: String)
        ensures
            r@ == "store: "@ + self.0@,
    {
        let mut out = String::new();
        push_str(&mut out, "store: ");
        push_str(&mut out, self.0.as_str());
        out
    }
}

/// Training statistics of one algorithm.
#[derive(Clone, Debug, Default, PartialEq)]
pub struct AlgStats {
    pub attempts: u64,
    pub successes: u64,
    pub best_ms: Option<i64>,
    /// Mean of the last (up to) 5 successful times.
    pub avg5_ms: Option<i64>,
}

/// Configuration text before the database path.
pub const CONFIG_HEAD: &'static str = "\n[database]\npath = \"";
/// Configuration text between the path and the size.
pub const CONFIG_AFTER_PATH: &'static str = "\"\nsize_mb = ";
/// Configuration text between the size and the durability mode.
pub const CONFIG_AFTER_SIZE: &'static str = "\nmax_readers = 4\ndurability = \"";
/// Configuration text after the durability mode: the tables.
pub const CONFIG_TABLES: &'static str = "\"\n\n[runtime]\nmax_query_threads = 1\n\n[[table]]\nname = \"meta\"\nprimary_key = [\"k\"]\n\n  [[table.column]]\n  name = \"k\"\n  type = \"text\"\n\n  [[table.column]]\n  name = \"v\"\n  type = \"int64\"\n  nullable = false\n\n[[table]]\nname = \"settings\"\nprimary_key = [\"key\"]\n\n  [[table.column]]\n  name = \"key\"\n  type = \"text\"\n\n  [[table.column]]\n  name = \"value\"\n  type = \"text\"\n  nullable = false\n\n[[table]]\nname = \"algorithms\"\nprimary_key = [\"id\"]\n\n  [[table.column]]\n  name = \"id\"\n  type = \"text\"\n\n  [[table.column]]\n  name = \"trained\"\n  type = \"bool\"\n  nullable = false\n\n[[table]]\nname = \"training_results\"\nprimary_key = [\"id\"]\n\n  [[table.column]]\n  name = \"id\"\n  type = \"int64\"\n\n  [[table.column]]\n  name = \"alg_id\"\n  type = \"text\"\n  nullable = false\n\n  [[table.column]]\n  name = \"ts_ms\"\n  type = \"int64\"\n  nullable = false\n\n  [[table.column]]\n  name = \"duration_ms\"\n  type = \"int64\"\n  nullable = false\n  check = \"duration_ms > 0\"\n\n  [[table.column]]\n  name = \"success\"\n  type = \"bool\"\n  nullable = false\n\n  [[table.index]]\n  columns = [\"alg_id\", \"ts_ms\"]\n\n  [[table.index]]\n  columns = [\"alg_id\", \"success\", \"duration_ms\"]\n\n[[table]]\nname = \"solutions\"\nprimary_key = [\"state\"]\n\n  [[table.column]]\n  name = \"state\"\n  type = \"text\"\n\n  [[table.column]]\n  name = \"solution\"\n  type = \"text\"\n  nullable = false\n\n  [[table.column]]\n  name = \"move_count\"\n  type = \"int64\"\n  nullable = false\n\n  [[table.column]]\n  name = \"solve_ms\"\n  type = \"int64\"\n  nullable = false\n\n  [[table.column]]\n  name = \"hits\"\n  type = \"int64\"\n  nullable = false\n";

/// The database configuration (and schema) for a file path, a durability
/// mode and a size in megabytes.
pub fn config_toml(path: &str, durability: &str, size_mb: u32) -> (r: String)
    ensures
        r@ == CONFIG_HEAD@ + path@ + CONFIG_AFTER_PATH@ + decimal(size_mb as nat) + CONFIG_AFTER_SIZE@
            + durability@ + CONFIG_TABLES@,
{
    let mut out = String::new();
    push_str(&mut out, CONFIG_HEAD);
    push_str(&mut out, path);
    push_str(&mut out, CONFIG_AFTER_PATH);
    push_decimal(&mut out, size_mb as u64);
    push_str(&mut out, CONFIG_AFTER_SIZE);
    push_str(&mut out, durability);
    push_str(&mut out, CONFIG_TABLES);
    out
}

} // verus!
