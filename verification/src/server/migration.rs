//! Database migrations.
use vstd::prelude::*;

verus! {

/// An index that a migration adds.
#[derive(Clone, Copy, Debug)]
pub struct IndexMigration {
    /// The name of the migration.
    pub migration: &'static str,

    /// The name of the index.
    pub index: &'static str,
}

/// Adds an index on when caches were deleted.
pub fn add_cache_deleted_at_index() -> (r: IndexMigration)
    ensures
        r.migration@ == "m20260719_000001_add_cache_deleted_at_index"@,
        r.index@ == "idx-cache-deleted-at"@,
{
    IndexMigration {
        migration: "m20260719_000001_add_cache_deleted_at_index",
        index: "idx-cache-deleted-at",
    }
}

/// Adds an index on the store path hashes of objects.
pub fn add_object_store_path_hash_index() -> (r: IndexMigration)
    ensures
        r.migration@ == "m20260719_000002_add_object_store_path_hash_index"@,
        r.index@ == "idx-object-store-path-hash"@,
{
    IndexMigration {
        migration: "m20260719_000002_add_object_store_path_hash_index",
        index: "idx-object-store-path-hash",
    }
}

/// The names of the migrations that the migrator runs, in order.
pub fn migration_names() -> (r: Vec<&'static str>)
    ensures
        r@.len() == 15,
        r@[0]@ == "m20221227_000001_create_cache_table"@,
        r@[1]@ == "m20221227_000002_create_nar_table"@,
        r@[2]@ == "m20221227_000003_create_object_table"@,
        r@[3]@ == "m20221227_000004_add_object_last_accessed"@,
        r@[4]@ == "m20221227_000005_add_cache_retention_period"@,
        r@[5]@ == "m20230103_000001_add_object_created_by"@,
        r@[6]@ == "m20230112_000001_add_chunk_table"@,
        r@[7]@ == "m20230112_000002_add_chunkref_table"@,
        r@[8]@ == "m20230112_000003_add_nar_num_chunks"@,
        r@[9]@ == "m20230112_000004_migrate_nar_remote_files_to_chunks"@,
        r@[10]@ == "m20230112_000005_drop_old_nar_columns"@,
        r@[11]@ == "m20230112_000006_add_nar_completeness_hint"@,
        r@[12]@ == "m20260508_000001_add_chunk_state_holders_index"@,
        r@[13]@ == "m20260611_000001_add_nar_state_holders_index"@,
        r@[14]@ == "m20260624_000001_remove_chunk_recovery"@,
{
    let mut names: Vec<&'static str> = Vec::new();
    names.push("m20221227_000001_create_cache_table");
    names.push("m20221227_000002_create_nar_table");
    names.push("m20221227_000003_create_object_table");
    names.push("m20221227_000004_add_object_last_accessed");
    names.push("m20221227_000005_add_cache_retention_period");
    names.push("m20230103_000001_add_object_created_by");
    names.push("m20230112_000001_add_chunk_table");
    names.push("m20230112_000002_add_chunkref_table");
    names.push("m20230112_000003_add_nar_num_chunks");
    names.push("m20230112_000004_migrate_nar_remote_files_to_chunks");
    names.push("m20230112_000005_drop_old_nar_columns");
    names.push("m20230112_000006_add_nar_completeness_hint");
    names.push("m20260508_000001_add_chunk_state_holders_index");
    names.push("m20260611_000001_add_nar_state_holders_index");
    names.push("m20260624_000001_remove_chunk_recovery");
    names
}

} // verus!
