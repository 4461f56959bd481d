//! Reshaping of raw introspection results into the richer descriptor
//! records that external callers consume.

use vstd::prelude::*;

use crate::connection::is_internal_table_name;
use crate::error::AppError;
use crate::models::{engine_of_name, DataBase, DatabaseType, Table};
use crate::store::DatabaseManager;
use crate::text::{base_name_of, lex_le};

verus! {

/// Shapes table names into table descriptors, one per name in the given
/// order: each a plain `TABLE`, with engine label and comment absent, since
/// the implemented engine cannot supply them.
pub fn tables_from_names(names: Vec<String>) -> (r: Vec<Table>)
    ensures
        r@.len() == names@.len(),
        forall|k: int|
            0 <= k < names@.len() ==> {
                &&& (#[trigger] r@[k]).name@ == names@[k]@
                &&& r@[k].type_@ == "TABLE"@
                &&& r@[k].engine is None
                &&& r@[k].comment is None
            },
{
    let mut out: Vec<Table> = Vec::new();
    let mut i: usize = 0;
    while i < names.len()
        invariant
            i <= names@.len(),
            out@.len() == i,
            forall|k: int|
                0 <= k < i ==> {
                    &&& (#[trigger] out@[k]).name@ == names@[k]@
                    &&& out@[k].type_@ == "TABLE"@
                    &&& out@[k].engine is None
                    &&& out@[k].comment is None
                },
        decreases names@.len() - i,
    {
        out.push(
            Table {
                name: names[i].clone(),
                type_: String::from_str("TABLE"),
                engine: None,
                comment: None,
            },
        );
        i += 1;
    }
    out
}

/// Lists a profile's catalogs as descriptor records. Success is only
/// possible for a stored profile of the file-based engine, and yields one
/// record: the base name of the stored host path, with encoding and
/// collation absent, since the implemented engine cannot supply them.
pub fn list_database_schemas(manager: &DatabaseManager, config_id: i32) -> (r: Result<
    Vec<DataBase>,
    AppError,
>)
    ensures
        r matches Ok(v) ==> {
            &&& manager.rows().dom().contains(config_id as int)
            &&& v@.len() == 1
            &&& v@[0].name@ == base_name_of(manager.rows()[config_id as int].host)
            &&& forall|i: int|
                0 <= i < v@.len() ==> (#[trigger] v@[i]).encoding is None && v@[i].collation
                    is None
        },
{
    let names = match manager.list_databases(config_id as i64) {
        Ok(n) => n,
        Err(e) => {
            return Err(e);
        },
    };
    let mut out: Vec<DataBase> = Vec::new();
    let mut i: usize = 0;
    while i < names.len()
        invariant
            i <= names@.len(),
            out@.len() == i,
            forall|k: int|
                0 <= k < i ==> {
                    &&& (#[trigger] out@[k]).name@ == names@[k]@
                    &&& out@[k].encoding is None
                    &&& out@[k].collation is None
                },
        decreases names@.len() - i,
    {
        out.push(DataBase { name: names[i].clone(), encoding: None, collation: None });
        i += 1;
    }
    Ok(out)
}

/// Lists the user tables of a profile's catalog as descriptor records, in
/// ascending name order. Success is only possible for a stored profile of
/// the file-based engine; the names are the underlying listing's, shaped by
/// `tables_from_names`.
pub fn list_database_tables(manager: &DatabaseManager, config_id: i32, db_name: &str) -> (r:
    Result<Vec<Table>, AppError>)
    ensures
        r matches Ok(v) ==> {
            &&& manager.rows().dom().contains(config_id as int)
            &&& engine_of_name(manager.rows()[config_id as int].engine) == Some(
                DatabaseType::SQLite3,
            )
            &&& forall|i: int|
                0 <= i < v@.len() ==> ((#[trigger] v@[i]).type_@ == "TABLE"@ && v@[i].engine
                    is None && v@[i].comment is None && !is_internal_table_name(v@[i].name@))
            &&& forall|i: int, j: int| 0 <= i < j < v@.len() ==> lex_le(v@[i].name@, v@[j].name@)
        },
{
    let names = match manager.list_tables(config_id as i64, db_name) {
        Ok(n) => n,
        Err(e) => {
            return Err(e);
        },
    };
    Ok(tables_from_names(names))
}

} // verus!
