//! The plain records that flow through the library: connection profiles,
//! the engine kinds they name, and the descriptor records that schema
//! introspection returns.

use vstd::prelude::*;

verus! {

/// The database engines a profile can name. Only `SQLite3` has a working
/// connection; the other kinds are declared but fail at connection time.
#[derive(Clone, Copy, Debug, PartialEq, Eq, Structural)]
pub enum DatabaseType {
    SQLite3,
    MySQL,
    Oracle,
    DM,
}

/// The text under which an engine kind is persisted and displayed.
pub open spec fn engine_name(t: DatabaseType) -> Seq<char> {
    match t {
        DatabaseType::SQLite3 => "SQLite3"@,
        DatabaseType::MySQL => "MySQL"@,
        DatabaseType::Oracle => "Oracle"@,
        DatabaseType::DM => "DM"@,
    }
}

/// The engine kind named by a piece of text, if any.
pub open spec fn engine_of_name(s: Seq<char>) -> Option<DatabaseType> {
    if s == engine_name(DatabaseType::SQLite3) {
        Some(DatabaseType::SQLite3)
    } else if s == engine_name(DatabaseType::MySQL) {
        Some(DatabaseType::MySQL)
    } else if s == engine_name(DatabaseType::Oracle) {
        Some(DatabaseType::Oracle)
    } else if s == engine_name(DatabaseType::DM) {
        Some(DatabaseType::DM)
    } else {
        None
    }
}

/// The four engine names denote four distinct kinds: parsing the name of a
/// kind gives that kind back.
pub proof fn lemma_engine_name_round_trip(t: DatabaseType)
    ensures
        engine_of_name(engine_name(t)) == Some(t),
{
    reveal_strlit("SQLite3");
    reveal_strlit("MySQL");
    reveal_strlit("Oracle");
    reveal_strlit("DM");
    assert(engine_name(DatabaseType::SQLite3).len() == 7);
    assert(engine_name(DatabaseType::MySQL).len() == 5);
    assert(engine_name(DatabaseType::Oracle).len() == 6);
    assert(engine_name(DatabaseType::DM).len() == 2);
    match t {
        DatabaseType::SQLite3 => {
            assert(engine_of_name(engine_name(t)) == Some(t));
        },
        DatabaseType::MySQL => {
            assert(engine_of_name(engine_name(t)) == Some(t));
        },
        DatabaseType::Oracle => {
            assert(engine_of_name(engine_name(t)) == Some(t));
        },
        DatabaseType::DM => {
            assert(engine_of_name(engine_name(t)) == Some(t));
        },
    }
}

impl DatabaseType {
    /// Renders the engine kind as its persisted name.
    pub fn to_string(&self) -> (r: String)
        ensures
            r@ == engine_name(*self),
    {
        match self {
            DatabaseType::SQLite3 => String::from_str("SQLite3"),
            DatabaseType::MySQL => String::from_str("MySQL"),
            DatabaseType::Oracle => String::from_str("Oracle"),
            DatabaseType::DM => String::from_str("DM"),
        }
    }

    /// Parses a persisted engine name back into the kind it denotes.
    pub fn from_str(s: &str) -> (r: Result<DatabaseType, String>)
        ensures
            match engine_of_name(s@) {
                Some(t) => r == Ok::<DatabaseType, String>(t),
                None => r is Err,
            },
    {
        if crate::text::str_eq(s, "SQLite3") {
            Ok(DatabaseType::SQLite3)
        } else if crate::text::str_eq(s, "MySQL") {
            Ok(DatabaseType::MySQL)
        } else if crate::text::str_eq(s, "Oracle") {
            Ok(DatabaseType::Oracle)
        } else if crate::text::str_eq(s, "DM") {
            Ok(DatabaseType::DM)
        } else {
            Err(String::from_str("unknown database type: ").concat(s))
        }
    }
}

/// The ghost value of a connection profile: every field as a plain
/// mathematical value.
pub ghost struct ConfigView {
    pub id: Option<int>,
    pub name: Seq<char>,
    pub type_: DatabaseType,
    pub host: Seq<char>,
    pub username: Option<Seq<char>>,
    pub password: Option<Seq<char>>,
    pub create_time: Option<Seq<char>>,
    pub last_connect_time: Option<Seq<char>>,
}

/// A stored connection profile. `id` is `None` before first persistence and
/// `Some` thereafter; the timestamps are assigned by the store.
#[derive(Clone, Debug, PartialEq)]
pub struct DatabaseConfig {
    pub id: Option<i64>,
    pub name: String,
    pub type_: DatabaseType,
    pub host: String,
    pub username: Option<String>,
    pub password: Option<String>,
    pub create_time: Option<String>,
    pub last_connect_time: Option<String>,
}

pub open spec fn opt_string_view(s: Option<String>) -> Option<Seq<char>> {
    match s {
        Some(v) => Some(v@),
        None => None,
    }
}

impl View for DatabaseConfig {
    type V = ConfigView;

    open spec fn view(&self) -> ConfigView {
        ConfigView {
            id: match self.id {
                Some(i) => Some(i as int),
                None => None,
            },
            name: self.name@,
            type_: self.type_,
            host: self.host@,
            username: opt_string_view(self.username),
            password: opt_string_view(self.password),
            create_time: opt_string_view(self.create_time),
            last_connect_time: opt_string_view(self.last_connect_time),
        }
    }
}

/// The pass/fail report of a connectivity test.
#[derive(Debug)]
pub struct TestConnectionResult {
    pub success: bool,
    pub message: String,
}

/// A catalog visible through a connection. Encoding and collation are absent
/// for single-file engines, which have no per-catalog concept of either.
#[derive(Debug)]
pub struct DataBase {
    pub name: String,
    pub encoding: Option<String>,
    pub collation: Option<String>,
}

/// A table visible through a connection.
#[derive(Debug)]
pub struct Table {
    pub name: String,
    pub type_: String,
    pub engine: Option<String>,
    pub comment: Option<String>,
}

/// A column of a table: its normalized type, optional declared length, and
/// nullability and primary-key flags.
#[derive(Clone, Debug, PartialEq)]
pub struct ColumnInfo {
    pub name: String,
    pub type_: String,
    pub length: Option<i32>,
    pub nullable: bool,
    pub is_primary: bool,
    pub comment: Option<String>,
}

/// Arguments of a catalog-listing request.
#[derive(Debug)]
pub struct ListDatabaseSchemasArgs {
    pub config_id: i32,
}

/// Arguments of a table-listing request.
#[derive(Debug)]
pub struct ListDatabaseTablesArgs {
    pub config_id: i32,
    pub db_name: String,
}

/// Arguments of a column-listing request.
#[derive(Debug)]
pub struct GetTableColumnsArgs {
    pub config_id: i32,
    pub db_name: String,
    pub table_name: String,
}

} // verus!
