//! Engine connections: the capability interface, its file-based
//! implementation, the factory that picks an implementation from a profile,
//! and the parser for engine-native column type strings.

use vstd::prelude::*;

use crate::error::{AppError, ConnError};
use crate::models::{engine_name, ColumnInfo, DatabaseConfig, DatabaseType};
use crate::text::{base_name_of, str_eq, strings_sorted, views_of};

verus! {

/// The first position at or after `i` where `c` stands in `s`.
pub open spec fn first_index_from(s: Seq<char>, c: char, i: int) -> Option<int>
    decreases s.len() - i,
{
    if i < 0 || i >= s.len() {
        None
    } else if s[i] == c {
        Some(i)
    } else {
        first_index_from(s, c, i + 1)
    }
}

/// Whether `c` is a decimal digit.
pub open spec fn is_digit(c: char) -> bool {
    '0' <= c && c <= '9'
}

/// The value of a decimal digit.
pub open spec fn digit_val(c: char) -> int {
    c as u32 - '0' as u32
}

/// Whether every character of `s` is a decimal digit.
pub open spec fn all_digits(s: Seq<char>) -> bool {
    forall|i: int| 0 <= i < s.len() ==> is_digit(#[trigger] s[i])
}

/// The number denoted by a sequence of decimal digits.
pub open spec fn digits_val(s: Seq<char>) -> int
    decreases s.len(),
{
    if s.len() == 0 {
        0
    } else {
        digits_val(s.drop_last()) * 10 + digit_val(s.last())
    }
}

/// The number a piece of text denotes: an optional sign, then one or more
/// decimal digits, with the value in the range of the target type.
pub open spec fn parse_i32_of(s: Seq<char>) -> Option<i32> {
    let ds = if s.len() > 0 && (s[0] == '+' || s[0] == '-') {
        s.drop_first()
    } else {
        s
    };
    let neg = s.len() > 0 && s[0] == '-';
    if ds.len() > 0 && all_digits(ds) {
        let v = if neg {
            -digits_val(ds)
        } else {
            digits_val(ds)
        };
        if i32::MIN <= v <= i32::MAX {
            Some(v as i32)
        } else {
            None
        }
    } else {
        None
    }
}

/// The normalized form of an engine-native column type: when the text holds
/// `'('` followed later by `')'` and the characters between them denote a
/// number, the part before `'('` is the base type and that number is the
/// declared length; otherwise the whole text is the base type and there is no
/// length.
pub open spec fn parsed_type(s: Seq<char>) -> (Seq<char>, Option<i32>) {
    match first_index_from(s, '(', 0) {
        Some(p) => match first_index_from(s, ')', p + 1) {
            Some(q) => match parse_i32_of(s.subrange(p + 1, q)) {
                Some(v) => (s.subrange(0, p), Some(v)),
                None => (s, None),
            },
            None => (s, None),
        },
        None => (s, None),
    }
}

/// A sequence of digits denotes a number at least zero.
proof fn lemma_digits_val_nonneg(s: Seq<char>)
    requires
        all_digits(s),
    ensures
        digits_val(s) >= 0,
    decreases s.len(),
{
    if s.len() > 0 {
        assert(all_digits(s.drop_last()));
        lemma_digits_val_nonneg(s.drop_last());
    }
}

/// Extending a sequence of digits never shrinks the number it denotes.
proof fn lemma_digits_val_prefix(s: Seq<char>, k: int)
    requires
        all_digits(s),
        0 <= k <= s.len(),
    ensures
        digits_val(s.subrange(0, k)) <= digits_val(s),
    decreases s.len() - k,
{
    if k == s.len() {
        assert(s.subrange(0, k) =~= s);
    } else {
        let next = s.subrange(0, k + 1);
        assert(next.drop_last() =~= s.subrange(0, k));
        assert(all_digits(s.subrange(0, k)));
        lemma_digits_val_nonneg(s.subrange(0, k));
        lemma_digits_val_prefix(s, k + 1);
    }
}

/// The first position at or after `from` where `c` stands in `s`, as runnable
/// code.
fn find_char(s: &str, c: char, from: usize) -> (r: Option<usize>)
    requires
        from <= s@.len(),
    ensures
        match r {
            Some(i) => from <= i < s@.len() && first_index_from(s@, c, from as int) == Some(
                i as int,
            ),
            None => first_index_from(s@, c, from as int) is None,
        },
{
    let len = s.unicode_len();
    let mut i: usize = from;
    while i < len
        invariant
            from <= i <= len,
            len == s@.len(),
            first_index_from(s@, c, from as int) == first_index_from(s@, c, i as int),
        decreases len - i,
    {
        if s.get_char(i) == c {
            return Some(i);
        }
        i += 1;
    }
    None
}

/// Parses the characters of `s` between `from` and `to` as a number, as
/// runnable code.
fn parse_i32_chars(s: &str, from: usize, to: usize) -> (r: Option<i32>)
    requires
        from <= to <= s@.len(),
    ensures
        r == parse_i32_of(s@.subrange(from as int, to as int)),
{
    let ghost sub = s@.subrange(from as int, to as int);
    if from == to {
        return None;
    }
    let c0 = s.get_char(from);
    let neg = c0 == '-';
    let start: usize = if c0 == '-' || c0 == '+' {
        from + 1
    } else {
        from
    };
    let ghost ds = s@.subrange(start as int, to as int);
    proof {
        assert(sub[0] == s@[from as int]);
        if start > from {
            assert(ds =~= sub.drop_first());
        } else {
            assert(ds =~= sub);
        }
        assert(ds == (if sub.len() > 0 && (sub[0] == '+' || sub[0] == '-') {
            sub.drop_first()
        } else {
            sub
        }));
        assert(neg == (sub.len() > 0 && sub[0] == '-'));
    }
    if start == to {
        proof {
            assert(ds.len() == 0);
        }
        return None;
    }
    let mut i: usize = start;
    let mut acc: u64 = 0;
    proof {
        assert(s@.subrange(start as int, start as int) =~= Seq::<char>::empty());
    }
    while i < to
        invariant
            from <= start <= i <= to <= s@.len(),
            acc == digits_val(s@.subrange(start as int, i as int)),
            acc <= 0x8000_0000u64,
            all_digits(s@.subrange(start as int, i as int)),
            sub == s@.subrange(from as int, to as int),
            ds == s@.subrange(start as int, to as int),
            ds.len() > 0,
            parse_i32_of(sub) == (if ds.len() > 0 && all_digits(ds) {
                let v = if neg {
                    -digits_val(ds)
                } else {
                    digits_val(ds)
                };
                if i32::MIN <= v <= i32::MAX {
                    Some(v as i32)
                } else {
                    None
                }
            } else {
                None
            }),
        decreases to - i,
    {
        let c = s.get_char(i);
        if c < '0' || '9' < c {
            proof {
                assert(ds[i - start] == s@[i as int]);
                assert(!is_digit(ds[i - start]));
                assert(!all_digits(ds));
            }
            return None;
        }
        let d: u64 = (c as u32 - 48) as u64;
        let ghost prev = s@.subrange(start as int, i as int);
        acc = acc * 10 + d;
        proof {
            let cur = s@.subrange(start as int, i + 1);
            assert(cur.drop_last() =~= prev);
            assert(cur.last() == s@[i as int]);
            assert(d == digit_val(s@[i as int]));
            assert(acc == digits_val(cur));
        }
        if acc > 0x8000_0000u64 {
            proof {
                if all_digits(ds) {
                    let cur = s@.subrange(start as int, i + 1);
                    assert(ds.subrange(0, i + 1 - start) =~= cur);
                    lemma_digits_val_prefix(ds, i + 1 - start);
                    assert(digits_val(ds) >= acc);
                }
            }
            return None;
        }
        i += 1;
    }
    proof {
        assert(s@.subrange(start as int, i as int) =~= ds);
        assert(acc == digits_val(ds));
        assert(all_digits(ds));
    }
    if neg {
        let v: i64 = -(acc as i64);
        proof {
            assert(i32::MIN <= -digits_val(ds) <= i32::MAX);
            assert(v as i32 == (-digits_val(ds)) as i32);
        }
        Some(v as i32)
    } else {
        if acc > 0x7fff_ffffu64 {
            proof {
                assert(digits_val(ds) > i32::MAX);
            }
            return None;
        }
        proof {
            assert(i32::MIN <= digits_val(ds) <= i32::MAX);
        }
        Some(acc as i32)
    }
}

/// Parses an engine-native column type string into a normalized
/// (base type, optional length) pair: `VARCHAR(255)` becomes `VARCHAR` with
/// length 255, and text without a parseable parenthesized length is itself
/// the base type, with no length.
pub fn parse_sqlite_type(type_str: &str) -> (r: (&str, Option<i32>))
    ensures
        r.0@ == parsed_type(type_str@).0,
        r.1 == parsed_type(type_str@).1,
{
    // Bounds the found positions: they are below the character count, which
    // itself fits in usize.
    let _len: usize = type_str.unicode_len();
    match find_char(type_str, '(', 0) {
        None => (type_str, None),
        Some(p) => match find_char(type_str, ')', p + 1) {
            None => (type_str, None),
            Some(q) => match parse_i32_chars(type_str, p + 1, q) {
                None => (type_str, None),
                Some(v) => (type_str.substring_char(0, p), Some(v)),
            },
        },
    }
}

/// Whether a table name belongs to the file-based engine itself rather than
/// to the user.
pub open spec fn is_internal_table_name(s: Seq<char>) -> bool {
    s.len() >= 7 && s.subrange(0, 7) == "sqlite_"@
}

/// Whether a table name belongs to the engine itself, as runnable code.
pub fn is_internal_name(s: &str) -> (r: bool)
    ensures
        r == is_internal_table_name(s@),
{
    let len = s.unicode_len();
    if len < 7 {
        return false;
    }
    let head = s.substring_char(0, 7);
    str_eq(head, "sqlite_")
}

/// The user table names among `vs`: those that do not belong to the engine
/// itself, in their given order.
pub open spec fn user_table_names(vs: Seq<Seq<char>>) -> Seq<Seq<char>> {
    vs.filter(|s: Seq<char>| !is_internal_table_name(s))
}

/// Appending a name extends the user table names with it exactly when it is
/// not the engine's own.
proof fn lemma_user_table_names_push(vs: Seq<Seq<char>>, x: Seq<char>)
    ensures
        user_table_names(vs.push(x)) == if !is_internal_table_name(x) {
            user_table_names(vs).push(x)
        } else {
            user_table_names(vs)
        },
{
    reveal(Seq::filter);
    assert(vs.push(x).drop_last() =~= vs);
    assert(vs.push(x).last() == x);
}

/// Drops the engine's own table names and sorts the rest into ascending
/// lexicographic order; the result holds exactly the user table names given.
pub fn normalize_table_names(names: Vec<String>) -> (r: Vec<String>)
    ensures
        strings_sorted(r@),
        forall|i: int| 0 <= i < r@.len() ==> !is_internal_table_name(r@[i]@),
        views_of(r@).to_multiset() == user_table_names(views_of(names@)).to_multiset(),
{
    let mut kept: Vec<String> = Vec::new();
    let mut i: usize = 0;
    proof {
        reveal(Seq::filter);
        assert(views_of(kept@) =~= user_table_names(views_of(names@.subrange(0, 0))));
    }
    while i < names.len()
        invariant
            i <= names@.len(),
            views_of(kept@) =~= user_table_names(views_of(names@.subrange(0, i as int))),
            forall|k: int| 0 <= k < kept@.len() ==> !is_internal_table_name(kept@[k]@),
        decreases names@.len() - i,
    {
        let ghost prev = views_of(names@.subrange(0, i as int));
        let ghost prev_kept = kept@;
        let keep = !is_internal_name(&names[i]);
        if keep {
            kept.push(names[i].clone());
        }
        proof {
            let x = names@[i as int]@;
            lemma_user_table_names_push(prev, x);
            assert(views_of(names@.subrange(0, i + 1)) =~= prev.push(x));
            if keep {
                assert(views_of(kept@) =~= views_of(prev_kept).push(x));
            }
        }
        i += 1;
    }
    proof {
        assert(names@.subrange(0, names@.len() as int) =~= names@);
    }
    let ghost kept_views = views_of(kept@);
    let ghost kept_strings = kept@;
    let r = crate::text::sort_strings(kept);
    proof {
        broadcast use vstd::seq_lib::group_to_multiset_ensures;

        assert forall|k: int| 0 <= k < r@.len() implies !is_internal_table_name(r@[k]@) by {
            assert(views_of(r@)[k] == r@[k]@);
            assert(views_of(r@).contains(r@[k]@));
            assert(views_of(r@).to_multiset().contains(r@[k]@));
            assert(kept_views.to_multiset().contains(r@[k]@));
            assert(kept_views.contains(r@[k]@));
            let j = choose|j: int| 0 <= j < kept_views.len() && kept_views[j] == r@[k]@;
            assert(!is_internal_table_name(kept_strings[j]@));
        }
    }
    r
}

#[verifier::external_type_specification]
#[verifier::external_body]
pub struct ExConnection(rusqlite::Connection);

/// Relies on `std::path::Path::exists`: whether the path is reachable on
/// disk right now. Nothing can be promised of the answer.
#[verifier::external_body]
fn path_exists(path: &str) -> bool {
    std::path::Path::new(path).exists()
}

/// Relies on `rusqlite::Connection::open`: opens the file as a database,
/// creating it when absent; the error text explains a failure.
#[verifier::external_body]
pub(crate) fn open_database(path: &str) -> Result<rusqlite::Connection, String> {
    rusqlite::Connection::open(path).map_err(|e| e.to_string())
}

/// Relies on `rusqlite::Connection::execute_batch`: runs a minimal probe
/// statement against the opened database.
#[verifier::external_body]
fn probe_database(conn: &rusqlite::Connection) -> Result<(), String> {
    conn.execute_batch("SELECT 1").map_err(|e| e.to_string())
}

/// Relies on `rusqlite::Connection::prepare` and `Statement::query_map`:
/// reads every table name recorded in the engine's catalog, in an order the
/// engine chooses.
#[verifier::external_body]
fn query_table_names(conn: &rusqlite::Connection) -> Result<Vec<String>, String> {
    let run = || -> rusqlite::Result<Vec<String>> {
        let mut stmt = conn.prepare("SELECT name FROM sqlite_master WHERE type = 'table'")?;
        let rows = stmt.query_map([], |row| row.get(0))?;
        rows.collect()
    };
    run().map_err(|e| e.to_string())
}

/// Relies on `rusqlite::Connection::prepare` and `Statement::query_map` over
/// `pragma_table_info`: reads each column's name, declared type, not-null
/// flag and primary-key indicator, in declaration order as the engine
/// documents for that pragma.
#[verifier::external_body]
fn query_columns_raw(conn: &rusqlite::Connection, table: &str) -> Result<
    Vec<(String, String, i64, i64)>,
    String,
> {
    let run = || -> rusqlite::Result<Vec<(String, String, i64, i64)>> {
        let mut stmt = conn.prepare(
            "SELECT name, type, [notnull], pk FROM pragma_table_info(?)",
        )?;
        let rows = stmt.query_map([table], |row| {
            Ok((row.get(0)?, row.get(1)?, row.get(2)?, row.get(3)?))
        })?;
        rows.collect()
    };
    run().map_err(|e| e.to_string())
}

/// Shapes raw column rows (name, declared type, not-null flag, primary-key
/// indicator) into column descriptors, in the given order: the type is
/// normalized, a column is nullable unless its not-null flag is one, and it
/// is primary exactly when its indicator is nonzero.
pub fn columns_from_raw(rows: Vec<(String, String, i64, i64)>) -> (r: Vec<ColumnInfo>)
    ensures
        r@.len() == rows@.len(),
        forall|i: int|
            0 <= i < rows@.len() ==> {
                &&& (#[trigger] r@[i]).name@ == rows@[i].0@
                &&& r@[i].type_@ == parsed_type(rows@[i].1@).0
                &&& r@[i].length == parsed_type(rows@[i].1@).1
                &&& r@[i].nullable == (rows@[i].2 != 1)
                &&& r@[i].is_primary == (rows@[i].3 != 0)
                &&& r@[i].comment is None
            },
{
    let mut out: Vec<ColumnInfo> = Vec::new();
    let mut i: usize = 0;
    while i < rows.len()
        invariant
            i <= rows@.len(),
            out@.len() == i,
            forall|k: int|
                0 <= k < i ==> {
                    &&& (#[trigger] out@[k]).name@ == rows@[k].0@
                    &&& out@[k].type_@ == parsed_type(rows@[k].1@).0
                    &&& out@[k].length == parsed_type(rows@[k].1@).1
                    &&& out@[k].nullable == (rows@[k].2 != 1)
                    &&& out@[k].is_primary == (rows@[k].3 != 0)
                    &&& out@[k].comment is None
                },
        decreases rows@.len() - i,
    {
        let (base, length) = parse_sqlite_type(rows[i].1.as_str());
        let col = ColumnInfo {
            name: rows[i].0.clone(),
            type_: String::from_str(base),
            length,
            nullable: rows[i].2 != 1,
            is_primary: rows[i].3 != 0,
            comment: None,
        };
        out.push(col);
        i += 1;
    }
    out
}

/// The capability interface of an engine connection: a connectivity test and
/// read-only schema introspection. Table listings hold user tables only, in
/// ascending lexicographic order.
pub trait DatabaseConnection {
    fn test_connection(&self) -> (r: Result<(), AppError>);

    fn list_databases(&self) -> (r: Result<Vec<String>, AppError>);

    fn list_tables(&self, database: &str) -> (r: Result<Vec<String>, AppError>)
        ensures
            r matches Ok(v) ==> strings_sorted(v@) && (forall|i: int|
                0 <= i < v@.len() ==> !is_internal_table_name(#[trigger] v@[i]@)),
    ;

    fn get_table_columns(&self, table_name: &str) -> (r: Result<Vec<ColumnInfo>, AppError>);
}

/// A connection to a single-file embedded database, held as the path of the
/// file.
pub struct SQLite3Connection {
    path: String,
}

impl View for SQLite3Connection {
    type V = Seq<char>;

    closed spec fn view(&self) -> Seq<char> {
        self.path@
    }
}

impl SQLite3Connection {
    /// A connection handle for the database file at `path`. Nothing is
    /// opened until a call needs it.
    pub fn new(path: String) -> (r: Self)
        ensures
            r@ == path@,
    {
        SQLite3Connection { path }
    }

    /// Verifies reachability: the file must exist, open as a database, and
    /// answer a trivial probe. Any failure is a connection error, never an
    /// unimplemented-engine error.
    pub fn check_connection(&self) -> (r: Result<(), AppError>)
        ensures
            r matches Err(e) ==> e matches AppError::Connection(ce) && !(ce matches
                ConnError::NotImplemented(_)),
    {
        if !path_exists(self.path.as_str()) {
            return Err(
                AppError::Connection(
                    ConnError::NotFound(
                        String::from_str("no database file at ").concat(self.path.as_str()),
                    ),
                ),
            );
        }
        match open_database(self.path.as_str()) {
            Err(msg) => Err(AppError::Connection(ConnError::OpenFailed(msg))),
            Ok(conn) => match probe_database(&conn) {
                Ok(_) => Ok(()),
                Err(msg) => Err(AppError::Connection(ConnError::QueryFailed(msg))),
            },
        }
    }

    /// The one catalog of a single-file engine: the file's base name. Fails
    /// exactly when the path has no base name.
    pub fn catalog_names(&self) -> (r: Result<Vec<String>, AppError>)
        ensures
            match r {
                Ok(v) => v@.len() == 1 && v@[0]@ == base_name_of(self@) && base_name_of(
                    self@,
                ).len() > 0,
                Err(_) => base_name_of(self@).len() == 0,
            },
    {
        match crate::text::base_name(self.path.as_str()) {
            Some(name) => {
                let mut v: Vec<String> = Vec::new();
                v.push(name);
                Ok(v)
            },
            None => Err(
                AppError::Connection(
                    ConnError::OpenFailed(
                        String::from_str("invalid database path: ").concat(self.path.as_str()),
                    ),
                ),
            ),
        }
    }

    /// The user tables of the file, sorted ascending, with the engine's own
    /// tables left out.
    pub fn user_tables(&self) -> (r: Result<Vec<String>, AppError>)
        ensures
            r matches Ok(v) ==> strings_sorted(v@) && (forall|i: int|
                0 <= i < v@.len() ==> !is_internal_table_name(#[trigger] v@[i]@)),
    {
        let conn = match open_database(self.path.as_str()) {
            Err(msg) => {
                return Err(AppError::Connection(ConnError::OpenFailed(msg)));
            },
            Ok(c) => c,
        };
        match query_table_names(&conn) {
            Err(msg) => Err(AppError::Connection(ConnError::QueryFailed(msg))),
            Ok(raw) => Ok(normalize_table_names(raw)),
        }
    }

    /// The columns of a table, in declaration order, shaped as descriptors.
    pub fn columns_of(&self, table_name: &str) -> (r: Result<Vec<ColumnInfo>, AppError>)
        ensures
            r matches Ok(cols) ==> forall|i: int|
                0 <= i < cols@.len() ==> (#[trigger] cols@[i]).comment is None,
    {
        let conn = match open_database(self.path.as_str()) {
            Err(msg) => {
                return Err(AppError::Connection(ConnError::OpenFailed(msg)));
            },
            Ok(c) => c,
        };
        match query_columns_raw(&conn, table_name) {
            Err(msg) => Err(AppError::Connection(ConnError::QueryFailed(msg))),
            Ok(raw) => Ok(columns_from_raw(raw)),
        }
    }
}

impl DatabaseConnection for SQLite3Connection {
    fn test_connection(&self) -> (r: Result<(), AppError>) {
        self.check_connection()
    }

    fn list_databases(&self) -> (r: Result<Vec<String>, AppError>) {
        self.catalog_names()
    }

    fn list_tables(&self, database: &str) -> (r: Result<Vec<String>, AppError>) {
        self.user_tables()
    }

    fn get_table_columns(&self, table_name: &str) -> (r: Result<Vec<ColumnInfo>, AppError>) {
        self.columns_of(table_name)
    }
}

/// A constructed engine connection: one variant per engine with a working
/// implementation, so an engine without one cannot be constructed at all.
pub enum EngineConnection {
    SQLite3(SQLite3Connection),
}

impl EngineConnection {
    /// Verifies reachability through the underlying engine. A failure is a
    /// connection error, never an unimplemented-engine error.
    pub fn test_connection(&self) -> (r: Result<(), AppError>)
        ensures
            r matches Err(e) ==> e matches AppError::Connection(ce) && !(ce matches
                ConnError::NotImplemented(_)),
    {
        match self {
            EngineConnection::SQLite3(c) => c.check_connection(),
        }
    }

    /// The catalogs visible through the connection.
    pub fn list_databases(&self) -> (r: Result<Vec<String>, AppError>)
        ensures
            self matches EngineConnection::SQLite3(c) ==> match r {
                Ok(v) => v@.len() == 1 && v@[0]@ == base_name_of(c@) && base_name_of(c@).len()
                    > 0,
                Err(_) => base_name_of(c@).len() == 0,
            },
    {
        match self {
            EngineConnection::SQLite3(c) => c.catalog_names(),
        }
    }

    /// The user tables of a catalog, sorted ascending. A single-catalog
    /// engine ignores the `database` argument.
    pub fn list_tables(&self, database: &str) -> (r: Result<Vec<String>, AppError>)
        ensures
            r matches Ok(v) ==> strings_sorted(v@) && (forall|i: int|
                0 <= i < v@.len() ==> !is_internal_table_name(#[trigger] v@[i]@)),
    {
        match self {
            EngineConnection::SQLite3(c) => c.user_tables(),
        }
    }

    /// The columns of a table, in declaration order.
    pub fn get_table_columns(&self, table_name: &str) -> (r: Result<Vec<ColumnInfo>, AppError>)
        ensures
            r matches Ok(cols) ==> forall|i: int|
                0 <= i < cols@.len() ==> (#[trigger] cols@[i]).comment is None,
    {
        match self {
            EngineConnection::SQLite3(c) => c.columns_of(table_name),
        }
    }
}

/// Builds the engine connection a profile calls for: the file-based engine
/// for `SQLite3`, and an explicit unimplemented-engine failure for every
/// other kind — never a crash, never a partial construction.
pub fn create_connection(config: &DatabaseConfig) -> (r: Result<EngineConnection, AppError>)
    ensures
        config.type_ == DatabaseType::SQLite3 ==> (r matches Ok(c) && (c matches
            EngineConnection::SQLite3(sc) && sc@ == config.host@)),
        config.type_ != DatabaseType::SQLite3 ==> (r matches Err(e) && (e matches
            AppError::Connection(ce) && (ce matches ConnError::NotImplemented(name)
            && name@ == engine_name(config.type_)))),
{
    match config.type_ {
        DatabaseType::SQLite3 => Ok(
            EngineConnection::SQLite3(SQLite3Connection::new(config.host.clone())),
        ),
        DatabaseType::MySQL => Err(
            AppError::Connection(ConnError::NotImplemented(String::from_str("MySQL"))),
        ),
        DatabaseType::Oracle => Err(
            AppError::Connection(ConnError::NotImplemented(String::from_str("Oracle"))),
        ),
        DatabaseType::DM => Err(
            AppError::Connection(ConnError::NotImplemented(String::from_str("DM"))),
        ),
    }
}

} // verus!
