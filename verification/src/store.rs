//! The durable store of connection profiles and the manager that serves the
//! external API. The store's one table is modeled as a map from id to stored
//! row; every operation's contract says how the map changes.

use vstd::prelude::*;

use rusqlite::OptionalExtension;

use crate::connection::create_connection;
use crate::error::{AppError, ConnError, StoreError};
use crate::models::{
    engine_name, engine_of_name, opt_string_view, ConfigView, DatabaseConfig, DatabaseType,
    TestConnectionResult,
};

verus! {

/// One stored profile row, as plain mathematical values, without its id.
pub ghost struct StoredRow {
    pub name: Seq<char>,
    pub engine: Seq<char>,
    pub host: Seq<char>,
    pub username: Option<Seq<char>>,
    pub password: Option<Seq<char>>,
    pub create_time: Seq<char>,
    pub last_connect_time: Option<Seq<char>>,
}

/// The contents of the store's profile table behind a database handle: a map
/// from id to stored row. The table is keyed by an integer primary key, so
/// each id carries at most one row.
pub uninterp spec fn store_rows(conn: rusqlite::Connection) -> Map<int, StoredRow>;

/// The id watermark of the store's profile table behind a database handle:
/// the largest id the table has ever assigned. The id column is declared
/// `AUTOINCREMENT`, so the watermark never goes down and a fresh id is
/// always strictly above it — which is what makes an id unrepeatable even
/// after its row is deleted.
pub uninterp spec fn store_watermark(conn: rusqlite::Connection) -> int;

/// A profile row as the store hands it out, with its id.
pub struct RawConfigRow {
    pub id: i64,
    pub name: String,
    pub engine: String,
    pub host: String,
    pub username: Option<String>,
    pub password: Option<String>,
    pub create_time: String,
    pub last_connect_time: Option<String>,
}

/// The stored row a raw row denotes.
pub open spec fn raw_row_view(r: RawConfigRow) -> StoredRow {
    StoredRow {
        name: r.name@,
        engine: r.engine@,
        host: r.host@,
        username: opt_string_view(r.username),
        password: opt_string_view(r.password),
        create_time: r.create_time@,
        last_connect_time: opt_string_view(r.last_connect_time),
    }
}

/// How an insert changes the table: a new row under the given id, with the
/// given fields, a creation timestamp of the store's choosing, and no
/// last-connect timestamp yet.
pub open spec fn inserted_with(
    m0: Map<int, StoredRow>,
    m1: Map<int, StoredRow>,
    id: int,
    name: Seq<char>,
    engine: Seq<char>,
    host: Seq<char>,
    username: Option<Seq<char>>,
    password: Option<Seq<char>>,
) -> bool {
    exists|ct: Seq<char>|
        m1 == m0.insert(
            id,
            (StoredRow {
                name,
                engine,
                host,
                username,
                password,
                create_time: ct,
                last_connect_time: None,
            }),
        )
}

/// How a successful connectivity test changes the table: the row under the
/// given id gets a last-connect timestamp of the store's choosing, every
/// other field staying; without such a row nothing changes.
pub open spec fn last_connect_updated(
    m0: Map<int, StoredRow>,
    m1: Map<int, StoredRow>,
    id: int,
) -> bool {
    if m0.dom().contains(id) {
        exists|ts: Seq<char>|
            m1 == m0.insert(
                id,
                (StoredRow {
                    name: m0[id].name,
                    engine: m0[id].engine,
                    host: m0[id].host,
                    username: m0[id].username,
                    password: m0[id].password,
                    create_time: m0[id].create_time,
                    last_connect_time: Some(ts),
                }),
            )
    } else {
        m1 == m0
    }
}

/// How an update changes the table: the row under the given id gets the
/// profile's name, engine, host and credentials, both timestamps staying;
/// without such a row nothing changes.
pub open spec fn updated_fields(
    m0: Map<int, StoredRow>,
    m1: Map<int, StoredRow>,
    id: int,
    c: ConfigView,
) -> bool {
    if m0.dom().contains(id) {
        m1 == m0.insert(
            id,
            (StoredRow {
                name: c.name,
                engine: engine_name(c.type_),
                host: c.host,
                username: c.username,
                password: c.password,
                create_time: m0[id].create_time,
                last_connect_time: m0[id].last_connect_time,
            }),
        )
    } else {
        m1 == m0
    }
}

/// Whether a fetched profile is the faithful image of a stored row: the id
/// it was fetched under, every stored field, the creation timestamp present,
/// and the engine kind parsed back from its stored name.
pub open spec fn listing_entry(c: ConfigView, k: int, row: StoredRow) -> bool {
    &&& c.id == Some(k)
    &&& c.name == row.name
    &&& engine_of_name(row.engine) == Some(c.type_)
    &&& c.host == row.host
    &&& c.username == row.username
    &&& c.password == row.password
    &&& c.create_time == Some(row.create_time)
    &&& c.last_connect_time == row.last_connect_time
}

/// Whether a profile is the faithful image of some row of the table, fetched
/// under that row's id.
pub open spec fn entry_of(m: Map<int, StoredRow>, c: ConfigView) -> bool {
    c.id matches Some(k) && m.dom().contains(k) && listing_entry(c, k, m[k])
}

/// The ghost values of a vector of profiles.
pub open spec fn config_views(v: Seq<DatabaseConfig>) -> Seq<ConfigView> {
    v.map_values(|c: DatabaseConfig| c@)
}

/// Whether `a` may stand no later than `b` in a listing: the more recently
/// created profile first, ties broken by the higher id first.
pub open spec fn entry_newer_eq(a: ConfigView, b: ConfigView) -> bool {
    match (a.create_time, b.create_time, a.id, b.id) {
        (Some(ca), Some(cb), Some(x), Some(y)) => crate::text::lex_le(cb, ca) && (ca == cb ==> y
            <= x),
        _ => false,
    }
}

/// Whether `v` lists the table `m` faithfully: each element images a row,
/// no id twice, every row listed, most recently created first.
pub open spec fn listing_of(v: Seq<ConfigView>, m: Map<int, StoredRow>) -> bool {
    &&& forall|i: int| 0 <= i < v.len() ==> entry_of(m, #[trigger] v[i])
    &&& forall|i: int, j: int| 0 <= i < j < v.len() ==> v[i].id != v[j].id
    &&& forall|k: int|
        #[trigger] m.dom().contains(k) ==> exists|i: int|
            0 <= i < v.len() && (#[trigger] v[i]).id == Some(k)
    &&& forall|i: int, j: int| 0 <= i < j < v.len() ==> entry_newer_eq(v[i], v[j])
}

/// Two faithful images of the same stored row under the same id are equal.
pub proof fn lemma_entry_determined(c1: ConfigView, c2: ConfigView, k: int, row: StoredRow)
    requires
        listing_entry(c1, k, row),
        listing_entry(c2, k, row),
    ensures
        c1 == c2,
{
}

/// Any two valid profiles are comparable by the listing order.
proof fn lemma_entry_order_connected(a: ConfigView, b: ConfigView)
    requires
        a.create_time is Some,
        b.create_time is Some,
        a.id is Some,
        b.id is Some,
    ensures
        entry_newer_eq(a, b) || entry_newer_eq(b, a),
{
    let ca = choose|c: Seq<char>| a.create_time == Some(c);
    let cb = choose|c: Seq<char>| b.create_time == Some(c);
    crate::text::lemma_lex_le_connected(ca, cb);
    crate::text::lemma_lex_le_reflexive(ca);
    if crate::text::lex_le(cb, ca) && crate::text::lex_le(ca, cb) {
        crate::text::lemma_lex_le_antisymmetric(ca, cb);
    }
}

/// The listing order chains.
proof fn lemma_entry_order_transitive(a: ConfigView, b: ConfigView, c: ConfigView)
    requires
        entry_newer_eq(a, b),
        entry_newer_eq(b, c),
    ensures
        entry_newer_eq(a, c),
{
    let ca = choose|s: Seq<char>| a.create_time == Some(s);
    let cb = choose|s: Seq<char>| b.create_time == Some(s);
    let cc = choose|s: Seq<char>| c.create_time == Some(s);
    crate::text::lemma_lex_le_transitive(cc, cb, ca);
    if ca == cc {
        crate::text::lemma_lex_le_antisymmetric(ca, cb);
        crate::text::lemma_lex_le_antisymmetric(cb, cc);
    }
}

/// Two valid profiles each at or before the other carry the same id.
proof fn lemma_entry_order_antisymmetric(a: ConfigView, b: ConfigView)
    requires
        entry_newer_eq(a, b),
        entry_newer_eq(b, a),
    ensures
        a.id == b.id,
{
    let ca = choose|s: Seq<char>| a.create_time == Some(s);
    let cb = choose|s: Seq<char>| b.create_time == Some(s);
    crate::text::lemma_lex_le_antisymmetric(ca, cb);
}

/// Dropping a listing's first element lists the table without that
/// element's row.
proof fn lemma_listing_tail(v: Seq<ConfigView>, m: Map<int, StoredRow>, k0: int)
    requires
        listing_of(v, m),
        v.len() > 0,
        v[0].id == Some(k0),
    ensures
        listing_of(v.drop_first(), m.remove(k0)),
{
    let v2 = v.drop_first();
    let m2 = m.remove(k0);
    assert forall|i: int| 0 <= i < v2.len() implies entry_of(m2, #[trigger] v2[i]) by {
        assert(v2[i] == v[i + 1]);
        assert(entry_of(m, v[i + 1]));
        let ki = choose|k: int| v[i + 1].id == Some(k);
        assert(v[0].id != v[i + 1].id);
        assert(ki != k0);
        assert(m2.dom().contains(ki));
        assert(m2[ki] == m[ki]);
        assert(listing_entry(v2[i], ki, m2[ki]));
    }
    assert forall|k: int| #[trigger] m2.dom().contains(k) implies exists|i: int|
        0 <= i < v2.len() && (#[trigger] v2[i]).id == Some(k) by {
        assert(m.dom().contains(k));
        let i = choose|i: int| 0 <= i < v.len() && (#[trigger] v[i]).id == Some(k);
        assert(k != k0);
        assert(i != 0);
        assert(v2[i - 1] == v[i]);
        assert(0 <= i - 1 < v2.len() && v2[i - 1].id == Some(k));
    }
    assert forall|i: int, j: int| 0 <= i < j < v2.len() implies v2[i].id != v2[j].id
        && entry_newer_eq(v2[i], v2[j]) by {
        assert(v2[i] == v[i + 1] && v2[j] == v[j + 1]);
    }
}

/// Law: a read with no intervening writes is deterministic — any two
/// faithful, completely ordered listings of the same profile table are the
/// same sequence.
pub proof fn lemma_listing_unique(a: Seq<ConfigView>, b: Seq<ConfigView>, m: Map<int, StoredRow>)
    requires
        listing_of(a, m),
        listing_of(b, m),
    ensures
        a =~= b,
    decreases a.len(),
{
    if a.len() == 0 {
        if b.len() > 0 {
            assert(entry_of(m, b[0]));
            let k0 = choose|k: int| b[0].id == Some(k);
            assert(m.dom().contains(k0));
            assert(exists|i: int| 0 <= i < a.len() && (#[trigger] a[i]).id == Some(k0));
            assert(false);
        }
    } else {
        assert(entry_of(m, a[0]));
        let ka = choose|k: int| a[0].id == Some(k);
        assert(m.dom().contains(ka));
        let jb = choose|j: int| 0 <= j < b.len() && (#[trigger] b[j]).id == Some(ka);
        assert(entry_of(m, b[jb]));
        lemma_entry_determined(a[0], b[jb], ka, m[ka]);
        assert(a[0] == b[jb]);
        if jb != 0 {
            assert(entry_of(m, b[0]));
            let kb = choose|k: int| b[0].id == Some(k);
            assert(m.dom().contains(kb));
            let ia = choose|i: int| 0 <= i < a.len() && (#[trigger] a[i]).id == Some(kb);
            assert(entry_of(m, a[ia]));
            lemma_entry_determined(b[0], a[ia], kb, m[kb]);
            assert(b[0] == a[ia]);
            if ia != 0 {
                assert(entry_newer_eq(b[0], b[jb]));
                assert(entry_newer_eq(a[0], a[ia]));
                lemma_entry_order_antisymmetric(a[0], b[0]);
                assert(Some(ka) == Some(kb));
                lemma_entry_determined(a[0], b[0], ka, m[ka]);
            }
        }
        assert(a[0] == b[0]);
        lemma_listing_tail(a, m, ka);
        lemma_listing_tail(b, m, ka);
        lemma_listing_unique(a.drop_first(), b.drop_first(), m.remove(ka));
        assert(a.len() == b.len());
        assert forall|i: int| 0 <= i < a.len() implies a[i] == b[i] by {
            if i > 0 {
                assert(a.drop_first()[i - 1] == b.drop_first()[i - 1]);
            }
        }
    }
}

/// The manager of the profile store: it owns the store's one database
/// handle, and every operation on stored profiles flows through it. Writing
/// operations take the manager by mutable reference, so the borrow rules
/// serialize them: at most one store operation is in flight at a time. A
/// caller that shares the manager across threads wraps it in a lock of its
/// own.
pub struct DatabaseManager {
    conn: rusqlite::Connection,
}

impl DatabaseManager {
    /// The profile table behind this manager's handle.
    pub closed spec fn rows(&self) -> Map<int, StoredRow> {
        store_rows(self.conn)
    }

    /// The largest id this manager's store has ever assigned.
    pub closed spec fn watermark(&self) -> int {
        store_watermark(self.conn)
    }

    /// Opens the store at the given path, creating its database file and
    /// profile table when absent. Every stored id sits at or below the
    /// watermark; a failure is always a store-level one. No other handle to
    /// the same file may be held while this one lives.
    pub fn new(path: &str) -> (r: Result<Self, AppError>)
        ensures
            match r {
                Ok(m) => forall|k: int|
                    #[trigger] m.rows().dom().contains(k) ==> k <= m.watermark(),
                Err(e) => e matches AppError::Database(StoreError::Failed(_)),
            },
    {
        match open_store(path) {
            Ok(conn) => Ok(DatabaseManager { conn }),
            Err(msg) => Err(AppError::Database(StoreError::Failed(msg))),
        }
    }

    /// Inserts a profile as a new row: a fresh id strictly above the old
    /// watermark is assigned and raises it, the creation timestamp is set by
    /// the store, and the profile's own id and timestamps are ignored.
    /// Returns the assigned id; a failure is always a store-level one.
    pub fn add_config(&mut self, config: &DatabaseConfig) -> (r: Result<i64, AppError>)
        ensures
            match r {
                Ok(id) => !old(self).rows().dom().contains(id as int) && old(self).watermark()
                    < id as int <= final(self).watermark() && inserted_with(
                    old(self).rows(),
                    final(self).rows(),
                    id as int,
                    config.name@,
                    engine_name(config.type_),
                    config.host@,
                    opt_string_view(config.username),
                    opt_string_view(config.password),
                ),
                Err(e) => final(self).rows() == old(self).rows() && final(self).watermark()
                    >= old(self).watermark() && (e matches AppError::Database(_)),
            },
    {
        let engine = config.type_.to_string();
        match self.insert_row(
            &config.name,
            &engine,
            &config.host,
            &config.username,
            &config.password,
        ) {
            Ok(id) => Ok(id),
            Err(msg) => Err(AppError::Database(StoreError::Failed(msg))),
        }
    }

    /// Fetches the profile stored under an id. Succeeds exactly on the
    /// stored row's faithful image; reports `NotFound` only when no row
    /// carries the id; a failure is always a store-level one.
    pub fn get_config(&self, id: i64) -> (r: Result<DatabaseConfig, AppError>)
        ensures
            match r {
                Ok(cfg) => self.rows().dom().contains(id as int) && listing_entry(
                    cfg@,
                    id as int,
                    self.rows()[id as int],
                ),
                Err(e) => e matches AppError::Database(_) && (e matches AppError::Database(
                    StoreError::NotFound(_),
                ) ==> !self.rows().dom().contains(id as int)),
            },
    {
        match self.select_row(id) {
            Err(msg) => Err(AppError::Database(StoreError::Failed(msg))),
            Ok(None) => Err(AppError::Database(StoreError::NotFound(id))),
            Ok(Some(raw)) => {
                proof {
                    assert(self.rows().dom().contains(id as int));
                    assert(self.rows()[id as int] == raw_row_view(raw));
                    assert(raw.id == id);
                }
                config_from_raw(&raw)
            },
        }
    }

    /// Deletes the row under an id. Deleting an id no row carries is a
    /// `NotFound` failure, never a silent success; a failure is always a
    /// store-level one, and the watermark stays, so the id is never handed
    /// out again.
    pub fn delete_config(&mut self, id: i64) -> (r: Result<(), AppError>)
        ensures
            match r {
                Ok(_) => old(self).rows().dom().contains(id as int) && final(self).rows()
                    == old(self).rows().remove(id as int),
                Err(e) => final(self).rows() == old(self).rows() && (e matches
                    AppError::Database(_)) && (e matches AppError::Database(
                    StoreError::NotFound(_),
                ) ==> !old(self).rows().dom().contains(id as int)),
            },
            !old(self).rows().dom().contains(id as int) ==> !(r is Ok),
            final(self).watermark() == old(self).watermark(),
    {
        match self.delete_row(id) {
            Err(msg) => Err(AppError::Database(StoreError::Failed(msg))),
            Ok(n) => {
                if n == 0 {
                    proof {
                        assert(old(self).rows().remove(id as int) =~= old(self).rows());
                    }
                    Err(AppError::Database(StoreError::NotFound(id)))
                } else {
                    Ok(())
                }
            },
        }
    }

    /// Rewrites name, engine, host and credentials of the row under the
    /// profile's id, leaving both timestamps untouched. A profile without an
    /// id, or with an id no row carries, changes nothing; a failure is
    /// always a store-level one.
    pub fn update_config(&mut self, config: &DatabaseConfig) -> (r: Result<(), AppError>)
        ensures
            match r {
                Ok(_) => match config.id {
                    Some(id) => updated_fields(
                        old(self).rows(),
                        final(self).rows(),
                        id as int,
                        config@,
                    ),
                    None => final(self).rows() == old(self).rows(),
                },
                Err(e) => final(self).rows() == old(self).rows() && (e matches
                    AppError::Database(_)),
            },
            final(self).watermark() == old(self).watermark(),
    {
        let id = match config.id {
            Some(id) => id,
            None => {
                return Ok(());
            },
        };
        let engine = config.type_.to_string();
        match self.update_row(
            id,
            &config.name,
            &engine,
            &config.host,
            &config.username,
            &config.password,
        ) {
            Ok(_) => Ok(()),
            Err(msg) => Err(AppError::Database(StoreError::Failed(msg))),
        }
    }

    /// Stamps the row under an id with a last-connect timestamp of the
    /// store's choosing. Called only after a successful connectivity test; a
    /// failure is always a store-level one.
    pub fn update_last_connect_time(&mut self, id: i64) -> (r: Result<(), AppError>)
        ensures
            match r {
                Ok(_) => last_connect_updated(old(self).rows(), final(self).rows(), id as int),
                Err(e) => final(self).rows() == old(self).rows() && (e matches
                    AppError::Database(_)),
            },
            final(self).watermark() == old(self).watermark(),
    {
        match self.touch_row(id) {
            Ok(_) => Ok(()),
            Err(msg) => Err(AppError::Database(StoreError::Failed(msg))),
        }
    }

    /// Tests connectivity for a profile: builds the engine connection and
    /// probes it. On success the profile's row — when the profile already
    /// has an id — gets a last-connect timestamp; on failure the underlying
    /// error propagates untouched and the store does not change. A profile
    /// naming an engine without a working implementation always fails with
    /// that engine's unimplemented-engine error.
    pub fn test_connection(&mut self, config: &DatabaseConfig) -> (r: Result<(), AppError>)
        ensures
            r is Err ==> final(self).rows() == old(self).rows(),
            r is Ok ==> match config.id {
                Some(id) => last_connect_updated(old(self).rows(), final(self).rows(), id as int),
                None => final(self).rows() == old(self).rows(),
            },
            config.type_ != DatabaseType::SQLite3 ==> (r matches Err(e) && (e matches
                AppError::Connection(ce) && (ce matches ConnError::NotImplemented(name)
                && name@ == engine_name(config.type_)))),
            config.type_ == DatabaseType::SQLite3 ==> (r matches Err(e) ==> !(e matches
                AppError::Connection(ConnError::NotImplemented(_)))),
            (r matches Err(e) && (e matches AppError::Database(_))) ==> config.id is Some,
            final(self).watermark() == old(self).watermark(),
    {
        let conn = match create_connection(config) {
            Ok(c) => c,
            Err(e) => {
                return Err(e);
            },
        };
        match conn.test_connection() {
            Ok(_) => match config.id {
                Some(id) => match self.update_last_connect_time(id) {
                    Ok(_) => Ok(()),
                    Err(e) => Err(e),
                },
                None => Ok(()),
            },
            Err(e) => Err(e),
        }
    }

    /// Lists every stored profile, most recently created first, ties broken
    /// by the higher id first: a faithful, completely ordered image of the
    /// profile table. A failure is always a store-level one.
    pub fn list_configs(&self) -> (r: Result<Vec<DatabaseConfig>, AppError>)
        ensures
            match r {
                Ok(v) => listing_of(config_views(v@), self.rows()),
                Err(e) => e matches AppError::Database(_),
            },
    {
        let raw = match self.select_rows() {
            Err(msg) => {
                return Err(AppError::Database(StoreError::Failed(msg)));
            },
            Ok(v) => v,
        };
        let mut cfgs: Vec<DatabaseConfig> = Vec::new();
        let mut i: usize = 0;
        while i < raw.len()
            invariant
                i <= raw@.len(),
                cfgs@.len() == i,
                forall|k: int|
                    0 <= k < i ==> listing_entry(
                        (#[trigger] cfgs@[k])@,
                        raw@[k].id as int,
                        raw_row_view(raw@[k]),
                    ),
            decreases raw@.len() - i,
        {
            match config_from_raw(&raw[i]) {
                Ok(cfg) => {
                    cfgs.push(cfg);
                },
                Err(e) => {
                    return Err(e);
                },
            }
            i += 1;
        }
        proof {
            assert forall|k: int| 0 <= k < cfgs@.len() implies ((#[trigger] cfgs@[k])@.create_time
                is Some && cfgs@[k]@.id is Some) by {
                assert(listing_entry(cfgs@[k]@, raw@[k].id as int, raw_row_view(raw@[k])));
            }
            assert forall|k: int, l: int| 0 <= k < l < cfgs@.len() implies cfgs@[k]@.id
                != cfgs@[l]@.id by {
                assert(cfgs@[k]@.id == Some(raw@[k].id as int));
                assert(cfgs@[l]@.id == Some(raw@[l].id as int));
            }
        }
        let ghost cfg_views = config_views(cfgs@);
        let ghost raw_seq = raw@;
        let sorted = sort_configs(cfgs);
        proof {
            broadcast use vstd::seq_lib::group_to_multiset_ensures;

            let m = self.rows();
            let sv = config_views(sorted@);
            assert forall|i2: int| 0 <= i2 < sv.len() implies entry_of(m, #[trigger] sv[i2]) by {
                assert(sv[i2] == sorted@[i2]@);
                assert(sv.contains(sv[i2]));
                assert(sv.to_multiset().contains(sv[i2]));
                assert(cfg_views.to_multiset().contains(sv[i2]));
                assert(cfg_views.contains(sv[i2]));
                let l = choose|l: int| 0 <= l < cfg_views.len() && cfg_views[l] == sv[i2];
                assert(listing_entry(cfg_views[l], raw_seq[l].id as int, raw_row_view(raw_seq[l])));
                assert(m.contains_pair(raw_seq[l].id as int, raw_row_view(raw_seq[l])));
            }
            assert forall|i2: int, j2: int| 0 <= i2 < j2 < sv.len() implies sv[i2].id != sv[j2].id
                by {
                assert(sorted@[i2]@.id != sorted@[j2]@.id);
            }
            assert forall|k: int| #[trigger] m.dom().contains(k) implies exists|i2: int|
                0 <= i2 < sv.len() && (#[trigger] sv[i2]).id == Some(k) by {
                let l = choose|l: int| 0 <= l < raw_seq.len() && (#[trigger] raw_seq[l]).id as int
                    == k;
                assert(cfg_views[l].id == Some(k));
                assert(cfg_views.contains(cfg_views[l]));
                assert(cfg_views.to_multiset().contains(cfg_views[l]));
                assert(sv.to_multiset().contains(cfg_views[l]));
                assert(sv.contains(cfg_views[l]));
                let i3 = choose|i3: int| 0 <= i3 < sv.len() && sv[i3] == cfg_views[l];
                assert(0 <= i3 < sv.len() && sv[i3].id == Some(k));
            }
            assert forall|i2: int, j2: int| 0 <= i2 < j2 < sv.len() implies entry_newer_eq(
                sv[i2],
                sv[j2],
            ) by {
                assert(entry_newer_eq(sorted@[i2]@, sorted@[j2]@));
            }
        }
        Ok(sorted)
    }

    /// Looks the profile up, builds its connection, and lists its catalogs.
    /// Success is only possible for a stored profile of the file-based
    /// engine, and reports exactly one catalog: the base name of the stored
    /// host path.
    pub fn list_databases(&self, config_id: i64) -> (r: Result<Vec<String>, AppError>)
        ensures
            r matches Ok(v) ==> {
                &&& self.rows().dom().contains(config_id as int)
                &&& engine_of_name(self.rows()[config_id as int].engine) == Some(
                    DatabaseType::SQLite3,
                )
                &&& v@.len() == 1
                &&& v@[0]@ == crate::text::base_name_of(self.rows()[config_id as int].host)
            },
    {
        let config = match self.get_config(config_id) {
            Ok(c) => c,
            Err(e) => {
                return Err(e);
            },
        };
        let conn = match create_connection(&config) {
            Ok(c) => c,
            Err(e) => {
                return Err(e);
            },
        };
        conn.list_databases()
    }

    /// Looks the profile up, builds its connection, and lists the user
    /// tables of a catalog, sorted ascending. Success is only possible for a
    /// stored profile of the file-based engine: an unknown id never lists.
    pub fn list_tables(&self, config_id: i64, database: &str) -> (r: Result<Vec<String>, AppError>)
        ensures
            r matches Ok(v) ==> {
                &&& self.rows().dom().contains(config_id as int)
                &&& engine_of_name(self.rows()[config_id as int].engine) == Some(
                    DatabaseType::SQLite3,
                )
                &&& crate::text::strings_sorted(v@)
                &&& forall|i: int|
                    0 <= i < v@.len() ==> !crate::connection::is_internal_table_name(
                        #[trigger] v@[i]@,
                    )
            },
    {
        let config = match self.get_config(config_id) {
            Ok(c) => c,
            Err(e) => {
                return Err(e);
            },
        };
        let conn = match create_connection(&config) {
            Ok(c) => c,
            Err(e) => {
                return Err(e);
            },
        };
        conn.list_tables(database)
    }
}

/// Shapes a raw store row into a profile record: the id it is stored under,
/// every stored field, and the engine kind parsed back from its stored name.
/// Fails exactly when the stored engine name denotes no kind.
/// Downgrades a connectivity-test outcome to a structured pass/fail report,
/// with a human-readable message: the one place a failure is reported
/// instead of propagated.
pub fn connection_report(outcome: &Result<(), AppError>) -> (r: TestConnectionResult)
    ensures
        r.success == (outcome is Ok),
{
    match outcome {
        Ok(_) => TestConnectionResult {
            success: true,
            message: String::from_str("connection successful"),
        },
        Err(e) => TestConnectionResult { success: false, message: e.message() },
    }
}

/// Copies an optional string, value for value.
fn clone_opt_string(s: &Option<String>) -> (r: Option<String>)
    ensures
        opt_string_view(r) == opt_string_view(*s),
{
    match s {
        Some(v) => Some(v.clone()),
        None => None,
    }
}

pub fn config_from_raw(raw: &RawConfigRow) -> (r: Result<DatabaseConfig, AppError>)
    ensures
        match r {
            Ok(cfg) => engine_of_name(raw.engine@) is Some && listing_entry(
                cfg@,
                raw.id as int,
                raw_row_view(*raw),
            ),
            Err(e) => engine_of_name(raw.engine@) is None && e matches AppError::Database(
                StoreError::Failed(_),
            ),
        },
{
    let type_ = match DatabaseType::from_str(raw.engine.as_str()) {
        Ok(t) => t,
        Err(msg) => {
            return Err(AppError::Database(StoreError::Failed(msg)));
        },
    };
    Ok(
        DatabaseConfig {
            id: Some(raw.id),
            name: raw.name.clone(),
            type_,
            host: raw.host.clone(),
            username: clone_opt_string(&raw.username),
            password: clone_opt_string(&raw.password),
            create_time: Some(raw.create_time.clone()),
            last_connect_time: clone_opt_string(&raw.last_connect_time),
        },
    )
}

/// Law: a profile added and then fetched under the returned id matches the
/// added profile in every field except the id and the server-assigned
/// timestamps.
pub proof fn lemma_add_then_get(
    m0: Map<int, StoredRow>,
    m1: Map<int, StoredRow>,
    id: int,
    added: ConfigView,
    fetched: ConfigView,
)
    requires
        !m0.dom().contains(id),
        inserted_with(
            m0,
            m1,
            id,
            added.name,
            engine_name(added.type_),
            added.host,
            added.username,
            added.password,
        ),
        listing_entry(fetched, id, m1[id]),
    ensures
        fetched.id == Some(id),
        fetched.name == added.name,
        fetched.type_ == added.type_,
        fetched.host == added.host,
        fetched.username == added.username,
        fetched.password == added.password,
        fetched.create_time is Some,
        fetched.last_connect_time is None,
{
    crate::models::lemma_engine_name_round_trip(added.type_);
}

/// Law: ids are never reused after deletion. An id once assigned sits at or
/// below the watermark of its time; the watermark never goes down, whatever
/// else happens to the table; and a later insert assigns an id strictly
/// above the watermark of its own time — so no id, deleted or not, is ever
/// assigned twice.
pub proof fn lemma_ids_never_reused(earlier_id: int, w_then: int, w_now: int, new_id: int)
    requires
        earlier_id <= w_then,
        w_then <= w_now,
        w_now < new_id,
    ensures
        new_id != earlier_id,
{
}

/// Law: after a deletion the deleted id has no row any more, and every other
/// id keeps its row.
pub proof fn lemma_delete_then_get(m0: Map<int, StoredRow>, m1: Map<int, StoredRow>, id: int)
    requires
        m1 == m0.remove(id),
    ensures
        !m1.dom().contains(id),
        forall|k: int| k != id ==> (m1.dom().contains(k) <==> m0.dom().contains(k)),
        forall|k: int| k != id && #[trigger] m1.dom().contains(k) ==> m1[k] == m0[k],
{
}

/// Relies on `rusqlite::Connection::open` and `execute`: opens the store's
/// database file, creating it when absent, and creates the profile table if
/// it does not exist, then probes it, so that a pre-existing table lacking
/// the expected columns is refused instead of silently misread. The table
/// is keyed by `id INTEGER PRIMARY KEY AUTOINCREMENT`, so it maps each id
/// to at most one row, and every id it holds sits at or below the largest
/// it has ever assigned.
#[verifier::external_body]
fn open_store(path: &str) -> (r: Result<rusqlite::Connection, String>)
    ensures
        r matches Ok(conn) ==> forall|k: int|
            #[trigger] store_rows(conn).dom().contains(k) ==> k <= store_watermark(conn),
{
    let run = || -> rusqlite::Result<rusqlite::Connection> {
        let conn = rusqlite::Connection::open(path)?;
        conn.execute(
            "CREATE TABLE IF NOT EXISTS database_configs (id INTEGER PRIMARY KEY AUTOINCREMENT, \
             name TEXT NOT NULL, type TEXT NOT NULL, host TEXT NOT NULL, username TEXT, \
             password TEXT, create_time DATETIME DEFAULT CURRENT_TIMESTAMP, last_connect_time DATETIME)",
            [],
        )?;
        conn.prepare(
            "SELECT id, name, type, host, username, password, create_time, \
             last_connect_time FROM database_configs",
        )?;
        Ok(conn)
    };
    run().map_err(|e| e.to_string())
}

#[verifier::external_type_specification]
#[verifier::external_body]
pub struct ExRow<'a>(rusqlite::Row<'a>);

#[verifier::external_type_specification]
#[verifier::external_body]
pub struct ExSqlError(rusqlite::Error);

/// Relies on `rusqlite::Row::get`: reads the eight columns of one profile
/// row into a raw row, in the order the store's queries select them.
#[verifier::external_body]
fn raw_from_row(row: &rusqlite::Row<'_>) -> Result<RawConfigRow, rusqlite::Error> {
    Ok(RawConfigRow {
        id: row.get(0)?,
        name: row.get(1)?,
        engine: row.get(2)?,
        host: row.get(3)?,
        username: row.get(4)?,
        password: row.get(5)?,
        create_time: row.get(6)?,
        last_connect_time: row.get(7)?,
    })
}

impl DatabaseManager {
    /// Relies on `rusqlite::Connection::execute` over `INSERT` with
    /// `CURRENT_TIMESTAMP`, and `last_insert_rowid`: the row goes in under a
    /// fresh id — the id column is `INTEGER PRIMARY KEY AUTOINCREMENT`,
    /// which assigns an id strictly above the largest ever assigned and
    /// records the new id as that largest — with a creation timestamp the
    /// store picks; a failed statement changes nothing, and the recorded
    /// largest id never goes down.
    #[verifier::external_body]
    fn insert_row(
        &mut self,
        name: &String,
        engine: &String,
        host: &String,
        username: &Option<String>,
        password: &Option<String>,
    ) -> (r: Result<i64, String>)
        ensures
            match r {
                Ok(id) => !store_rows(old(self).conn).dom().contains(id as int)
                    && store_watermark(old(self).conn) < id as int <= store_watermark(
                    final(self).conn,
                ) && inserted_with(
                    store_rows(old(self).conn),
                    store_rows(final(self).conn),
                    id as int,
                    name@,
                    engine@,
                    host@,
                    opt_string_view(*username),
                    opt_string_view(*password),
                ),
                Err(_) => store_rows(final(self).conn) == store_rows(old(self).conn)
                    && store_watermark(final(self).conn) >= store_watermark(old(self).conn),
            },
    {
        let run = || -> rusqlite::Result<i64> {
            self.conn.execute(
                "INSERT INTO database_configs (name, type, host, username, password, create_time)
                 VALUES (?1, ?2, ?3, ?4, ?5, CURRENT_TIMESTAMP)",
                (name, engine, host, username, password),
            )?;
            Ok(self.conn.last_insert_rowid())
        };
        run().map_err(|e| e.to_string())
    }

    /// Relies on `rusqlite::Connection::query_row` over `SELECT … WHERE id`:
    /// returns the one row carrying the id — the id column is the table's
    /// primary key, so at most one does — or nothing when no row does.
    #[verifier::external_body]
    fn select_row(&self, id: i64) -> (r: Result<Option<RawConfigRow>, String>)
        ensures
            match r {
                Ok(Some(raw)) => raw.id == id && store_rows(self.conn).contains_pair(
                    id as int,
                    raw_row_view(raw),
                ),
                Ok(None) => !store_rows(self.conn).dom().contains(id as int),
                Err(_) => true,
            },
    {
        self.conn.query_row(
            "SELECT id, name, type, host, username, password, datetime(create_time), \
             datetime(last_connect_time) FROM database_configs WHERE id = ?1",
            [id],
            |row| raw_from_row(row),
        ).optional().map_err(|e| e.to_string())
    }

    /// Relies on `rusqlite::Connection::execute` over `DELETE … WHERE id`:
    /// removes the one row carrying the id when one does — the id column is
    /// the table's primary key — and reports how many rows went; a failed
    /// statement changes nothing. A delete never touches the recorded
    /// largest assigned id.
    #[verifier::external_body]
    fn delete_row(&mut self, id: i64) -> (r: Result<usize, String>)
        ensures
            match r {
                Ok(n) => store_rows(final(self).conn) == store_rows(old(self).conn).remove(
                    id as int,
                ) && (n != 0 <==> store_rows(old(self).conn).dom().contains(id as int)),
                Err(_) => store_rows(final(self).conn) == store_rows(old(self).conn),
            },
            store_watermark(final(self).conn) == store_watermark(old(self).conn),
    {
        self.conn.execute("DELETE FROM database_configs WHERE id = ?1", [id]).map_err(|e|
            e.to_string())
    }

    /// Relies on `rusqlite::Connection::execute` over `UPDATE … WHERE id`:
    /// rewrites name, engine, host and credentials of the one row carrying
    /// the id — the id column is the table's primary key — leaving both
    /// timestamps as they were; without such a row, or on a failed
    /// statement, nothing changes.
    #[verifier::external_body]
    fn update_row(
        &mut self,
        id: i64,
        name: &String,
        engine: &String,
        host: &String,
        username: &Option<String>,
        password: &Option<String>,
    ) -> (r: Result<(), String>)
        ensures
            match r {
                Ok(_) => if store_rows(old(self).conn).dom().contains(id as int) {
                    store_rows(final(self).conn) == store_rows(old(self).conn).insert(
                        id as int,
                        (StoredRow {
                            name: name@,
                            engine: engine@,
                            host: host@,
                            username: opt_string_view(*username),
                            password: opt_string_view(*password),
                            create_time: store_rows(old(self).conn)[id as int].create_time,
                            last_connect_time: store_rows(
                                old(self).conn,
                            )[id as int].last_connect_time,
                        }),
                    )
                } else {
                    store_rows(final(self).conn) == store_rows(old(self).conn)
                },
                Err(_) => store_rows(final(self).conn) == store_rows(old(self).conn),
            },
            store_watermark(final(self).conn) == store_watermark(old(self).conn),
    {
        self.conn.execute(
            "UPDATE database_configs
             SET name = ?1, type = ?2, host = ?3, username = ?4, password = ?5
             WHERE id = ?6",
            (name, engine, host, username, password, id),
        ).map(|_| ()).map_err(|e| e.to_string())
    }

    /// Relies on `rusqlite::Connection::execute` over `UPDATE … SET
    /// last_connect_time = CURRENT_TIMESTAMP WHERE id`: stamps the one row
    /// carrying the id — the id column is the table's primary key — with a
    /// time the store picks; without such a row, or on a failed statement,
    /// nothing changes.
    #[verifier::external_body]
    fn touch_row(&mut self, id: i64) -> (r: Result<(), String>)
        ensures
            match r {
                Ok(_) => last_connect_updated(
                    store_rows(old(self).conn),
                    store_rows(final(self).conn),
                    id as int,
                ),
                Err(_) => store_rows(final(self).conn) == store_rows(old(self).conn),
            },
            store_watermark(final(self).conn) == store_watermark(old(self).conn),
    {
        self.conn.execute(
            "UPDATE database_configs SET last_connect_time = CURRENT_TIMESTAMP WHERE id = ?1",
            [id],
        ).map(|_| ()).map_err(|e| e.to_string())
    }

    /// Relies on `rusqlite::Connection::prepare` and `Statement::query_map`
    /// over a `SELECT` of every profile row: hands out each stored row
    /// exactly once, with its id — the id column is the table's primary
    /// key — in an order the engine chooses.
    #[verifier::external_body]
    fn select_rows(&self) -> (r: Result<Vec<RawConfigRow>, String>)
        ensures
            match r {
                Ok(v) => {
                    &&& forall|i: int|
                        0 <= i < v@.len() ==> store_rows(self.conn).contains_pair(
                            (#[trigger] v@[i]).id as int,
                            raw_row_view(v@[i]),
                        )
                    &&& forall|i: int, j: int| 0 <= i < j < v@.len() ==> v@[i].id != v@[j].id
                    &&& forall|k: int|
                        #[trigger] store_rows(self.conn).dom().contains(k) ==> exists|i: int|
                            0 <= i < v@.len() && (#[trigger] v@[i]).id as int == k
                },
                Err(_) => true,
            },
    {
        let run = || -> rusqlite::Result<Vec<RawConfigRow>> {
            let mut stmt = self.conn.prepare(
                "SELECT id, name, type, host, username, password, datetime(create_time), \
                 datetime(last_connect_time) FROM database_configs",
            )?;
            let rows = stmt.query_map([], |row| raw_from_row(row))?;
            rows.collect()
        };
        run().map_err(|e| e.to_string())
    }
}

/// Copies a profile, value for value.
fn clone_config(c: &DatabaseConfig) -> (r: DatabaseConfig)
    ensures
        r@ == c@,
{
    DatabaseConfig {
        id: c.id,
        name: c.name.clone(),
        type_: c.type_,
        host: c.host.clone(),
        username: clone_opt_string(&c.username),
        password: clone_opt_string(&c.password),
        create_time: clone_opt_string(&c.create_time),
        last_connect_time: clone_opt_string(&c.last_connect_time),
    }
}

/// Whether `a` may stand no later than `b` in a listing, as runnable code.
fn listed_no_later(a: &DatabaseConfig, b: &DatabaseConfig) -> (r: bool)
    requires
        a@.create_time is Some,
        a@.id is Some,
        b@.create_time is Some,
        b@.id is Some,
    ensures
        r == entry_newer_eq(a@, b@),
{
    let (ca, cb) = match (&a.create_time, &b.create_time) {
        (Some(x), Some(y)) => (x, y),
        _ => {
            return false;
        },
    };
    let (ia, ib) = match (a.id, b.id) {
        (Some(x), Some(y)) => (x, y),
        _ => {
            return false;
        },
    };
    let le = crate::text::str_le(cb.as_str(), ca.as_str());
    let eq = crate::text::str_eq(ca.as_str(), cb.as_str());
    le && (!eq || ib <= ia)
}

/// Sorts profiles into listing order: most recently created first, ties
/// broken by the higher id first, keeping exactly the given profiles.
fn sort_configs(v: Vec<DatabaseConfig>) -> (r: Vec<DatabaseConfig>)
    requires
        forall|i: int|
            0 <= i < v@.len() ==> ((#[trigger] v@[i])@.create_time is Some && v@[i]@.id is Some),
        forall|i: int, j: int| 0 <= i < j < v@.len() ==> v@[i]@.id != v@[j]@.id,
    ensures
        config_views(r@).to_multiset() == config_views(v@).to_multiset(),
        forall|i: int, j: int|
            0 <= i < j < r@.len() ==> entry_newer_eq((#[trigger] r@[i])@, (#[trigger] r@[j])@),
        forall|i: int, j: int| 0 <= i < j < r@.len() ==> r@[i]@.id != r@[j]@.id,
{
    let mut out: Vec<DatabaseConfig> = Vec::new();
    let mut idx: usize = 0;
    proof {
        assert(config_views(out@) =~= config_views(v@.subrange(0, 0)));
    }
    while idx < v.len()
        invariant
            idx <= v@.len(),
            forall|i: int|
                0 <= i < v@.len() ==> ((#[trigger] v@[i])@.create_time is Some && v@[i]@.id
                    is Some),
            forall|i: int, j: int| 0 <= i < j < v@.len() ==> v@[i]@.id != v@[j]@.id,
            config_views(out@).to_multiset() == config_views(
                v@.subrange(0, idx as int),
            ).to_multiset(),
            forall|k: int|
                0 <= k < out@.len() ==> ((#[trigger] out@[k])@.create_time is Some && out@[k]@.id
                    is Some),
            forall|k: int, l: int|
                0 <= k < l < out@.len() ==> entry_newer_eq(
                    (#[trigger] out@[k])@,
                    (#[trigger] out@[l])@,
                ),
            forall|k: int, l: int| 0 <= k < l < out@.len() ==> out@[k]@.id != out@[l]@.id,
            forall|k: int|
                0 <= k < out@.len() ==> exists|l: int|
                    0 <= l < idx && (#[trigger] out@[k])@ == v@[l]@,
        decreases v@.len() - idx,
    {
        let x = clone_config(&v[idx]);
        let ghost prev_out = out@;
        let mut j: usize = 0;
        while j < out.len() && listed_no_later(&out[j], &x)
            invariant
                idx < v@.len(),
                j <= out@.len(),
                out@ == prev_out,
                x@ == v@[idx as int]@,
                x@.create_time is Some && x@.id is Some,
                forall|k: int|
                    0 <= k < out@.len() ==> ((#[trigger] out@[k])@.create_time is Some
                        && out@[k]@.id is Some),
                forall|k: int| 0 <= k < j ==> entry_newer_eq((#[trigger] out@[k])@, x@),
            decreases out@.len() - j,
        {
            j += 1;
        }
        proof {
            if j < out@.len() {
                lemma_entry_order_connected(out@[j as int]@, x@);
            }
            assert forall|k: int| j <= k < out@.len() implies entry_newer_eq(
                x@,
                (#[trigger] out@[k])@,
            ) by {
                lemma_entry_order_connected(out@[j as int]@, x@);
                if k > j {
                    lemma_entry_order_transitive(x@, out@[j as int]@, out@[k]@);
                }
            }
            assert forall|k: int| 0 <= k < out@.len() implies (#[trigger] out@[k])@.id != x@.id by {
                let l = choose|l: int| 0 <= l < idx && out@[k]@ == v@[l]@;
                assert(v@[l]@.id != v@[idx as int]@.id);
            }
        }
        out.insert(j, x);
        proof {
            lemma_config_views_insert(prev_out, j as int, v@[idx as int]@);
            crate::text::lemma_to_multiset_insert(config_views(prev_out), j as int, v@[idx as int]@);
            assert(config_views(v@.subrange(0, idx as int + 1)) =~= config_views(
                v@.subrange(0, idx as int),
            ).push(v@[idx as int]@));
            broadcast use vstd::seq_lib::group_to_multiset_ensures;

        }
        idx += 1;
    }
    proof {
        assert(v@.subrange(0, v@.len() as int) =~= v@);
    }
    out
}

/// Taking ghost values commutes with inserting a profile whose ghost value
/// is known.
proof fn lemma_config_views_insert(s: Seq<DatabaseConfig>, j: int, x: ConfigView)
    requires
        0 <= j <= s.len(),
    ensures
        forall|c: DatabaseConfig|
            c@ == x ==> config_views(s.insert(j, c)) =~= config_views(s).insert(j, x),
{
}

} // verus!
