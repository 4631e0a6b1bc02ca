use vstd::prelude::*;

use crate::migration::SqlExecutor;
use crate::model::{has_version, ledger_sorted, RecordModel};
use crate::store::{MigrationRecord, MigrationStore};

verus! {

#[verifier::external_type_specification]
#[verifier::external_body]
pub struct ExConnection(rusqlite::Connection);

/// The rows of a connection's `_migrations` tracking table, ascending by
/// version, or the empty sequence while the table does not exist.  A version
/// is stored as the signed 64-bit value with the same two's-complement bits
/// and read back as unsigned, a one-to-one mapping, and the table is keyed by
/// the stored value, so the sequence is strictly ascending.  The runner
/// assumes external exclusivity: a concurrent writer on the same database is
/// the caller's responsibility to exclude.
pub uninterp spec fn db_records(conn: rusqlite::Connection) -> Seq<RecordModel>;

/// The SQL batches handed to a connection so far, oldest first, whether or
/// not each succeeded: the connection's execution history.
pub uninterp spec fn db_log(conn: rusqlite::Connection) -> Seq<Seq<char>>;

/// SQLite execution context wrapping a connection: the concrete binding of
/// the `SqlExecutor` capability.
pub struct SqliteContext {
    conn: rusqlite::Connection,
}

impl SqliteContext {
    /// Open a SQLite database at this path, tuned for migration work.
    /// Relies on rusqlite's `Connection::open` and `Connection::execute_batch`.
    #[verifier::external_body]
    pub fn open(path: &str) -> Result<SqliteContext, crate::error::Error> {
        let conn = rusqlite::Connection::open(path).map_err(|e| crate::error::Error::Store(e.to_string()))?;
        conn.execute_batch(
            "PRAGMA journal_mode=WAL;
             PRAGMA synchronous=NORMAL;
             PRAGMA foreign_keys=ON;",
        ).map_err(|e| crate::error::Error::Store(e.to_string()))?;
        Ok(SqliteContext { conn })
    }

    /// Open an in-memory SQLite database.
    /// Relies on rusqlite's `Connection::open_in_memory`.
    #[verifier::external_body]
    pub fn open_in_memory() -> Result<SqliteContext, crate::error::Error> {
        let conn = rusqlite::Connection::open_in_memory().map_err(
            |e| crate::error::Error::Store(e.to_string()),
        )?;
        Ok(SqliteContext { conn })
    }

    /// The underlying connection.
    pub fn connection(&self) -> &rusqlite::Connection {
        &self.conn
    }

    /// Mutable access to the underlying connection.
    pub fn connection_mut(&mut self) -> &mut rusqlite::Connection {
        &mut self.conn
    }

    /// Consume the context and return the underlying connection.
    pub fn into_connection(self) -> rusqlite::Connection {
        self.conn
    }

    /// Run a statement batch, reporting a failure as its message.  Relies on
    /// rusqlite's `Connection::execute_batch`: the whole batch is handed to
    /// the wrapped connection, extending its execution history by it.
    #[verifier::external_body]
    fn exec_batch(&mut self, sql: &str) -> (r: Result<(), String>)
        ensures
            db_log(final(self).conn) == db_log(old(self).conn).push(sql@),
    {
        self.conn.execute_batch(sql).map_err(|e| e.to_string())
    }
}

impl SqlExecutor for SqliteContext {
    closed spec fn log(&self) -> Seq<Seq<char>> {
        db_log(self.conn)
    }

    fn execute(&mut self, sql: &str) -> (r: Result<(), String>) {
        self.exec_batch(sql)
    }
}

/// SQLite-backed migration store: the durable ledger lives in a
/// `_migrations` table keyed by version.
pub struct SqliteStore {
    conn: rusqlite::Connection,
}

impl SqliteStore {
    /// Open a SQLite database at this path for migration tracking.
    /// Relies on rusqlite's `Connection::open` and `Connection::execute_batch`;
    /// the tracking table, if present, is keyed by the stored version, so the
    /// unsigned versions its rows encode are unique and read back strictly
    /// ascending.
    #[verifier::external_body]
    pub fn open(path: &str) -> (r: Result<SqliteStore, crate::error::Error>)
        ensures
            r matches Ok(s) ==> ledger_sorted(s.ledger()),
            r matches Err(e) ==> e is Store,
    {
        let go = || -> Result<SqliteStore, rusqlite::Error> {
            let conn = rusqlite::Connection::open(path)?;
            conn.execute_batch("PRAGMA journal_mode=WAL;\n PRAGMA synchronous=NORMAL;")?;
            Ok(SqliteStore { conn })
        };
        go().map_err(|e| crate::error::Error::Store(e.to_string()))
    }

    /// Open an in-memory SQLite database: its ledger starts empty.
    /// Relies on rusqlite's `Connection::open_in_memory`.
    #[verifier::external_body]
    pub fn open_in_memory() -> (r: Result<SqliteStore, crate::error::Error>)
        ensures
            r matches Ok(s) ==> s.ledger() == Seq::<RecordModel>::empty(),
            r matches Err(e) ==> e is Store,
    {
        let r = rusqlite::Connection::open_in_memory();
        match r {
            Ok(conn) => Ok(SqliteStore { conn }),
            Err(e) => Err(crate::error::Error::Store(e.to_string())),
        }
    }

    /// The underlying connection.
    pub fn connection(&self) -> &rusqlite::Connection {
        &self.conn
    }

    /// Consume the store and return the underlying connection.
    pub fn into_connection(self) -> rusqlite::Connection {
        self.conn
    }

    /// Create the tracking table if it does not exist; the recorded rows are
    /// untouched either way.  Relies on rusqlite's `Connection::execute_batch`
    /// running `CREATE TABLE IF NOT EXISTS`.
    #[verifier::external_body]
    fn init_raw(&mut self) -> (r: Result<(), String>)
        ensures
            db_records(final(self).conn) == db_records(old(self).conn),
    {
        self.conn.execute_batch(
            "CREATE TABLE IF NOT EXISTS _migrations (
                version INTEGER PRIMARY KEY,
                name TEXT NOT NULL,
                applied_at INTEGER NOT NULL
            );",
        ).map_err(|e| e.to_string())
    }

    /// Read all recorded rows, ascending by the unsigned version that the
    /// stored signed value encodes: non-negative stored values first, then
    /// negative ones, each group in stored order.  Relies on rusqlite's
    /// `Connection::prepare` and `Statement::query_map`.
    #[verifier::external_body]
    fn applied_raw(&self) -> (r: Result<Vec<MigrationRecord>, String>)
        ensures
            r matches Ok(v) ==> v@.map_values(|rec: MigrationRecord| rec@) == db_records(
                self.conn,
            ),
    {
        let go = || -> Result<Vec<MigrationRecord>, rusqlite::Error> {
            let mut stmt = self.conn.prepare(
                "SELECT version, name, applied_at FROM _migrations ORDER BY (version < 0), version",
            )?;
            let rows = stmt.query_map([], |row| {
                Ok(MigrationRecord {
                    version: row.get::<_, i64>(0)? as u64,
                    name: row.get(1)?,
                    applied_at: row.get::<_, i64>(2)? as u64,
                })
            })?;
            rows.collect()
        };
        go().map_err(|e| e.to_string())
    }

    /// Insert one row, the version stored as its two's-complement signed
    /// equivalent, stamped with the wall clock (epoch seconds, 0 when the
    /// clock cannot be read).  Relies on rusqlite's `Connection::execute`:
    /// the insert fails on a duplicate version (the table is keyed by the
    /// stored value, and storing is one-to-one), and a failed statement
    /// changes no rows.
    #[verifier::external_body]
    fn insert_raw(&mut self, version: u64, name: &str) -> (r: Result<(), String>)
        ensures
            ledger_sorted(db_records(final(self).conn)),
            r is Ok ==> !has_version(db_records(old(self).conn), version) && (exists|
                i: int,
                t: u64,
            |
                0 <= i <= db_records(old(self).conn).len() && db_records(final(self).conn)
                    == db_records(old(self).conn).insert(
                    i,
                    (RecordModel { version, name: name@, applied_at: t }),
                )),
            r is Err ==> db_records(final(self).conn) == db_records(old(self).conn),
            has_version(db_records(old(self).conn), version) ==> r is Err,
    {
        let now = std::time::SystemTime::now()
            .duration_since(std::time::UNIX_EPOCH)
            .map(|d| d.as_secs())
            .unwrap_or(0);
        let sql = "INSERT INTO _migrations (version, name, applied_at) VALUES (?1, ?2, ?3)";
        match self.conn.execute(sql, (version as i64, name, now as i64)) {
            Ok(_) => Ok(()),
            Err(e) => Err(e.to_string()),
        }
    }

    /// Delete the row of one version (matched through its stored signed
    /// equivalent, a one-to-one mapping), returning how many rows went (0 or
    /// 1, the table being keyed by the stored value).  Relies on rusqlite's
    /// `Connection::execute`: a failed statement changes no rows.
    #[verifier::external_body]
    fn delete_raw(&mut self, version: u64) -> (r: Result<usize, String>)
        ensures
            ledger_sorted(db_records(final(self).conn)),
            r matches Ok(n) ==> (has_version(db_records(old(self).conn), version) ==> n == 1 && (
            exists|i: int|
                0 <= i < db_records(old(self).conn).len() && db_records(old(self).conn)[i].version
                    == version && db_records(final(self).conn) == db_records(
                    old(self).conn,
                ).remove(i))) && (!has_version(db_records(old(self).conn), version) ==> n == 0
                && db_records(final(self).conn) == db_records(old(self).conn)),
            r is Err ==> db_records(final(self).conn) == db_records(old(self).conn),
    {
        self.conn.execute("DELETE FROM _migrations WHERE version = ?1", (version as i64,)).map_err(
            |e| e.to_string(),
        )
    }
}

impl MigrationStore for SqliteStore {
    closed spec fn ledger(&self) -> Seq<RecordModel> {
        db_records(self.conn)
    }

    fn init(&mut self) -> (r: Result<(), crate::error::Error>) {
        match self.init_raw() {
            Ok(()) => Ok(()),
            Err(e) => Err(crate::error::Error::Store(e)),
        }
    }

    fn applied(&self) -> (r: Result<Vec<MigrationRecord>, crate::error::Error>) {
        match self.applied_raw() {
            Ok(v) => Ok(v),
            Err(e) => Err(crate::error::Error::Store(e)),
        }
    }

    fn mark_applied(&mut self, version: u64, name: &str) -> (r: Result<(), crate::error::Error>) {
        match self.insert_raw(version, name) {
            Ok(()) => Ok(()),
            Err(e) => Err(crate::error::Error::Store(e)),
        }
    }

    fn mark_rolled_back(&mut self, version: u64) -> (r: Result<(), crate::error::Error>) {
        match self.delete_raw(version) {
            Ok(n) => {
                if n == 0 {
                    Err(crate::error::Error::store("no record for this version exists".to_owned()))
                } else {
                    Ok(())
                }
            },
            Err(e) => Err(crate::error::Error::Store(e)),
        }
    }

    fn current_version(&self) -> (r: Result<u64, crate::error::Error>) {
        let v = match self.applied_raw() {
            Ok(v) => v,
            Err(e) => {
                return Err(crate::error::Error::Store(e));
            },
        };
        if v.len() == 0 {
            Ok(0)
        } else {
            Ok(v[v.len() - 1].version)
        }
    }
}

} // verus!
