//! The durable backend: one table per allow-listed queue in an embedded
//! SQL engine.
//!
//! Each table is keyed on `(datetime, datetime_secondary)`; an absent
//! secondary timestamp is stored as the reserved minimum sentinel, which
//! compares below every real value, so the engine's ascending order agrees
//! with the key order where an absent secondary sorts first. The sentinel
//! is truly reserved: a put whose item carries it as a real secondary
//! timestamp is rejected before anything reaches the engine, the same as
//! on the volatile backend. Rows carry an
//! active flag; a delete marks the minimum-key active row inactive and
//! returns it in one statement, so two concurrent deletes can never take
//! the same row. All statement text is built at startup from validated
//! queue names — request-time input never reaches the statement text.
//! What the engine does on disk stands behind small trusted wrappers; the
//! statement construction, the sentinel encoding, the row decoding, and
//! the error mapping are verified.

use vstd::prelude::*;
use vstd::string::StringExecFns;
use crate::config::AppConfig;
use crate::item::{ItemModel, QueueItem, key_lt, valid_item};
use crate::names::{
    has_name,
    lemma_has_name_push,
    lemma_has_name_take,
    sanitize_queue_name,
    str_eq,
    table_name_of,
    valid_queue_name,
};
use crate::storage::{Storage, StorageError, StorageResult};
use rusqlite::OptionalExtension;

verus! {

/// The engine's connection type, declared for use in signatures.
#[verifier::external_type_specification]
#[verifier::external_body]
pub struct ExConnection(rusqlite::Connection);

/// The engine's error type, declared for use in signatures.
#[verifier::external_type_specification]
#[verifier::external_body]
pub struct ExRusqliteError(rusqlite::Error);

// ---------------------------------------------------------------------
// The sentinel encoding of the optional secondary timestamp
// ---------------------------------------------------------------------
/// The reserved value standing for an absent secondary timestamp: the
/// minimum, below every real timestamp.
pub const ABSENT_SENTINEL: i64 = i64::MIN;

/// The stored column value of an optional secondary timestamp.
pub open spec fn enc_sec(o: Option<int>) -> int {
    match o {
        None => i64::MIN as int,
        Some(s) => s,
    }
}

/// The optional secondary timestamp a stored column value denotes.
pub open spec fn dec_sec(v: int) -> Option<int> {
    if v == i64::MIN as int {
        None
    } else {
        Some(v)
    }
}

/// Encodes an optional secondary timestamp for storage.
pub fn encode_secondary(o: Option<i64>) -> (r: i64)
    ensures
        r as int == enc_sec(
            match o {
                None => None,
                Some(s) => Some(s as int),
            },
        ),
{
    match o {
        None => ABSENT_SENTINEL,
        Some(s) => s,
    }
}

/// Decodes a stored column value back to an optional secondary timestamp.
pub fn decode_secondary(v: i64) -> (r: Option<i64>)
    ensures
        (match r {
            None => None,
            Some(s) => Some(s as int),
        }) == dec_sec(v as int),
{
    if v == ABSENT_SENTINEL {
        None
    } else {
        Some(v)
    }
}

/// The sentinel round trip: decoding an encoded secondary gives it back,
/// for every value but the reserved sentinel itself.
pub proof fn lemma_sentinel_round_trip(o: Option<int>)
    requires
        o != Some(i64::MIN as int),
    ensures
        dec_sec(enc_sec(o)) == o,
{
}

/// The engine's ascending order over encoded keys is exactly the item
/// key order: primary first, then the secondary with absent — stored as
/// the sentinel — before every present value.
pub proof fn lemma_sentinel_orders(a: (int, Option<int>), b: (int, Option<int>))
    requires
        a.1 matches Some(x) ==> x > i64::MIN,
        b.1 matches Some(x) ==> x > i64::MIN,
    ensures
        key_lt(a, b) <==> (a.0 < b.0 || (a.0 == b.0 && enc_sec(a.1) < enc_sec(b.1))),
{
}

/// Builds the item a stored row denotes: the two key columns and the
/// message column, with the sentinel decoded away.
pub fn decode_row(primary: i64, secondary: i64, message: String) -> (r: QueueItem)
    ensures
        r@ == (ItemModel {
            datetime: primary as int,
            datetime_secondary: dec_sec(secondary as int),
            message: message@,
        }),
        r@.datetime_secondary != Some(i64::MIN as int),
{
    QueueItem { datetime: primary, datetime_secondary: decode_secondary(secondary), message }
}

// ---------------------------------------------------------------------
// Statement text, built once from validated names
// ---------------------------------------------------------------------
/// The statement that creates a queue's table.
pub open spec fn create_sql_of(table: Seq<char>) -> Seq<char> {
    "CREATE TABLE IF NOT EXISTS "@ + table
        + " (datetime BIGINT NOT NULL, datetime_secondary BIGINT NOT NULL DEFAULT -9223372036854775808, message TEXT NOT NULL DEFAULT '', valid INT2 NOT NULL DEFAULT 1, last_modified TIMESTAMP DEFAULT CURRENT_TIMESTAMP, PRIMARY KEY (datetime, datetime_secondary))"@
}

/// The statement that keeps a row's last-modified column fresh.
pub open spec fn trigger_sql_of(table: Seq<char>) -> Seq<char> {
    "CREATE TRIGGER IF NOT EXISTS update_"@ + table + "_timestamp AFTER UPDATE ON "@ + table
        + " BEGIN UPDATE "@ + table
        + " SET last_modified = CURRENT_TIMESTAMP WHERE datetime = NEW.datetime AND datetime_secondary = NEW.datetime_secondary; END;"@
}

/// The statement that indexes a table on the active flag and the key.
pub open spec fn index_sql_of(table: Seq<char>) -> Seq<char> {
    "CREATE INDEX IF NOT EXISTS idx_"@ + table + "_isvalid ON "@ + table
        + " (valid, datetime, datetime_secondary)"@
}

/// The statement that reads the minimum-key active row.
pub open spec fn get_sql_of(table: Seq<char>) -> Seq<char> {
    "SELECT datetime, datetime_secondary, message FROM "@ + table
        + " WHERE valid = 1 ORDER BY datetime ASC, datetime_secondary ASC LIMIT 1"@
}

/// The upsert statement keyed on the composite key.
pub open spec fn put_sql_of(table: Seq<char>) -> Seq<char> {
    "INSERT OR REPLACE INTO "@ + table
        + " (datetime, datetime_secondary, message) VALUES (?1, ?2, ?3)"@
}

/// The single statement that marks the minimum-key active row inactive
/// and returns its contents.
pub open spec fn delete_sql_of(table: Seq<char>) -> Seq<char> {
    "UPDATE "@ + table + " SET valid = 0 WHERE datetime = (SELECT datetime FROM "@ + table
        + " WHERE valid = 1 ORDER BY datetime ASC, datetime_secondary ASC LIMIT 1) AND datetime_secondary = (SELECT datetime_secondary FROM "@
        + table
        + " WHERE valid = 1 ORDER BY datetime ASC, datetime_secondary ASC LIMIT 1) RETURNING datetime, datetime_secondary, message"@
}

fn build_create_sql(table: &str) -> (r: String)
    ensures
        r@ == create_sql_of(table@),
{
    let mut s = String::from_str("CREATE TABLE IF NOT EXISTS ");
    s.append(table);
    s.append(
        " (datetime BIGINT NOT NULL, datetime_secondary BIGINT NOT NULL DEFAULT -9223372036854775808, message TEXT NOT NULL DEFAULT '', valid INT2 NOT NULL DEFAULT 1, last_modified TIMESTAMP DEFAULT CURRENT_TIMESTAMP, PRIMARY KEY (datetime, datetime_secondary))",
    );
    s
}

fn build_trigger_sql(table: &str) -> (r: String)
    ensures
        r@ == trigger_sql_of(table@),
{
    let mut s = String::from_str("CREATE TRIGGER IF NOT EXISTS update_");
    s.append(table);
    s.append("_timestamp AFTER UPDATE ON ");
    s.append(table);
    s.append(" BEGIN UPDATE ");
    s.append(table);
    s.append(
        " SET last_modified = CURRENT_TIMESTAMP WHERE datetime = NEW.datetime AND datetime_secondary = NEW.datetime_secondary; END;",
    );
    s
}

fn build_index_sql(table: &str) -> (r: String)
    ensures
        r@ == index_sql_of(table@),
{
    let mut s = String::from_str("CREATE INDEX IF NOT EXISTS idx_");
    s.append(table);
    s.append("_isvalid ON ");
    s.append(table);
    s.append(" (valid, datetime, datetime_secondary)");
    s
}

fn build_get_sql(table: &str) -> (r: String)
    ensures
        r@ == get_sql_of(table@),
{
    let mut s = String::from_str("SELECT datetime, datetime_secondary, message FROM ");
    s.append(table);
    s.append(" WHERE valid = 1 ORDER BY datetime ASC, datetime_secondary ASC LIMIT 1");
    s
}

fn build_put_sql(table: &str) -> (r: String)
    ensures
        r@ == put_sql_of(table@),
{
    let mut s = String::from_str("INSERT OR REPLACE INTO ");
    s.append(table);
    s.append(" (datetime, datetime_secondary, message) VALUES (?1, ?2, ?3)");
    s
}

fn build_delete_sql(table: &str) -> (r: String)
    ensures
        r@ == delete_sql_of(table@),
{
    let mut s = String::from_str("UPDATE ");
    s.append(table);
    s.append(" SET valid = 0 WHERE datetime = (SELECT datetime FROM ");
    s.append(table);
    s.append(
        " WHERE valid = 1 ORDER BY datetime ASC, datetime_secondary ASC LIMIT 1) AND datetime_secondary = (SELECT datetime_secondary FROM ",
    );
    s.append(table);
    s.append(
        " WHERE valid = 1 ORDER BY datetime ASC, datetime_secondary ASC LIMIT 1) RETURNING datetime, datetime_secondary, message",
    );
    s
}

// ---------------------------------------------------------------------
// The trusted wrappers around the engine
// ---------------------------------------------------------------------
/// Relies on rusqlite's `Connection::open`: opens or creates the database
/// at the path. What comes back depends on the disk, so nothing more is
/// stated.
#[verifier::external_body]
fn open_connection(path: &str) -> (r: Result<rusqlite::Connection, rusqlite::Error>) {
    rusqlite::Connection::open(path)
}

/// Relies on rusqlite's `Connection::pragma_update`: sets the named
/// pragma to the value on the main database.
#[verifier::external_body]
fn pragma_update(conn: &rusqlite::Connection, name: &str, value: &str) -> (r: Result<
    (),
    rusqlite::Error,
>) {
    conn.pragma_update(None, name, value)
}

/// Relies on rusqlite's `Connection::busy_timeout`: makes the engine wait
/// up to the given milliseconds for a locked database before failing. The
/// call panics when the milliseconds do not fit a signed 32-bit count, so
/// larger values are excluded here.
#[verifier::external_body]
fn busy_timeout_ms(conn: &rusqlite::Connection, ms: u64) -> (r: Result<(), rusqlite::Error>)
    requires
        ms <= 0x7fff_ffff,
{
    conn.busy_timeout(std::time::Duration::from_millis(ms))
}

/// Relies on rusqlite's `Connection::execute`: runs the statement with no
/// parameters and returns how many rows changed.
#[verifier::external_body]
fn execute_sql(conn: &rusqlite::Connection, sql: &str) -> (r: Result<usize, rusqlite::Error>) {
    conn.execute(sql, [])
}

/// Relies on rusqlite's `Connection::execute`: runs the statement binding
/// the two key columns and the message to its three parameters.
#[verifier::external_body]
fn execute_put(
    conn: &rusqlite::Connection,
    sql: &str,
    primary: i64,
    secondary: i64,
    message: &str,
) -> (r: Result<usize, rusqlite::Error>) {
    conn.execute(sql, (primary, secondary, message))
}

/// Relies on rusqlite's `Connection::query_row`, `Row::get` and
/// `OptionalExtension::optional`: runs the statement and hands back the
/// first row's three columns, or `None` when no row comes back.
#[verifier::external_body]
fn query_first_row(conn: &rusqlite::Connection, sql: &str) -> (r: Result<
    Option<(i64, i64, String)>,
    rusqlite::Error,
>) {
    conn.query_row(sql, [], |row| Ok((row.get(0)?, row.get(1)?, row.get(2)?))).optional()
}

/// Relies on the engine error's `ToString::to_string` (through its
/// `Display`): renders the error's own description.
#[verifier::external_body]
pub(crate) fn rusqlite_error_text(e: &rusqlite::Error) -> (r: String) {
    e.to_string()
}

// ---------------------------------------------------------------------
// The backend
// ---------------------------------------------------------------------
/// One allow-listed queue's prepared statement text.
pub struct QueuePlan {
    pub name: String,
    pub get_sql: String,
    pub put_sql: String,
    pub delete_sql: String,
}

impl QueuePlan {
    /// A plan is built from a validated name, and its statement text is
    /// exactly the fixed templates around that name's table.
    pub open spec fn wf(&self) -> bool {
        &&& valid_queue_name(self.name@)
        &&& self.get_sql@ == get_sql_of(table_name_of(self.name@))
        &&& self.put_sql@ == put_sql_of(table_name_of(self.name@))
        &&& self.delete_sql@ == delete_sql_of(table_name_of(self.name@))
    }
}

/// The queue names of a list of plans.
pub open spec fn plan_names(plans: Seq<QueuePlan>) -> Seq<String> {
    plans.map_values(|p: QueuePlan| p.name)
}

/// The durable backend: a connection to the engine and one plan per
/// allow-listed queue.
pub struct SqliteStorage {
    conn: rusqlite::Connection,
    plans: Vec<QueuePlan>,
}

/// Finds the plan for the named queue, if any.
fn find_plan(plans: &Vec<QueuePlan>, q: &str) -> (r: Option<usize>)
    ensures
        match r {
            Some(i) => i < plans@.len() && plans@[i as int].name@ == q@,
            None => !has_name(plan_names(plans@), q@),
        },
{
    let mut i: usize = 0;
    while i < plans.len()
        invariant
            0 <= i <= plans@.len(),
            forall|j: int| 0 <= j < i ==> (#[trigger] plans@[j]).name@ != q@,
        decreases plans@.len() - i,
    {
        if str_eq(plans[i].name.as_str(), q) {
            return Some(i);
        }
        i += 1;
    }
    proof {
        if has_name(plan_names(plans@), q@) {
            let j = choose|j: int|
                0 <= j < plan_names(plans@).len() && (#[trigger] plan_names(plans@)[j])@ == q@;
            assert(plans@[j].name@ == q@);
        }
    }
    None
}

impl SqliteStorage {
    /// The backend's well-formedness: one plan per queue name, no name
    /// twice, every plan built from the fixed templates.
    pub closed spec fn wf(&self) -> bool {
        &&& forall|i: int, j: int|
            0 <= i < j < self.plans@.len() ==> (#[trigger] self.plans@[i]).name@ != (
            #[trigger] self.plans@[j]).name@
        &&& forall|i: int| 0 <= i < self.plans@.len() ==> (#[trigger] self.plans@[i]).wf()
    }

    /// The allow-list as a set of names.
    pub closed spec fn names_set(&self) -> Set<Seq<char>> {
        Set::new(|q: Seq<char>| has_name(plan_names(self.plans@), q))
    }

    /// Opens (or creates) the store, creates each allow-listed queue's
    /// table, trigger and index, and builds the statement text. Rejects a
    /// queue name that fails validation with `QueueNotFound`, exactly as
    /// the allow-list does at request time; fails with `Database` when
    /// the engine does. On success the backend serves exactly the
    /// configured names, every one of which is then known valid.
    pub fn new(config: &AppConfig) -> (r: StorageResult<SqliteStorage>)
        ensures
            r matches Ok(s) ==> s.wf(),
            r matches Ok(s) ==> forall|q: Seq<char>|
                s.names_set().contains(q) == has_name(config.queues@, q),
            r matches Ok(s) ==> forall|i: int|
                0 <= i < config.queues@.len() ==> valid_queue_name((#[trigger] config.queues@[i])@),
            r matches Err(StorageError::QueueNotFound(n)) ==> has_name(config.queues@, n@)
                && !valid_queue_name(n@),
            r is Err ==> (r matches Err(StorageError::QueueNotFound(_)) || r matches Err(
                StorageError::Database(_),
            )),
    {
        let conn = match open_connection(config.database_path.as_str()) {
            Ok(c) => c,
            Err(e) => {
                return Err(StorageError::Database(e));
            },
        };
        match pragma_update(&conn, "journal_mode", "WAL") {
            Ok(_) => {},
            Err(e) => {
                return Err(StorageError::Database(e));
            },
        }
        match pragma_update(&conn, "synchronous", "FULL") {
            Ok(_) => {},
            Err(e) => {
                return Err(StorageError::Database(e));
            },
        }
        match busy_timeout_ms(&conn, 5000) {
            Ok(_) => {},
            Err(e) => {
                return Err(StorageError::Database(e));
            },
        }
        let mut plans: Vec<QueuePlan> = Vec::new();
        let mut k: usize = 0;
        while k < config.queues.len()
            invariant
                0 <= k <= config.queues@.len(),
                forall|i: int, j: int|
                    0 <= i < j < plans@.len() ==> (#[trigger] plans@[i]).name@ != (
                    #[trigger] plans@[j]).name@,
                forall|i: int| 0 <= i < plans@.len() ==> (#[trigger] plans@[i]).wf(),
                forall|q: Seq<char>|
                    has_name(plan_names(plans@), q) == has_name(config.queues@.take(k as int), q),
                forall|i: int|
                    0 <= i < k ==> valid_queue_name((#[trigger] config.queues@[i])@),
            decreases config.queues@.len() - k,
        {
            let name = &config.queues[k];
            let table = match sanitize_queue_name(name.as_str()) {
                None => {
                    return Err(StorageError::QueueNotFound(name.clone()));
                },
                Some(t) => t,
            };
            match execute_sql(&conn, build_create_sql(table.as_str()).as_str()) {
                Ok(_) => {},
                Err(e) => {
                    return Err(StorageError::Database(e));
                },
            }
            match execute_sql(&conn, build_trigger_sql(table.as_str()).as_str()) {
                Ok(_) => {},
                Err(e) => {
                    return Err(StorageError::Database(e));
                },
            }
            match execute_sql(&conn, build_index_sql(table.as_str()).as_str()) {
                Ok(_) => {},
                Err(e) => {
                    return Err(StorageError::Database(e));
                },
            }
            let ghost names0 = plan_names(plans@);
            match find_plan(&plans, name.as_str()) {
                Some(_) => {
                    proof {
                        assert(has_name(names0, config.queues@[k as int]@)) by {
                            let i = choose|i: int|
                                0 <= i < plans@.len() && (#[trigger] plans@[i]).name@ == name@;
                            assert(plan_names(plans@)[i]@ == name@);
                        }
                        assert forall|q: Seq<char>|
                            has_name(plan_names(plans@), q) == has_name(
                                config.queues@.take(k as int + 1),
                                q,
                            ) by {
                            lemma_has_name_take(config.queues@, k as int, q);
                        }
                    }
                },
                None => {
                    let plan = QueuePlan {
                        name: name.clone(),
                        get_sql: build_get_sql(table.as_str()),
                        put_sql: build_put_sql(table.as_str()),
                        delete_sql: build_delete_sql(table.as_str()),
                    };
                    plans.push(plan);
                    proof {
                        assert(plan_names(plans@) =~= names0.push(
                            plans@.last().name,
                        ));
                        assert(plans@.last().name@ == config.queues@[k as int]@);
                        assert forall|i: int, j: int| 0 <= i < j < plans@.len() implies (
                        #[trigger] plans@[i]).name@ != (#[trigger] plans@[j]).name@ by {
                            if j == plans@.len() - 1 {
                                if plans@[i].name@ == plans@[j].name@ {
                                    assert(names0[i]@ == config.queues@[k as int]@);
                                    assert(has_name(names0, config.queues@[k as int]@));
                                }
                            }
                        }
                        assert forall|q: Seq<char>|
                            has_name(plan_names(plans@), q) == has_name(
                                config.queues@.take(k as int + 1),
                                q,
                            ) by {
                            lemma_has_name_take(config.queues@, k as int, q);
                            lemma_has_name_push(names0, plans@.last().name, q);
                        }
                    }
                },
            }
            k += 1;
        }
        let r = SqliteStorage { conn, plans };
        proof {
            assert(config.queues@.take(config.queues@.len() as int) =~= config.queues@);
        }
        Ok(r)
    }
}

impl Storage for SqliteStorage {
    open spec fn inv(&self) -> bool {
        self.wf()
    }

    open spec fn allowed(&self) -> Set<Seq<char>> {
        self.names_set()
    }

    open spec fn ops_succeed(&self) -> bool {
        false
    }

    open spec fn put_post(
        pre: Self,
        post: Self,
        queue: Seq<char>,
        item: ItemModel,
        r: StorageResult<()>,
    ) -> bool {
        match r {
            Ok(_) => pre.names_set().contains(queue) && valid_item(item),
            Err(e) => e is QueueNotFound || e is ValidationError || e is Database,
        }
    }

    open spec fn get_post(&self, queue: Seq<char>, r: StorageResult<Option<QueueItem>>) -> bool {
        match r {
            Ok(o) => self.names_set().contains(queue) && (match o {
                Some(it) => it@.datetime_secondary != Some(i64::MIN as int),
                None => true,
            }),
            Err(e) => e is QueueNotFound || e is Database,
        }
    }

    open spec fn delete_post(
        pre: Self,
        post: Self,
        queue: Seq<char>,
        r: StorageResult<Option<QueueItem>>,
    ) -> bool {
        match r {
            Ok(o) => pre.names_set().contains(queue) && (match o {
                Some(it) => it@.datetime_secondary != Some(i64::MIN as int),
                None => true,
            }),
            Err(e) => e is QueueNotFound || e is Database,
        }
    }

    fn put_item(&mut self, queue: &str, item: QueueItem) -> (r: StorageResult<()>) {
        match find_plan(&self.plans, queue) {
            None => Err(StorageError::QueueNotFound(String::from_str(queue))),
            Some(i) => {
                proof {
                    assert(has_name(plan_names(self.plans@), queue@)) by {
                        assert(plan_names(self.plans@)[i as int]@ == queue@);
                    }
                }
                if !item.is_storable() {
                    return Err(
                        StorageError::ValidationError(
                            String::from_str(
                                "the secondary timestamp holds the reserved minimum value",
                            ),
                        ),
                    );
                }
                let enc = encode_secondary(item.datetime_secondary);
                match execute_put(
                    &self.conn,
                    self.plans[i].put_sql.as_str(),
                    item.datetime,
                    enc,
                    item.message.as_str(),
                ) {
                    Ok(_) => Ok(()),
                    Err(e) => Err(StorageError::Database(e)),
                }
            },
        }
    }

    fn get_item(&self, queue: &str) -> (r: StorageResult<Option<QueueItem>>) {
        match find_plan(&self.plans, queue) {
            None => Err(StorageError::QueueNotFound(String::from_str(queue))),
            Some(i) => {
                proof {
                    assert(has_name(plan_names(self.plans@), queue@)) by {
                        assert(plan_names(self.plans@)[i as int]@ == queue@);
                    }
                }
                match query_first_row(&self.conn, self.plans[i].get_sql.as_str()) {
                    Ok(None) => Ok(None),
                    Ok(Some((p, s, m))) => Ok(Some(decode_row(p, s, m))),
                    Err(e) => Err(StorageError::Database(e)),
                }
            },
        }
    }

    fn delete_item(&mut self, queue: &str) -> (r: StorageResult<Option<QueueItem>>) {
        match find_plan(&self.plans, queue) {
            None => Err(StorageError::QueueNotFound(String::from_str(queue))),
            Some(i) => {
                proof {
                    assert(has_name(plan_names(self.plans@), queue@)) by {
                        assert(plan_names(self.plans@)[i as int]@ == queue@);
                    }
                }
                match query_first_row(&self.conn, self.plans[i].delete_sql.as_str()) {
                    Ok(None) => Ok(None),
                    Ok(Some((p, s, m))) => Ok(Some(decode_row(p, s, m))),
                    Err(e) => Err(StorageError::Database(e)),
                }
            },
        }
    }

    fn queue_exists(&self, queue: &str) -> (r: bool) {
        match find_plan(&self.plans, queue) {
            None => false,
            Some(i) => {
                proof {
                    assert(has_name(plan_names(self.plans@), queue@)) by {
                        assert(plan_names(self.plans@)[i as int]@ == queue@);
                    }
                }
                true
            },
        }
    }
}

} // verus!
