//! The trusted boundary to the SQLite store.
//!
//! Everything here is believed, not proved: each item's contract states what
//! the named `rusqlite` call does, as that crate's source and the SQLite
//! documentation describe it.  The rest of the crate only ever touches the
//! store through these functions, and always through the single connection
//! owned by [`crate::guard::ConnectionGuard`]; the store is never reached by
//! anyone else while this crate runs, which is what lets the two table
//! projections below be spoken of as functions of the connection.
//!
//! Row projections:
//! * a diet-cycle row is projected to `(id, start_date text, end date absent)`;
//! * a weight-log row is projected to `(id, diet_cycle_id, log_date text,
//!   weight as canonical decimal text)`.
//!
//! Both sequences list the rows in rowid order.  Weight values live in a REAL
//! column; this crate only ever writes them as canonical decimal texts with at
//! most seven integer and three fraction digits and a decimal point, and for
//! such values SQLite's text-to-real-to-text round trip reproduces the text
//! exactly (fifteen significant digits survive a binary64 round trip, and
//! SQLite prints reals with `%!.15g`, decimal point kept, trailing zeros
//! trimmed), which is what `CAST(weight_lbs AS TEXT)` relies on.

use vstd::prelude::*;
use crate::errors::CoreError;
use crate::weight::is_canonical_weight_text;

verus! {

#[verifier::external_type_specification]
#[verifier::external_body]
pub struct ExConnection(rusqlite::Connection);

/// A diet-cycle row: generated id, `start_date` text, and whether
/// `actual_end_date` is absent (the row is open).
pub type CycleRow = (int, Seq<char>, bool);

/// A weight-log row: generated id, `diet_cycle_id`, `log_date` text, and the
/// weight as canonical decimal text.
pub type LogRow = (int, int, Seq<char>, Seq<char>);

/// The diet-cycle rows the connection's store holds, in rowid order.
pub uninterp spec fn cycle_rows(c: rusqlite::Connection) -> Seq<CycleRow>;

/// The weight-log rows the connection's store holds, in rowid order.
pub uninterp spec fn log_rows(c: rusqlite::Connection) -> Seq<LogRow>;

/// The open cycle rows, projected to (id, start_date), in rowid order.
pub open spec fn open_cycles_of(s: Seq<CycleRow>) -> Seq<(int, Seq<char>)>
    decreases s.len(),
{
    if s.len() == 0 {
        Seq::empty()
    } else {
        let pre = open_cycles_of(s.drop_last());
        let r = s.last();
        if r.2 {
            pre.push((r.0, r.1))
        } else {
            pre
        }
    }
}

/// The weight-log rows of cycle `cy`, projected to (id, date, weight text),
/// in rowid order.
pub open spec fn logs_for_cycle(s: Seq<LogRow>, cy: int) -> Seq<(int, Seq<char>, Seq<char>)>
    decreases s.len(),
{
    if s.len() == 0 {
        Seq::empty()
    } else {
        let pre = logs_for_cycle(s.drop_last(), cy);
        let r = s.last();
        if r.1 == cy {
            pre.push((r.0, r.2, r.3))
        } else {
            pre
        }
    }
}

/// The view of fetched (id, start_date) pairs as the spec projection speaks
/// of them.
pub open spec fn cycle_pairs_view(v: Seq<(i64, String)>) -> Seq<(int, Seq<char>)> {
    v.map_values(|p: (i64, String)| (p.0 as int, p.1@))
}

/// The view of fetched (id, log_date, weight text) triples as the spec
/// projection speaks of them.
pub open spec fn log_triples_view(v: Seq<(i64, String, String)>) -> Seq<
    (int, Seq<char>, Seq<char>),
> {
    v.map_values(|p: (i64, String, String)| (p.0 as int, p.1@, p.2@))
}

/// The five persistent tables, created only if absent.
pub const SCHEMA_SQL: &'static str = "
    CREATE TABLE IF NOT EXISTS diet_cycles (
        id INTEGER PRIMARY KEY AUTOINCREMENT,
        phase TEXT NOT NULL,
        start_date TEXT NOT NULL,
        planned_end_date TEXT NOT NULL,
        actual_end_date TEXT,
        notes TEXT,
        created_at TEXT NOT NULL DEFAULT CURRENT_TIMESTAMP
    );
    CREATE TABLE IF NOT EXISTS weight_logs (
        id INTEGER PRIMARY KEY AUTOINCREMENT,
        diet_cycle_id INTEGER,
        log_date TEXT NOT NULL,
        weight_lbs REAL NOT NULL,
        created_at TEXT NOT NULL DEFAULT CURRENT_TIMESTAMP
    );
    CREATE TABLE IF NOT EXISTS exercises (
        id INTEGER PRIMARY KEY AUTOINCREMENT,
        name TEXT NOT NULL UNIQUE COLLATE NOCASE,
        description TEXT,
        default_metric_to_track TEXT,
        created_at TEXT NOT NULL DEFAULT CURRENT_TIMESTAMP
    );
    CREATE TABLE IF NOT EXISTS workout_sessions (
        id INTEGER PRIMARY KEY AUTOINCREMENT,
        session_date TEXT NOT NULL,
        notes TEXT,
        created_at TEXT NOT NULL DEFAULT CURRENT_TIMESTAMP
    );
    CREATE TABLE IF NOT EXISTS exercise_sets (
        id INTEGER PRIMARY KEY AUTOINCREMENT,
        workout_session_id INTEGER NOT NULL,
        exercise_id INTEGER NOT NULL,
        set_order INTEGER NOT NULL,
        reps INTEGER NOT NULL,
        weight_lbs REAL NOT NULL,
        rpe REAL,
        notes TEXT,
        created_at TEXT NOT NULL DEFAULT CURRENT_TIMESTAMP
    );
";

/// Relies on `rusqlite::Connection::execute_batch` running [`SCHEMA_SQL`]:
/// `CREATE TABLE IF NOT EXISTS` never adds, removes or changes a row, so both
/// table projections are untouched whether or not the call succeeds.
#[verifier::external_body]
pub(crate) fn exec_schema(c: &mut rusqlite::Connection) -> (r: Result<(), CoreError>)
    ensures
        cycle_rows(*final(c)) == cycle_rows(*old(c)),
        log_rows(*final(c)) == log_rows(*old(c)),
        r matches Err(e) ==> e is StoreExecutionFailure,
{
    match c.execute_batch(SCHEMA_SQL) {
        Ok(()) => Ok(()),
        Err(e) => Err(CoreError::StoreExecutionFailure(e.to_string())),
    }
}

/// Relies on `rusqlite::Connection::execute` running the INSERT and on
/// `Connection::last_insert_rowid` returning the rowid that INSERT generated:
/// on success exactly one open diet-cycle row is appended, and its
/// AUTOINCREMENT id is at least 1 and strictly greater than every id the
/// table has ever held; on failure nothing changes.
#[verifier::external_body]
pub(crate) fn insert_cycle_row(
    c: &mut rusqlite::Connection,
    phase: &str,
    start: &str,
    end: &str,
) -> (r: Result<i64, CoreError>)
    ensures
        r matches Ok(id) ==> {
            &&& id >= 1
            &&& forall|i: int|
                0 <= i < cycle_rows(*old(c)).len() ==> (#[trigger] cycle_rows(*old(c))[i]).0
                    < id as int
            &&& cycle_rows(*final(c)) == cycle_rows(*old(c)).push((id as int, start@, true))
            &&& log_rows(*final(c)) == log_rows(*old(c))
        },
        r is Err ==> cycle_rows(*final(c)) == cycle_rows(*old(c)) && log_rows(*final(c))
            == log_rows(*old(c)),
        r matches Err(e) ==> e is StoreExecutionFailure,
{
    let res = c.execute(
        "INSERT INTO diet_cycles (phase, start_date, planned_end_date) VALUES (?1, ?2, ?3)",
        (phase, start, end),
    );
    match res {
        Ok(_) => Ok(c.last_insert_rowid()),
        Err(e) => Err(CoreError::StoreExecutionFailure(e.to_string())),
    }
}

/// Relies on `rusqlite::Connection::execute` running the INSERT and on
/// `Connection::last_insert_rowid`, as for diet cycles.  The weight text must
/// be canonical so that the REAL column reproduces it (see the module note);
/// the log date is a TEXT column and is stored as given.
#[verifier::external_body]
pub(crate) fn insert_weight_row(
    c: &mut rusqlite::Connection,
    cycle: i64,
    date: &str,
    weight: &str,
) -> (r: Result<i64, CoreError>)
    requires
        is_canonical_weight_text(weight@),
    ensures
        r matches Ok(id) ==> {
            &&& id >= 1
            &&& forall|i: int|
                0 <= i < log_rows(*old(c)).len() ==> (#[trigger] log_rows(*old(c))[i]).0
                    < id as int
            &&& log_rows(*final(c)) == log_rows(*old(c)).push(
                (id as int, cycle as int, date@, weight@),
            )
            &&& cycle_rows(*final(c)) == cycle_rows(*old(c))
        },
        r is Err ==> cycle_rows(*final(c)) == cycle_rows(*old(c)) && log_rows(*final(c))
            == log_rows(*old(c)),
        r matches Err(e) ==> e is StoreExecutionFailure,
{
    let res = c.execute(
        "INSERT INTO weight_logs (diet_cycle_id, log_date, weight_lbs) VALUES (?1, ?2, ?3)",
        (cycle, date, weight),
    );
    match res {
        Ok(_) => Ok(c.last_insert_rowid()),
        Err(e) => Err(CoreError::StoreExecutionFailure(e.to_string())),
    }
}

/// Relies on `rusqlite::Connection::prepare`, `Statement::query_map` and the
/// row iterator: the SELECT returns exactly the open diet-cycle rows (those
/// with `actual_end_date` NULL) as (id, start_date), and `ORDER BY id` makes
/// that the rowid order, matching the projection.
#[verifier::external_body]
pub(crate) fn select_open_cycle_rows(c: &rusqlite::Connection) -> (r: Result<
    Vec<(i64, String)>,
    CoreError,
>)
    ensures
        r matches Ok(v) ==> cycle_pairs_view(v@) == open_cycles_of(cycle_rows(*c)),
        r matches Err(e) ==> (e is StorePrepareFailure || e is StoreExecutionFailure
            || e is RowDecodeFailure),
{
    let sql = "SELECT id, start_date FROM diet_cycles WHERE actual_end_date IS NULL ORDER BY id";
    let mut stmt = match c.prepare(sql) {
        Ok(s) => s,
        Err(e) => return Err(CoreError::StorePrepareFailure(e.to_string())),
    };
    let rows = match stmt.query_map((), |row| Ok((row.get(0)?, row.get(1)?))) {
        Ok(it) => it,
        Err(e) => return Err(CoreError::StoreExecutionFailure(e.to_string())),
    };
    let mut out = Vec::new();
    for row in rows {
        match row { Ok(p) => out.push(p), Err(e) => return Err(CoreError::RowDecodeFailure(e.to_string())) }
    }
    Ok(out)
}

/// Relies on `rusqlite::Connection::prepare`, `Statement::query_map` and the
/// row iterator: the SELECT returns exactly the weight-log rows of the given
/// cycle as (id, log_date, weight text), in rowid order (`ORDER BY id`),
/// matching the projection; the weight text comes from
/// `CAST(weight_lbs AS TEXT)` (see the module note on why that text is the
/// stored canonical text).
#[verifier::external_body]
pub(crate) fn select_log_rows(c: &rusqlite::Connection, cycle: i64) -> (r: Result<
    Vec<(i64, String, String)>,
    CoreError,
>)
    ensures
        r matches Ok(v) ==> log_triples_view(v@) == logs_for_cycle(log_rows(*c), cycle as int),
        r matches Err(e) ==> (e is StorePrepareFailure || e is StoreExecutionFailure
            || e is RowDecodeFailure),
{
    let sql = "SELECT id, log_date, CAST(weight_lbs AS TEXT) FROM weight_logs WHERE diet_cycle_id = ?1 ORDER BY id";
    let mut stmt = match c.prepare(sql) {
        Ok(s) => s,
        Err(e) => return Err(CoreError::StorePrepareFailure(e.to_string())),
    };
    let rows = match stmt.query_map((cycle,), |row| Ok((row.get(0)?, row.get(1)?, row.get(2)?))) {
        Ok(it) => it,
        Err(e) => return Err(CoreError::StoreExecutionFailure(e.to_string())),
    };
    let mut out = Vec::new();
    for row in rows {
        match row { Ok(p) => out.push(p), Err(e) => return Err(CoreError::RowDecodeFailure(e.to_string())) }
    }
    Ok(out)
}

} // verus!
