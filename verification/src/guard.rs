//! The connection guard: the single owner of the shared store connection.
//!
//! Every core operation must check the connection out, run its one store
//! round-trip, and check it back in.  While one operation holds the
//! connection, no other can acquire it; acquisition of an absent connection
//! fails with [`CoreError::LockUnavailable`] and changes nothing.  The raw
//! connection is never exposed except through [`ConnectionGuard::acquire`].

use vstd::prelude::*;
use crate::errors::CoreError;
use crate::store::{cycle_rows, log_rows, CycleRow, LogRow};

verus! {

/// Owns the one store connection, or nothing while it is checked out.
pub struct ConnectionGuard {
    slot: Option<rusqlite::Connection>,
}

impl ConnectionGuard {
    /// Whether the connection is present, so that an operation can acquire it.
    pub closed spec fn available(&self) -> bool {
        self.slot is Some
    }

    /// The diet-cycle rows of the guarded store.
    pub closed spec fn cycles(&self) -> Seq<CycleRow> {
        cycle_rows(self.slot.unwrap())
    }

    /// The weight-log rows of the guarded store.
    pub closed spec fn logs(&self) -> Seq<LogRow> {
        log_rows(self.slot.unwrap())
    }

    /// Takes ownership of the store connection.
    pub fn new(conn: rusqlite::Connection) -> (g: Self)
        ensures
            g.available(),
            g.cycles() == cycle_rows(conn),
            g.logs() == log_rows(conn),
    {
        ConnectionGuard { slot: Some(conn) }
    }

    /// Checks the connection out for one operation.  Fails with
    /// `LockUnavailable`, leaving the guard untouched, exactly when the
    /// connection is already checked out.
    pub fn acquire(&mut self) -> (r: Result<rusqlite::Connection, CoreError>)
        ensures
            old(self).available() ==> {
                &&& r is Ok
                &&& !final(self).available()
                &&& (r matches Ok(conn) ==> cycle_rows(conn) == old(self).cycles() && log_rows(
                    conn,
                ) == old(self).logs())
            },
            !old(self).available() ==> {
                &&& r matches Err(e) && e is LockUnavailable
                &&& *final(self) == *old(self)
            },
    {
        match self.slot.take() {
            Some(conn) => Ok(conn),
            None => Err(CoreError::LockUnavailable),
        }
    }

    /// Checks the connection back in.
    pub fn release(&mut self, conn: rusqlite::Connection)
        ensures
            final(self).available(),
            final(self).cycles() == cycle_rows(conn),
            final(self).logs() == log_rows(conn),
    {
        self.slot = Some(conn);
    }
}

} // verus!
