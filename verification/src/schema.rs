//! The schema store: creates the five persistent tables if absent.

use vstd::prelude::*;
use crate::errors::CoreError;
use crate::guard::ConnectionGuard;
use crate::store::exec_schema;

verus! {

/// Creates the persistent tables if they are absent.  Idempotent and safe on
/// every startup: no table row is added or changed either way.  A failure is
/// surfaced for the caller to treat as fatal to startup.
pub fn ensure_schema(g: &mut ConnectionGuard) -> (r: Result<(), CoreError>)
    ensures
        !old(g).available() ==> (r matches Err(CoreError::LockUnavailable)) && *final(g) == *old(
            g,
        ),
        old(g).available() ==> {
            &&& final(g).available()
            &&& final(g).cycles() == old(g).cycles()
            &&& final(g).logs() == old(g).logs()
            &&& (r matches Err(e) ==> e is StoreExecutionFailure)
        },
{
    let mut conn = match g.acquire() {
        Ok(c) => c,
        Err(e) => {
            return Err(e);
        },
    };
    let r = exec_schema(&mut conn);
    g.release(conn);
    r
}

} // verus!
