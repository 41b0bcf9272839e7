//! The diet-cycle manager: creating cycles and finding the active one.
//!
//! A cycle is active while its end date is absent.  The active cycle is the
//! open cycle with the latest start date; two open cycles sharing a start
//! date are tie-broken towards the larger generated id (the most recently
//! inserted).  Creation never closes or checks an earlier cycle, so several
//! open cycles may coexist; the query simply picks the latest.

use vstd::prelude::*;
use crate::date::valid_date_text;
use crate::errors::CoreError;
use crate::guard::ConnectionGuard;
use crate::order::{lemma_lex_total, lex_lt, str_eq, str_lt};
use crate::store::{
    cycle_pairs_view, insert_cycle_row, open_cycles_of, select_open_cycle_rows, CycleRow,
};
use crate::tabs::DietPhase;

verus! {

/// Whether candidate `t` beats the current best `b` for the active-cycle
/// query: a strictly later start date wins, an equal start date with a
/// larger id wins.
pub open spec fn pair_wins(t: (int, Seq<char>), b: (int, Seq<char>)) -> bool {
    lex_lt(b.1, t.1) || (b.1 == t.1 && b.0 < t.0)
}

/// The winning (id, start_date) among the open-cycle pairs, if any.
pub open spec fn best_open(s: Seq<(int, Seq<char>)>) -> Option<(int, Seq<char>)>
    decreases s.len(),
{
    if s.len() == 0 {
        None
    } else {
        let rest = best_open(s.drop_last());
        let t = s.last();
        match rest {
            None => Some(t),
            Some(b) => if pair_wins(t, b) {
                Some(t)
            } else {
                Some(b)
            },
        }
    }
}

/// The id of the active cycle the table rows determine, if any.
pub open spec fn active_of(cycles: Seq<CycleRow>) -> Option<int> {
    match best_open(open_cycles_of(cycles)) {
        None => None,
        Some(b) => Some(b.0),
    }
}

/// An `Option<i64>` as the spec speaks of it.
pub open spec fn opt_id_view(a: Option<i64>) -> Option<int> {
    match a {
        Some(v) => Some(v as int),
        None => None,
    }
}

/// Appending a row extends the open projection exactly when the row is open.
proof fn lemma_open_cycles_push(s: Seq<CycleRow>, r: CycleRow)
    ensures
        r.2 ==> open_cycles_of(s.push(r)) == open_cycles_of(s).push((r.0, r.1)),
        !r.2 ==> open_cycles_of(s.push(r)) == open_cycles_of(s),
{
    assert(s.push(r).drop_last() =~= s);
    assert(s.push(r).last() == r);
}

/// Every id and start date that `best_open` can report comes from some open
/// row, so bounds that hold of all open rows hold of the winner.
proof fn lemma_best_open_bound(cycles: Seq<CycleRow>, id: int, start: Seq<char>)
    requires
        forall|i: int| 0 <= i < cycles.len() ==> (#[trigger] cycles[i]).0 < id,
        forall|i: int|
            0 <= i < cycles.len() ==> ((#[trigger] cycles[i]).2 ==> !lex_lt(start, cycles[i].1)),
    ensures
        match best_open(open_cycles_of(cycles)) {
            Some(b) => b.0 < id && !lex_lt(start, b.1),
            None => true,
        },
    decreases cycles.len(),
{
    if cycles.len() > 0 {
        let pre = cycles.drop_last();
        let r = cycles.last();
        assert(pre.push(r) =~= cycles);
        lemma_open_cycles_push(pre, r);
        assert(forall|i: int| 0 <= i < pre.len() ==> pre[i] == cycles[i]);
        lemma_best_open_bound(pre, id, start);
        if r.2 {
            let os = open_cycles_of(pre);
            assert(os.push((r.0, r.1)).drop_last() =~= os);
            assert(os.push((r.0, r.1)).last() == (r.0, r.1));
        }
    }
}

/// A just-created open cycle whose start date is not earlier than any open
/// cycle's start date, and whose id is fresh, is what the active-cycle query
/// then reports.  (If some open cycle starts strictly later, it, not the new
/// one, stays active.)
pub proof fn lemma_created_cycle_is_active(cycles: Seq<CycleRow>, id: int, start: Seq<char>)
    requires
        forall|i: int| 0 <= i < cycles.len() ==> (#[trigger] cycles[i]).0 < id,
        forall|i: int|
            0 <= i < cycles.len() ==> ((#[trigger] cycles[i]).2 ==> !lex_lt(start, cycles[i].1)),
    ensures
        active_of(cycles.push((id, start, true))) == Some(id),
{
    lemma_open_cycles_push(cycles, (id, start, true));
    lemma_best_open_bound(cycles, id, start);
    let os = open_cycles_of(cycles);
    let t = (id, start);
    assert(os.push(t).drop_last() =~= os);
    assert(os.push(t).last() == t);
    match best_open(os) {
        None => {},
        Some(b) => {
            if !lex_lt(b.1, start) {
                lemma_lex_total(start, b.1);
            }
            assert(pair_wins(t, b));
        },
    }
}

/// Creates a diet cycle.  Both date texts must parse as `YYYY-MM-DD`, or the
/// call fails with `InvalidDateFormat` and the store is untouched.  On
/// success the new row is open, carries the given start date, and its
/// generated id — the returned value, the new active cycle — is larger than
/// every id the table held.
pub fn create_cycle(
    g: &mut ConnectionGuard,
    phase: DietPhase,
    start_text: &str,
    end_text: &str,
) -> (r: Result<i64, CoreError>)
    ensures
        r matches Err(CoreError::InvalidDateFormat) <==> !(valid_date_text(start_text@)
            && valid_date_text(end_text@)),
        r matches Err(CoreError::LockUnavailable) <==> (valid_date_text(start_text@)
            && valid_date_text(end_text@) && !old(g).available()),
        !(valid_date_text(start_text@) && valid_date_text(end_text@)) ==> *final(g) == *old(g),
        !old(g).available() ==> *final(g) == *old(g),
        valid_date_text(start_text@) && valid_date_text(end_text@) && old(g).available() ==> {
            &&& final(g).available()
            &&& final(g).logs() == old(g).logs()
            &&& (r matches Ok(id) ==> {
                &&& id >= 1
                &&& forall|i: int|
                    0 <= i < old(g).cycles().len() ==> (#[trigger] old(g).cycles()[i]).0
                        < id as int
                &&& final(g).cycles() == old(g).cycles().push((id as int, start_text@, true))
            })
            &&& (r matches Err(e) ==> e is StoreExecutionFailure && final(g).cycles() == old(
                g,
            ).cycles())
        },
{
    if crate::date::parse_date(start_text).is_none() {
        return Err(CoreError::InvalidDateFormat);
    }
    if crate::date::parse_date(end_text).is_none() {
        return Err(CoreError::InvalidDateFormat);
    }
    let mut conn = match g.acquire() {
        Ok(c) => c,
        Err(e) => {
            return Err(e);
        },
    };
    let r = insert_cycle_row(&mut conn, phase.label(), start_text, end_text);
    g.release(conn);
    r
}

/// Reports the active cycle: the open row with the latest start date, ties
/// broken towards the larger id; nothing when no open row exists.  The store
/// is read, never changed.
pub fn active_cycle(g: &mut ConnectionGuard) -> (r: Result<Option<i64>, CoreError>)
    ensures
        !old(g).available() ==> (r matches Err(CoreError::LockUnavailable)) && *final(g) == *old(
            g,
        ),
        old(g).available() ==> {
            &&& final(g).available()
            &&& final(g).cycles() == old(g).cycles()
            &&& final(g).logs() == old(g).logs()
            &&& (r matches Ok(a) ==> opt_id_view(a) == active_of(old(g).cycles()))
            &&& (r matches Err(e) ==> (e is StorePrepareFailure || e is StoreExecutionFailure
                || e is RowDecodeFailure))
        },
{
    let conn = match g.acquire() {
        Ok(c) => c,
        Err(e) => {
            return Err(e);
        },
    };
    let fetched = select_open_cycle_rows(&conn);
    g.release(conn);
    let rows = match fetched {
        Ok(v) => v,
        Err(e) => {
            return Err(e);
        },
    };
    let ghost mv = cycle_pairs_view(rows@);
    let mut bi: usize = 0;
    let mut have = false;
    let mut i: usize = 0;
    while i < rows.len()
        invariant
            i <= rows.len(),
            mv == cycle_pairs_view(rows@),
            mv.len() == rows@.len(),
            !have ==> i == 0,
            have ==> bi < i && best_open(mv.subrange(0, i as int)) == Some(mv[bi as int]),
        decreases rows.len() - i,
    {
        proof {
            assert(mv.subrange(0, i + 1).drop_last() =~= mv.subrange(0, i as int));
            assert(mv.subrange(0, i + 1).last() == mv[i as int]);
            assert(mv[i as int] == (rows@[i as int].0 as int, rows@[i as int].1@));
        }
        if !have {
            bi = i;
            have = true;
        } else {
            proof {
                assert(mv[bi as int] == (rows@[bi as int].0 as int, rows@[bi as int].1@));
            }
            let wins = str_lt(rows[bi].1.as_str(), rows[i].1.as_str()) || (str_eq(
                rows[bi].1.as_str(),
                rows[i].1.as_str(),
            ) && rows[bi].0 < rows[i].0);
            if wins {
                bi = i;
            }
        }
        i = i + 1;
    }
    proof {
        assert(mv.subrange(0, rows@.len() as int) =~= mv);
    }
    if have {
        Ok(Some(rows[bi].0))
    } else {
        Ok(None)
    }
}

} // verus!
