//! The weight-log synchronizer: inserting measurements and refreshing the
//! bounded recency view.
//!
//! The refreshed view holds at most the five most recent rows of the active
//! cycle, latest log date first, ties on a date broken towards the larger
//! generated id (the most recent insertion).  A refresh replaces the view in
//! full; any failure leaves the view exactly as it was.

use vstd::prelude::*;
use vstd::seq_lib::lemma_multiset_commutative;
use crate::date::{date_lt, date_of_text, parse_date, valid_date_text, Date};
use crate::errors::CoreError;
use crate::guard::ConnectionGuard;
use crate::store::{
    insert_weight_row, log_triples_view, logs_for_cycle, select_log_rows, LogRow,
};
use crate::weight::{
    canonical_weight_text, lemma_weight_eq, lemma_weight_from_milli, lemma_weight_text_roundtrip,
    parse_weight, weight_from_milli, weight_ok, weight_text_milli, Weight, MAX_WEIGHT_MILLI,
};

verus! {

/// One entry of the recency view: the row's generated id, its log date, and
/// its weight.
#[derive(Clone, Copy, PartialEq, Eq, Structural, Debug)]
pub struct Entry {
    pub id: i64,
    pub date: Date,
    pub weight: Weight,
}

/// What a fetched (id, date text, weight text) triple decodes to; nothing
/// when either text is unreadable or the id exceeds the fetched range.
pub open spec fn decode_triple(t: (int, Seq<char>, Seq<char>)) -> Option<Entry> {
    if valid_date_text(t.1) && weight_ok(t.2) && i64::MIN <= t.0 <= i64::MAX {
        Some(
            Entry {
                id: t.0 as i64,
                date: date_of_text(t.1),
                weight: weight_from_milli(weight_text_milli(t.2).unwrap()),
            },
        )
    } else {
        None
    }
}

/// Whether every triple decodes.
pub open spec fn all_decodable(rows: Seq<(int, Seq<char>, Seq<char>)>) -> bool {
    forall|i: int| 0 <= i < rows.len() ==> decode_triple(#[trigger] rows[i]) is Some
}

/// The decoded entries, meaningful only under [`all_decodable`].
pub open spec fn decode_all(rows: Seq<(int, Seq<char>, Seq<char>)>) -> Seq<Entry> {
    rows.map_values(|t: (int, Seq<char>, Seq<char>)| decode_triple(t).unwrap())
}

/// Recency order: `a` is no more recent than `b` — an earlier date, or the
/// same date with a smaller or equal id.
pub open spec fn entry_le(a: Entry, b: Entry) -> bool {
    date_lt(a.date, b.date) || (a.date == b.date && a.id <= b.id)
}

/// Latest first: every later element is no more recent than every earlier one.
pub open spec fn sorted_desc(s: Seq<Entry>) -> bool {
    forall|i: int, j: int| 0 <= i < j < s.len() ==> entry_le(#[trigger] s[j], #[trigger] s[i])
}

/// `x` inserted into the descending sequence `s`, before the first element
/// it is at least as recent as.
pub open spec fn insert_desc(x: Entry, s: Seq<Entry>) -> Seq<Entry>
    decreases s.len(),
{
    if s.len() == 0 {
        seq![x]
    } else if entry_le(s[0], x) {
        seq![x] + s
    } else {
        seq![s[0]] + insert_desc(x, s.drop_first())
    }
}

/// `s` sorted latest-first by insertion.
pub open spec fn sort_desc(s: Seq<Entry>) -> Seq<Entry>
    decreases s.len(),
{
    if s.len() == 0 {
        Seq::empty()
    } else {
        insert_desc(s.last(), sort_desc(s.drop_last()))
    }
}

/// The first five elements, or all of them when there are fewer.
pub open spec fn first_five(s: Seq<Entry>) -> Seq<Entry> {
    if s.len() <= 5 {
        s
    } else {
        s.take(5)
    }
}

/// What a refresh computes for cycle `cy` from the store's weight-log rows:
/// the cycle's rows decoded, ordered latest first, cut to five.
pub open spec fn recent_of(logs: Seq<LogRow>, cy: int) -> Seq<Entry> {
    first_five(sort_desc(decode_all(logs_for_cycle(logs, cy))))
}

proof fn lemma_entry_le_total(a: Entry, b: Entry)
    ensures
        entry_le(a, b) || entry_le(b, a),
{
}

proof fn lemma_entry_le_trans(a: Entry, b: Entry, c: Entry)
    requires
        entry_le(a, b),
        entry_le(b, c),
    ensures
        entry_le(a, c),
{
}

/// Inserting into a descending sequence keeps it descending, adds one to the
/// length, and adds exactly the new element to the contents.
proof fn lemma_insert_desc_props(x: Entry, s: Seq<Entry>)
    requires
        sorted_desc(s),
    ensures
        sorted_desc(insert_desc(x, s)),
        insert_desc(x, s).len() == s.len() + 1,
        insert_desc(x, s).to_multiset() == s.to_multiset().insert(x),
    decreases s.len(),
{
    broadcast use vstd::seq_lib::group_to_multiset_ensures;

    if s.len() == 0 {
        let r = insert_desc(x, s);
        assert(r =~= Seq::<Entry>::empty().push(x));
        assert(s =~= Seq::<Entry>::empty());
        assert(r.to_multiset() =~= s.to_multiset().insert(x));
    } else if entry_le(s[0], x) {
        let r = seq![x] + s;
        assert forall|i: int, j: int| 0 <= i < j < r.len() implies entry_le(r[j], r[i]) by {
            if i == 0 {
                if j > 1 {
                    lemma_entry_le_trans(r[j], s[0], x);
                }
            }
        }
        lemma_multiset_commutative(seq![x], s);
        assert(seq![x] =~= Seq::<Entry>::empty().push(x));
        assert(r.to_multiset() =~= s.to_multiset().insert(x));
    } else {
        let tail = s.drop_first();
        assert(forall|k: int| 0 <= k < tail.len() ==> #[trigger] tail[k] == s[k + 1]);
        lemma_insert_desc_props(x, tail);
        let rest = insert_desc(x, tail);
        let r = seq![s[0]] + rest;
        assert(insert_desc(x, s) == r);
        // every element of rest is x or an element of tail, so none beats s[0]
        assert forall|j: int| 0 <= j < rest.len() implies entry_le(rest[j], s[0]) by {
            assert(rest.contains(rest[j]));
            assert(rest.to_multiset().count(rest[j]) > 0);
            assert(tail.to_multiset().insert(x).count(rest[j]) > 0);
            if rest[j] == x {
                lemma_entry_le_total(s[0], x);
            } else {
                assert(tail.to_multiset().count(rest[j]) > 0);
                assert(tail.contains(rest[j]));
                let k = choose|k: int| 0 <= k < tail.len() && tail[k] == rest[j];
                assert(entry_le(s[k + 1], s[0]));
            }
        }
        assert forall|i: int, j: int| 0 <= i < j < r.len() implies entry_le(r[j], r[i]) by {
            if i == 0 {
                assert(r[j] == rest[j - 1]);
            } else {
                assert(r[i] == rest[i - 1] && r[j] == rest[j - 1]);
            }
        }
        lemma_multiset_commutative(seq![s[0]], rest);
        lemma_multiset_commutative(seq![s[0]], tail);
        assert(seq![s[0]] + tail =~= s);
        assert(seq![s[0]].to_multiset().add(tail.to_multiset()) == s.to_multiset());
        assert(r.to_multiset() =~= s.to_multiset().insert(x));
    }
}

/// Sorting yields a descending sequence with exactly the input's contents.
pub proof fn lemma_sort_desc_props(s: Seq<Entry>)
    ensures
        sorted_desc(sort_desc(s)),
        sort_desc(s).len() == s.len(),
        sort_desc(s).to_multiset() == s.to_multiset(),
    decreases s.len(),
{
    broadcast use vstd::seq_lib::group_to_multiset_ensures;

    if s.len() == 0 {
    } else {
        let pre = s.drop_last();
        lemma_sort_desc_props(pre);
        lemma_insert_desc_props(s.last(), sort_desc(pre));
        assert(pre.push(s.last()) =~= s);
        assert(s.to_multiset() == pre.to_multiset().insert(s.last()));
    }
}

/// The elements the insertion sort hands back all come from its input.
proof fn lemma_sort_desc_element_from(s: Seq<Entry>, j: int) -> (k: int)
    requires
        0 <= j < sort_desc(s).len(),
    ensures
        0 <= k < s.len(),
        s[k] == sort_desc(s)[j],
{
    broadcast use vstd::seq_lib::group_to_multiset_ensures;

    lemma_sort_desc_props(s);
    let e = sort_desc(s)[j];
    assert(sort_desc(s).contains(e));
    assert(sort_desc(s).to_multiset().count(e) > 0);
    assert(s.contains(e));
    choose|k: int| 0 <= k < s.len() && s[k] == e
}

/// Appending a store row extends the cycle projection exactly when the row
/// belongs to the cycle.
proof fn lemma_logs_for_cycle_push(s: Seq<LogRow>, r: LogRow, cy: int)
    ensures
        r.1 == cy ==> logs_for_cycle(s.push(r), cy) == logs_for_cycle(s, cy).push((r.0, r.2, r.3)),
        r.1 != cy ==> logs_for_cycle(s.push(r), cy) == logs_for_cycle(s, cy),
{
    assert(s.push(r).drop_last() =~= s);
    assert(s.push(r).last() == r);
}

/// An id bound on all store rows carries to the cycle projection.
proof fn lemma_logs_for_cycle_ids(logs: Seq<LogRow>, cy: int, id: int)
    requires
        forall|i: int| 0 <= i < logs.len() ==> (#[trigger] logs[i]).0 < id,
    ensures
        forall|k: int|
            0 <= k < logs_for_cycle(logs, cy).len() ==> (#[trigger] logs_for_cycle(logs, cy)[k]).0
                < id,
    decreases logs.len(),
{
    if logs.len() > 0 {
        let pre = logs.drop_last();
        assert(forall|i: int| 0 <= i < pre.len() ==> #[trigger] pre[i] == logs[i]);
        lemma_logs_for_cycle_ids(pre, cy, id);
        lemma_logs_for_cycle_push(pre, logs.last(), cy);
        assert(pre.push(logs.last()) =~= logs);
    }
}

/// The recency view consumed by the UI: replaced in full by a refresh,
/// never mutated in place.
pub struct RecentLogs {
    entries: Vec<Entry>,
}

impl View for RecentLogs {
    type V = Seq<Entry>;

    closed spec fn view(&self) -> Seq<Entry> {
        self.entries@
    }
}

impl RecentLogs {
    /// An empty view.
    pub fn new() -> (c: Self)
        ensures
            c@ == Seq::<Entry>::empty(),
    {
        RecentLogs { entries: Vec::new() }
    }

    /// How many entries the view holds (never more than five after a
    /// successful refresh).
    pub fn len(&self) -> (n: usize)
        ensures
            n == self@.len(),
    {
        self.entries.len()
    }

    /// Whether the view is empty.
    pub fn is_empty(&self) -> (b: bool)
        ensures
            b == (self@.len() == 0),
    {
        self.entries.len() == 0
    }

    /// The entry at position `i` (latest first).
    pub fn get(&self, i: usize) -> (e: Entry)
        requires
            i < self@.len(),
        ensures
            e == self@[i as int],
    {
        self.entries[i]
    }

    fn replace(&mut self, v: Vec<Entry>)
        ensures
            final(self)@ == v@,
    {
        self.entries = v;
    }

    fn clear_entries(&mut self)
        ensures
            final(self)@ == Seq::<Entry>::empty(),
    {
        self.entries.clear();
    }
}

impl Default for RecentLogs {
    fn default() -> (c: Self)
        ensures
            c@ == Seq::<Entry>::empty(),
    {
        RecentLogs::new()
    }
}

/// Recency comparison of two entries.
fn entry_le_exec(a: &Entry, b: &Entry) -> (r: bool)
    ensures
        r == entry_le(*a, *b),
{
    if crate::date::date_before(&a.date, &b.date) {
        true
    } else if a.date == b.date {
        a.id <= b.id
    } else {
        false
    }
}

/// Inserting before the first element `x` is at least as recent as lands at
/// exactly the position the specification's insertion names.
proof fn lemma_insert_desc_at(x: Entry, s: Seq<Entry>, j: int)
    requires
        0 <= j <= s.len(),
        forall|k: int| 0 <= k < j ==> !entry_le(#[trigger] s[k], x),
        j < s.len() ==> entry_le(s[j], x),
    ensures
        insert_desc(x, s) == s.insert(j, x),
    decreases j,
{
    if s.len() == 0 {
        assert(s.insert(0, x) =~= seq![x]);
    } else if j == 0 {
        assert(entry_le(s[0], x));
        assert(seq![x] + s =~= s.insert(0, x));
    } else {
        assert(!entry_le(s[0], x));
        let tail = s.drop_first();
        assert(forall|k: int| 0 <= k < tail.len() ==> #[trigger] tail[k] == s[k + 1]);
        lemma_insert_desc_at(x, tail, j - 1);
        assert(seq![s[0]] + tail.insert(j - 1, x) =~= s.insert(j, x));
    }
}

fn insert_entry(v: &mut Vec<Entry>, x: Entry)
    ensures
        final(v)@ == insert_desc(x, old(v)@),
{
    let mut j: usize = 0;
    while j < v.len() && !entry_le_exec(&v[j], &x)
        invariant
            j <= v@.len(),
            v@ == old(v)@,
            forall|k: int| 0 <= k < j ==> !entry_le(#[trigger] v@[k], x),
        decreases v@.len() - j,
    {
        j = j + 1;
    }
    proof {
        lemma_insert_desc_at(x, v@, j as int);
    }
    v.insert(j, x);
}

fn sort_entries(v: &Vec<Entry>) -> (r: Vec<Entry>)
    ensures
        r@ == sort_desc(v@),
{
    let mut out: Vec<Entry> = Vec::new();
    let mut i: usize = 0;
    proof {
        assert(v@.subrange(0, 0) =~= Seq::<Entry>::empty());
    }
    while i < v.len()
        invariant
            i <= v@.len(),
            out@ == sort_desc(v@.subrange(0, i as int)),
        decreases v@.len() - i,
    {
        let x = v[i];
        insert_entry(&mut out, x);
        i = i + 1;
        proof {
            let cur = v@.subrange(0, i as int);
            assert(cur.drop_last() =~= v@.subrange(0, i - 1));
            assert(cur.last() == v@[i - 1]);
        }
    }
    proof {
        assert(v@.subrange(0, v@.len() as int) =~= v@);
    }
    out
}

/// Decodes one fetched row.
fn decode_row(id: i64, date_text: &str, weight_text: &str) -> (r: Option<Entry>)
    ensures
        r == decode_triple((id as int, date_text@, weight_text@)),
{
    let d = match parse_date(date_text) {
        Some(d) => d,
        None => {
            return None;
        },
    };
    let w = match parse_weight(weight_text) {
        Some(w) => w,
        None => {
            return None;
        },
    };
    proof {
        let m = weight_text_milli(weight_text@).unwrap();
        lemma_weight_from_milli(m);
        lemma_weight_eq(w, weight_from_milli(m));
    }
    Some(Entry { id, date: d, weight: w })
}

/// Replaces the recency view in full with up to five rows of cycle
/// `active`, latest log date first, ties towards the larger id.  With no
/// active cycle the view is cleared without touching the store.  On any
/// failure — lock, store, or an unreadable row — the view keeps its last
/// successfully fetched contents.
#[verifier::loop_isolation(false)]
pub fn refresh_recent(
    g: &mut ConnectionGuard,
    cache: &mut RecentLogs,
    active: Option<i64>,
) -> (r: Result<(), CoreError>)
    ensures
        active is None ==> r is Ok && final(cache)@ == Seq::<Entry>::empty() && *final(g) == *old(
            g,
        ),
        active matches Some(cy) ==> {
            &&& (!old(g).available() ==> (r matches Err(CoreError::LockUnavailable)) && *final(g)
                == *old(g) && *final(cache) == *old(cache))
            &&& (old(g).available() ==> {
                &&& final(g).available()
                &&& final(g).cycles() == old(g).cycles()
                &&& final(g).logs() == old(g).logs()
                &&& (r is Ok ==> all_decodable(logs_for_cycle(old(g).logs(), cy as int))
                    && final(cache)@ == recent_of(old(g).logs(), cy as int))
                &&& (r is Err ==> *final(cache) == *old(cache))
                &&& (r matches Err(e) ==> (e is StorePrepareFailure || e is StoreExecutionFailure
                    || e is RowDecodeFailure))
            })
        },
{
    let cy = match active {
        None => {
            cache.clear_entries();
            return Ok(());
        },
        Some(cy) => cy,
    };
    let conn = match g.acquire() {
        Ok(c) => c,
        Err(e) => {
            return Err(e);
        },
    };
    let fetched = select_log_rows(&conn, cy);
    g.release(conn);
    let rows = match fetched {
        Ok(v) => v,
        Err(e) => {
            return Err(e);
        },
    };
    let ghost m = log_triples_view(rows@);
    let mut entries: Vec<Entry> = Vec::new();
    let mut i: usize = 0;
    while i < rows.len()
        invariant
            i <= rows@.len(),
            m == log_triples_view(rows@),
            m.len() == rows@.len(),
            entries@.len() == i,
            forall|k: int|
                0 <= k < i ==> decode_triple(#[trigger] m[k]) is Some && entries@[k]
                    == decode_triple(m[k]).unwrap(),
        decreases rows@.len() - i,
    {
        proof {
            assert(m[i as int] == (rows@[i as int].0 as int, rows@[i as int].1@, rows@[
                i as int
            ].2@));
        }
        let row = &rows[i];
        let e = match decode_row(row.0, row.1.as_str(), row.2.as_str()) {
            Some(e) => e,
            None => {
                return Err(
                    CoreError::RowDecodeFailure(String::from_str("unreadable weight log row")),
                );
            },
        };
        entries.push(e);
        i = i + 1;
    }
    proof {
        assert(all_decodable(m));
        assert(entries@ =~= decode_all(m));
    }
    let mut sorted = sort_entries(&entries);
    if sorted.len() > 5 {
        sorted.truncate(5);
    }
    proof {
        assert(sorted@ == first_five(sort_desc(decode_all(m))));
    }
    cache.replace(sorted);
    Ok(())
}

/// Logs one measurement for cycle `cycle` and refreshes the recency view.
/// A non-numeric or non-positive weight fails with `InvalidWeightValue`, a
/// malformed date with `InvalidDateFormat`, each before any store access.
/// On success one row is appended, carrying the given date, the weight's
/// value in canonical text, and a fresh id larger than every id the table
/// held; the view is then refreshed for the cycle.  A failure after the
/// insert leaves the row in place and the view untouched.
pub fn log_weight(
    g: &mut ConnectionGuard,
    cache: &mut RecentLogs,
    cycle: i64,
    date_text: &str,
    weight_text: &str,
) -> (r: Result<(), CoreError>)
    ensures
        (r matches Err(CoreError::InvalidWeightValue)) <==> !weight_ok(weight_text@),
        (r matches Err(CoreError::InvalidDateFormat)) <==> (weight_ok(weight_text@)
            && !valid_date_text(date_text@)),
        (r matches Err(CoreError::LockUnavailable)) <==> (weight_ok(weight_text@)
            && valid_date_text(date_text@) && !old(g).available()),
        !(weight_ok(weight_text@) && valid_date_text(date_text@) && old(g).available())
            ==> *final(g) == *old(g) && *final(cache) == *old(cache),
        weight_ok(weight_text@) && valid_date_text(date_text@) && old(g).available() ==> {
            &&& final(g).available()
            &&& final(g).cycles() == old(g).cycles()
            &&& (r is Ok ==> {
                &&& exists|id: int|
                    final(g).logs() == #[trigger] old(g).logs().push(
                        (
                            id,
                            cycle as int,
                            date_text@,
                            canonical_weight_text(weight_text_milli(weight_text@).unwrap()),
                        ),
                    ) && (forall|i: int|
                        0 <= i < old(g).logs().len() ==> (#[trigger] old(g).logs()[i]).0 < id)
                &&& final(cache)@ == recent_of(final(g).logs(), cycle as int)
            })
            &&& (r is Err ==> *final(cache) == *old(cache) && (final(g).logs() == old(g).logs()
                || (exists|id: int|
                final(g).logs() == #[trigger] old(g).logs().push(
                    (
                        id,
                        cycle as int,
                        date_text@,
                        canonical_weight_text(weight_text_milli(weight_text@).unwrap()),
                    ),
                ))))
            &&& (r matches Err(e) ==> (e is StorePrepareFailure || e is StoreExecutionFailure
                || e is RowDecodeFailure))
        },
{
    let w = match parse_weight(weight_text) {
        Some(w) => w,
        None => {
            return Err(CoreError::InvalidWeightValue);
        },
    };
    if parse_date(date_text).is_none() {
        return Err(CoreError::InvalidDateFormat);
    }
    let mut conn = match g.acquire() {
        Ok(c) => c,
        Err(e) => {
            return Err(e);
        },
    };
    let wt = w.canonical_text();
    let res = insert_weight_row(&mut conn, cycle, date_text, wt.as_str());
    g.release(conn);
    match res {
        Ok(_id) => refresh_recent(g, cache, Some(cycle)),
        Err(e) => Err(e),
    }
}

/// Idempotence: the refreshed view is a function of the store rows alone,
/// so two refreshes with no intervening insert yield identical views.
pub proof fn lemma_refresh_idempotent(
    logs: Seq<LogRow>,
    cy: int,
    first: Seq<Entry>,
    second: Seq<Entry>,
)
    requires
        first == recent_of(logs, cy),
        second == recent_of(logs, cy),
    ensures
        first == second,
{
}

/// Recency ordering: the refreshed view is latest-first, ties on a date
/// towards the larger id.
pub proof fn lemma_recent_sorted(logs: Seq<LogRow>, cy: int)
    ensures
        sorted_desc(recent_of(logs, cy)),
{
    let s = sort_desc(decode_all(logs_for_cycle(logs, cy)));
    lemma_sort_desc_props(decode_all(logs_for_cycle(logs, cy)));
    assert forall|i: int, j: int| 0 <= i < j < first_five(s).len() implies entry_le(
        first_five(s)[j],
        first_five(s)[i],
    ) by {
        assert(first_five(s)[i] == s[i] && first_five(s)[j] == s[j]);
    }
}

/// Bound: the refreshed view is the first-five prefix of the full
/// latest-first ordering of the cycle's rows — exactly five entries when
/// the cycle has at least five rows, all of them otherwise.
pub proof fn lemma_recent_bound(logs: Seq<LogRow>, cy: int)
    ensures
        recent_of(logs, cy) == first_five(sort_desc(decode_all(logs_for_cycle(logs, cy)))),
        sort_desc(decode_all(logs_for_cycle(logs, cy))).len() == logs_for_cycle(logs, cy).len(),
        sort_desc(decode_all(logs_for_cycle(logs, cy))).to_multiset() == decode_all(
            logs_for_cycle(logs, cy),
        ).to_multiset(),
        recent_of(logs, cy).len() == if logs_for_cycle(logs, cy).len() <= 5 {
            logs_for_cycle(logs, cy).len() as int
        } else {
            5int
        },
{
    lemma_sort_desc_props(decode_all(logs_for_cycle(logs, cy)));
}

/// Round trip: a measurement logged under a fresh id with a date no earlier
/// than any of its cycle's dates heads the next refreshed view, with
/// exactly its date and value.
pub proof fn lemma_latest_log_first(logs: Seq<LogRow>, cy: int, id: int, date: Seq<char>, m: int)
    requires
        all_decodable(logs_for_cycle(logs, cy)),
        valid_date_text(date),
        0 < m <= MAX_WEIGHT_MILLI,
        1 <= id <= i64::MAX,
        forall|i: int| 0 <= i < logs.len() ==> (#[trigger] logs[i]).0 < id,
        forall|k: int|
            0 <= k < logs_for_cycle(logs, cy).len() ==> !date_lt(
                date_of_text(date),
                date_of_text((#[trigger] logs_for_cycle(logs, cy)[k]).1),
            ),
    ensures
        ({
            let new_logs = logs.push((id, cy, date, canonical_weight_text(m)));
            &&& all_decodable(logs_for_cycle(new_logs, cy))
            &&& recent_of(new_logs, cy).len() >= 1
            &&& recent_of(new_logs, cy)[0] == Entry {
                id: id as i64,
                date: date_of_text(date),
                weight: weight_from_milli(m),
            }
        }),
{
    let mrows = logs_for_cycle(logs, cy);
    let newrow = (id, cy, date, canonical_weight_text(m));
    lemma_logs_for_cycle_push(logs, newrow, cy);
    let m2 = logs_for_cycle(logs.push(newrow), cy);
    assert(m2 == mrows.push((id, date, canonical_weight_text(m))));
    lemma_weight_text_roundtrip(m);
    let x = Entry { id: id as i64, date: date_of_text(date), weight: weight_from_milli(m) };
    assert(decode_triple((id, date, canonical_weight_text(m))) == Some(x));
    assert(forall|k: int| 0 <= k < mrows.len() ==> #[trigger] m2[k] == mrows[k]);
    assert(all_decodable(m2));
    let d = decode_all(mrows);
    let d2 = decode_all(m2);
    assert(d2 =~= d.push(x));
    assert(d.push(x).drop_last() =~= d);
    assert(d.push(x).last() == x);
    lemma_sort_desc_props(d);
    lemma_logs_for_cycle_ids(logs, cy, id);
    let sorted = sort_desc(d);
    assert(sort_desc(d2) == insert_desc(x, sorted));
    if sorted.len() == 0 {
        assert(insert_desc(x, sorted) =~= seq![x]);
    } else {
        let k = lemma_sort_desc_element_from(d, 0);
        let t = mrows[k];
        let e = decode_triple(t).unwrap();
        assert(d[k] == e);
        assert(e == sorted[0]);
        assert(e.id as int == t.0);
        assert(e.date == date_of_text(t.1));
        assert(!date_lt(x.date, e.date));
        assert(entry_le(e, x)) by {
            if e.date != x.date {
                assert(date_lt(e.date, x.date));
            }
        }
        assert(insert_desc(x, sorted) == seq![x] + sorted);
        assert((seq![x] + sorted)[0] == x);
    }
    assert(recent_of(logs.push(newrow), cy)[0] == x);
}

} // verus!
