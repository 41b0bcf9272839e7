use lifemetrics::errors::CoreError;
use lifemetrics::guard::ConnectionGuard;
use lifemetrics::schema::ensure_schema;
use lifemetrics::tabs::DietPhase;
use lifemetrics::weights::RecentLogs;

fn mem_guard() -> ConnectionGuard {
    let conn = rusqlite::Connection::open_in_memory().unwrap();
    let mut g = ConnectionGuard::new(conn);
    ensure_schema(&mut g).unwrap();
    g
}

fn table_count(g: &mut ConnectionGuard, table: &str) -> i64 {
    let conn = g.acquire().unwrap();
    let n: i64 = conn
        .query_row(&format!("SELECT COUNT(*) FROM {}", table), [], |r| r.get(0))
        .unwrap();
    g.release(conn);
    n
}

fn view(cache: &RecentLogs) -> Vec<(u32, u32, u32, u64)> {
    let mut out = Vec::new();
    for i in 0..cache.len() {
        let e = cache.get(i);
        out.push((e.date.year, e.date.month, e.date.day, e.weight.milli()));
    }
    out
}

#[test]
fn create_then_active_returns_new_id() {
    let mut g = mem_guard();
    let id = lifemetrics::cycles::create_cycle(&mut g, DietPhase::Bulk, "2024-03-01", "2024-06-01")
        .unwrap();
    assert!(id >= 1);
    let active = lifemetrics::cycles::active_cycle(&mut g).unwrap();
    assert_eq!(active, Some(id));
}

#[test]
fn active_cycle_empty_store_is_none() {
    let mut g = mem_guard();
    assert_eq!(lifemetrics::cycles::active_cycle(&mut g).unwrap(), None);
}

#[test]
fn create_cycle_invalid_date_leaves_store_unchanged() {
    let mut g = mem_guard();
    let r = lifemetrics::cycles::create_cycle(&mut g, DietPhase::Cut, "13/40/2024", "2024-06-01");
    assert!(matches!(r, Err(CoreError::InvalidDateFormat)));
    let r = lifemetrics::cycles::create_cycle(&mut g, DietPhase::Cut, "", "");
    assert!(matches!(r, Err(CoreError::InvalidDateFormat)));
    let r = lifemetrics::cycles::create_cycle(&mut g, DietPhase::Cut, "2024-03-01", "2024-6-01");
    assert!(matches!(r, Err(CoreError::InvalidDateFormat)));
    assert_eq!(table_count(&mut g, "diet_cycles"), 0);
}

#[test]
fn log_weight_invalid_value_inserts_nothing() {
    let mut g = mem_guard();
    let mut cache = RecentLogs::new();
    let cy = lifemetrics::cycles::create_cycle(&mut g, DietPhase::Bulk, "2024-01-01", "2024-04-01")
        .unwrap();
    for bad in ["0", "-5", "abc", "", "0.000", "-0.5"] {
        let r = lifemetrics::weights::log_weight(&mut g, &mut cache, cy, "2024-01-02", bad);
        assert!(matches!(r, Err(CoreError::InvalidWeightValue)), "input {:?}", bad);
    }
    assert_eq!(table_count(&mut g, "weight_logs"), 0);
}

#[test]
fn log_weight_invalid_date_inserts_nothing() {
    let mut g = mem_guard();
    let mut cache = RecentLogs::new();
    let cy = lifemetrics::cycles::create_cycle(&mut g, DietPhase::Bulk, "2024-01-01", "2024-04-01")
        .unwrap();
    let r = lifemetrics::weights::log_weight(&mut g, &mut cache, cy, "01/02/2024", "180.5");
    assert!(matches!(r, Err(CoreError::InvalidDateFormat)));
    assert_eq!(table_count(&mut g, "weight_logs"), 0);
}

#[test]
fn refresh_twice_yields_identical_output() {
    let mut g = mem_guard();
    let mut cache = RecentLogs::new();
    let cy = lifemetrics::cycles::create_cycle(&mut g, DietPhase::Bulk, "2024-01-01", "2024-04-01")
        .unwrap();
    for (d, w) in [("2024-01-01", "180.5"), ("2024-01-05", "179.0"), ("2024-01-03", "181.2")] {
        lifemetrics::weights::log_weight(&mut g, &mut cache, cy, d, w).unwrap();
    }
    lifemetrics::weights::refresh_recent(&mut g, &mut cache, Some(cy)).unwrap();
    let first = view(&cache);
    lifemetrics::weights::refresh_recent(&mut g, &mut cache, Some(cy)).unwrap();
    let second = view(&cache);
    assert_eq!(first, second);
}

#[test]
fn logged_weight_round_trips_to_first_entry() {
    let mut g = mem_guard();
    let mut cache = RecentLogs::new();
    let cy = lifemetrics::cycles::create_cycle(&mut g, DietPhase::Bulk, "2024-01-01", "2024-06-01")
        .unwrap();
    lifemetrics::weights::log_weight(&mut g, &mut cache, cy, "2024-03-01", "180.5").unwrap();
    lifemetrics::weights::refresh_recent(&mut g, &mut cache, Some(cy)).unwrap();
    assert_eq!(cache.len(), 1);
    let e = cache.get(0);
    assert_eq!((e.date.year, e.date.month, e.date.day), (2024, 3, 1));
    assert_eq!(e.weight.milli(), 180_500);
}

#[test]
fn refresh_orders_by_date_descending() {
    let mut g = mem_guard();
    let mut cache = RecentLogs::new();
    let cy = lifemetrics::cycles::create_cycle(&mut g, DietPhase::Bulk, "2024-01-01", "2024-06-01")
        .unwrap();
    for (d, w) in [("2024-01-01", "180.0"), ("2024-01-05", "179.0"), ("2024-01-03", "181.0")] {
        lifemetrics::weights::log_weight(&mut g, &mut cache, cy, d, w).unwrap();
    }
    lifemetrics::weights::refresh_recent(&mut g, &mut cache, Some(cy)).unwrap();
    let days: Vec<u32> = (0..cache.len()).map(|i| cache.get(i).date.day).collect();
    assert_eq!(days, vec![5, 3, 1]);
}

#[test]
fn refresh_keeps_five_most_recent_of_seven() {
    let mut g = mem_guard();
    let mut cache = RecentLogs::new();
    let cy = lifemetrics::cycles::create_cycle(&mut g, DietPhase::Bulk, "2024-01-01", "2024-06-01")
        .unwrap();
    for day in 1..=7u32 {
        let date = format!("2024-02-{:02}", day);
        lifemetrics::weights::log_weight(&mut g, &mut cache, cy, &date, "150.0").unwrap();
    }
    lifemetrics::weights::refresh_recent(&mut g, &mut cache, Some(cy)).unwrap();
    assert_eq!(cache.len(), 5);
    let days: Vec<u32> = (0..cache.len()).map(|i| cache.get(i).date.day).collect();
    assert_eq!(days, vec![7, 6, 5, 4, 3]);
}

#[test]
fn same_date_latest_insert_wins_tie() {
    let mut g = mem_guard();
    let mut cache = RecentLogs::new();
    let cy = lifemetrics::cycles::create_cycle(&mut g, DietPhase::Bulk, "2024-01-01", "2024-06-01")
        .unwrap();
    lifemetrics::weights::log_weight(&mut g, &mut cache, cy, "2024-03-01", "180.0").unwrap();
    lifemetrics::weights::log_weight(&mut g, &mut cache, cy, "2024-03-01", "181.0").unwrap();
    lifemetrics::weights::refresh_recent(&mut g, &mut cache, Some(cy)).unwrap();
    assert_eq!(cache.len(), 2);
    assert_eq!(cache.get(0).weight.milli(), 181_000);
    assert_eq!(cache.get(1).weight.milli(), 180_000);
}

#[test]
fn refresh_without_active_cycle_clears_cache() {
    let mut g = mem_guard();
    let mut cache = RecentLogs::new();
    let cy = lifemetrics::cycles::create_cycle(&mut g, DietPhase::Bulk, "2024-01-01", "2024-06-01")
        .unwrap();
    lifemetrics::weights::log_weight(&mut g, &mut cache, cy, "2024-03-01", "180.5").unwrap();
    assert!(cache.len() > 0);
    lifemetrics::weights::refresh_recent(&mut g, &mut cache, None).unwrap();
    assert_eq!(cache.len(), 0);
}

#[test]
fn refresh_only_sees_requested_cycle() {
    let mut g = mem_guard();
    let mut cache = RecentLogs::new();
    let a = lifemetrics::cycles::create_cycle(&mut g, DietPhase::Bulk, "2024-01-01", "2024-06-01")
        .unwrap();
    let b = lifemetrics::cycles::create_cycle(&mut g, DietPhase::Cut, "2024-01-01", "2024-06-01")
        .unwrap();
    lifemetrics::weights::log_weight(&mut g, &mut cache, a, "2024-02-01", "150.0").unwrap();
    lifemetrics::weights::log_weight(&mut g, &mut cache, b, "2024-02-02", "160.0").unwrap();
    lifemetrics::weights::refresh_recent(&mut g, &mut cache, Some(a)).unwrap();
    assert_eq!(cache.len(), 1);
    assert_eq!(cache.get(0).weight.milli(), 150_000);
}

#[test]
fn most_recent_start_date_stays_active() {
    let mut g = mem_guard();
    let first = lifemetrics::cycles::create_cycle(&mut g, DietPhase::Bulk, "2024-05-01", "2024-08-01")
        .unwrap();
    let _second = lifemetrics::cycles::create_cycle(&mut g, DietPhase::Cut, "2024-01-01", "2024-04-01")
        .unwrap();
    // the earlier-dated cycle is open too, but the later start date wins
    assert_eq!(lifemetrics::cycles::active_cycle(&mut g).unwrap(), Some(first));
}

#[test]
fn equal_start_dates_tie_break_to_larger_id() {
    let mut g = mem_guard();
    let _first = lifemetrics::cycles::create_cycle(&mut g, DietPhase::Bulk, "2024-05-01", "2024-08-01")
        .unwrap();
    let second = lifemetrics::cycles::create_cycle(&mut g, DietPhase::Cut, "2024-05-01", "2024-09-01")
        .unwrap();
    assert_eq!(lifemetrics::cycles::active_cycle(&mut g).unwrap(), Some(second));
}

#[test]
fn lock_unavailable_when_connection_checked_out() {
    let mut g = mem_guard();
    let mut cache = RecentLogs::new();
    let conn = g.acquire().unwrap();
    let r = lifemetrics::cycles::create_cycle(&mut g, DietPhase::Bulk, "2024-01-01", "2024-04-01");
    assert!(matches!(r, Err(CoreError::LockUnavailable)));
    let r = lifemetrics::cycles::active_cycle(&mut g);
    assert!(matches!(r, Err(CoreError::LockUnavailable)));
    let r = lifemetrics::weights::log_weight(&mut g, &mut cache, 1, "2024-01-02", "180.0");
    assert!(matches!(r, Err(CoreError::LockUnavailable)));
    let r = lifemetrics::weights::refresh_recent(&mut g, &mut cache, Some(1));
    assert!(matches!(r, Err(CoreError::LockUnavailable)));
    g.release(conn);
    assert!(lifemetrics::cycles::active_cycle(&mut g).is_ok());
}

#[test]
fn missing_tables_surface_store_failures() {
    // a guard over a store whose schema was never created
    let conn = rusqlite::Connection::open_in_memory().unwrap();
    let mut g = ConnectionGuard::new(conn);
    let r = lifemetrics::cycles::create_cycle(&mut g, DietPhase::Bulk, "2024-01-01", "2024-04-01");
    assert!(matches!(r, Err(CoreError::StoreExecutionFailure(_))));
    let r = lifemetrics::cycles::active_cycle(&mut g);
    assert!(matches!(r, Err(CoreError::StorePrepareFailure(_))));
}

#[test]
fn unreadable_row_aborts_refresh_and_keeps_cache() {
    let mut g = mem_guard();
    let mut cache = RecentLogs::new();
    let cy = lifemetrics::cycles::create_cycle(&mut g, DietPhase::Bulk, "2024-01-01", "2024-06-01")
        .unwrap();
    lifemetrics::weights::log_weight(&mut g, &mut cache, cy, "2024-02-01", "150.0").unwrap();
    lifemetrics::weights::refresh_recent(&mut g, &mut cache, Some(cy)).unwrap();
    let before = view(&cache);
    assert_eq!(before.len(), 1);
    // write a row whose date text no refresh can decode
    let conn = g.acquire().unwrap();
    conn.execute(
        "INSERT INTO weight_logs (diet_cycle_id, log_date, weight_lbs) VALUES (?1, ?2, ?3)",
        (cy, "not-a-date", 1.0f64),
    )
    .unwrap();
    g.release(conn);
    let r = lifemetrics::weights::refresh_recent(&mut g, &mut cache, Some(cy));
    assert!(matches!(r, Err(CoreError::RowDecodeFailure(_))));
    assert_eq!(view(&cache), before);
}

#[test]
fn ensure_schema_is_idempotent() {
    let mut g = mem_guard();
    let id = lifemetrics::cycles::create_cycle(&mut g, DietPhase::Bulk, "2024-01-01", "2024-04-01")
        .unwrap();
    ensure_schema(&mut g).unwrap();
    assert_eq!(lifemetrics::cycles::active_cycle(&mut g).unwrap(), Some(id));
    assert_eq!(table_count(&mut g, "diet_cycles"), 1);
}

#[test]
fn stored_weight_text_round_trips_through_real_column() {
    let mut g = mem_guard();
    let mut cache = RecentLogs::new();
    let cy = lifemetrics::cycles::create_cycle(&mut g, DietPhase::Bulk, "2024-01-01", "2024-06-01")
        .unwrap();
    // non-canonical inputs: leading zeros, trailing zeros, no fraction;
    // plus the smallest and largest representable values
    for (input, milli) in [
        ("007.5", 7_500u64),
        ("180.500", 180_500),
        ("180", 180_000),
        ("0.125", 125),
        ("0.001", 1),
        ("9999999.999", 9_999_999_999),
    ] {
        lifemetrics::weights::log_weight(&mut g, &mut cache, cy, "2024-02-01", input).unwrap();
        lifemetrics::weights::refresh_recent(&mut g, &mut cache, Some(cy)).unwrap();
        assert_eq!(cache.get(0).weight.milli(), milli, "input {:?}", input);
    }
}

#[test]
fn weight_is_stored_as_a_real_number() {
    // the on-disk column keeps the numeric REAL form the schema promises
    let mut g = mem_guard();
    let mut cache = RecentLogs::new();
    let cy = lifemetrics::cycles::create_cycle(&mut g, DietPhase::Bulk, "2024-01-01", "2024-06-01")
        .unwrap();
    lifemetrics::weights::log_weight(&mut g, &mut cache, cy, "2024-03-01", "180.5").unwrap();
    let conn = g.acquire().unwrap();
    let stored: f64 = conn
        .query_row("SELECT weight_lbs FROM weight_logs WHERE diet_cycle_id = ?1", (cy,), |r| {
            r.get(0)
        })
        .unwrap();
    g.release(conn);
    assert_eq!(stored, 180.5);
}
