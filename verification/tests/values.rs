use lifemetrics::date::{date_before, parse_date, Date};
use lifemetrics::weight::parse_weight;

#[test]
fn parse_date_accepts_canonical_real_dates() {
    for (text, y, m, d) in [
        ("2024-03-01", 2024, 3, 1),
        ("2024-02-29", 2024, 2, 29),
        ("2000-02-29", 2000, 2, 29),
        ("0000-01-01", 0, 1, 1),
        ("9999-12-31", 9999, 12, 31),
        ("1900-02-28", 1900, 2, 28),
    ] {
        let date = parse_date(text).unwrap();
        assert_eq!((date.year, date.month, date.day), (y, m, d), "input {:?}", text);
    }
}

#[test]
fn parse_date_rejects_malformed_and_impossible_dates() {
    for text in [
        "",
        "13/40/2024",
        "2024-3-01",
        "2024-03-1",
        "2024-13-01",
        "2024-00-10",
        "2024-04-31",
        "2023-02-29",
        "1900-02-29",
        "2024-03-01 ",
        " 2024-03-01",
        "2024-03-0a",
        "24-03-01",
        "20240301",
    ] {
        assert!(parse_date(text).is_none(), "input {:?}", text);
    }
}

#[test]
fn parse_weight_reads_positive_decimals_in_thousandths() {
    for (text, milli) in [
        ("180.5", 180_500u64),
        ("180", 180_000),
        ("+2", 2_000),
        ("0.001", 1),
        ("0.125", 125),
        ("9999999.999", 9_999_999_999),
        ("007.50", 7_500),
    ] {
        let w = parse_weight(text).unwrap();
        assert_eq!(w.milli(), milli, "input {:?}", text);
    }
}

#[test]
fn parse_weight_rejects_non_numeric_and_non_positive() {
    for text in [
        "", "abc", "0", "0.000", "-1", "-0.5", "1e3", "NaN", "inf", ".5", "7.", "1.2.3",
        "12345678", "1.2345", " 180.5", "180.5 ", "+ 2",
    ] {
        assert!(parse_weight(text).is_none(), "input {:?}", text);
    }
}

#[test]
fn canonical_text_trims_to_store_form() {
    for (input, canonical) in [
        ("180.500", "180.5"),
        ("180", "180.0"),
        ("007.5", "7.5"),
        ("0.125", "0.125"),
        ("1.200", "1.2"),
        ("0.001", "0.001"),
    ] {
        let w = parse_weight(input).unwrap();
        assert_eq!(w.canonical_text(), canonical, "input {:?}", input);
    }
}

#[test]
fn date_before_orders_chronologically() {
    let a = parse_date("2023-12-31").unwrap();
    let b = parse_date("2024-01-01").unwrap();
    let c = parse_date("2024-01-02").unwrap();
    assert!(date_before(&a, &b));
    assert!(date_before(&b, &c));
    assert!(date_before(&a, &c));
    assert!(!date_before(&b, &a));
    assert!(!date_before(&b, &b));
}

#[test]
fn current_date_is_well_formed() {
    let today: Date = lifemetrics::clock::current_date().unwrap();
    assert!(today.year >= 2000 && today.year <= 9999);
    assert!((1..=12).contains(&today.month));
    assert!((1..=31).contains(&today.day));
}
