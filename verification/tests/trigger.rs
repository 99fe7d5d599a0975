use cronserve::parse::{parse_trigger, TriggerError};
use cronserve::time::civil_from_days;
use cronserve::trigger::Trigger;

fn parsed(expr: &str) -> Trigger {
    parse_trigger(expr.as_bytes()).expect("expression should parse")
}

#[test]
fn calendar_epoch_and_leap_years() {
    let d = civil_from_days(0);
    assert_eq!((d.year, d.month, d.day), (1970, 1, 1));
    // 1970 is not a leap year: day 59 is March 1st.
    let d = civil_from_days(59);
    assert_eq!((d.year, d.month, d.day), (1970, 3, 1));
    // 1972 is a leap year: day 789 is February 29th.
    let d = civil_from_days(789);
    assert_eq!((d.year, d.month, d.day), (1972, 2, 29));
    let d = civil_from_days(790);
    assert_eq!((d.year, d.month, d.day), (1972, 3, 1));
}

#[test]
fn fourth_second_matches_exactly_seconds_four() {
    // Trigger parse scenario: "4 * * * * *" matches exactly the
    // instants whose seconds component is 4.
    let t = parsed("4 * * * * *");
    for at in 0u64..180 {
        assert_eq!(t.matches_at(at), at % 60 == 4, "at {}", at);
    }
}

#[test]
fn full_wildcard_matches_every_instant() {
    let t = parsed("* * * * * *");
    for at in 0u64..120 {
        assert!(t.matches_at(at));
    }
    assert!(t.matches_at(68_169_600)); // 1972-02-29 00:00:00
}

#[test]
fn ranges_and_steps() {
    let t = parsed("10-20 * * * * *");
    for at in 0u64..60 {
        assert_eq!(t.matches_at(at), (10..=20).contains(&at));
    }
    let t = parsed("*/15 * * * * *");
    for at in 0u64..60 {
        assert_eq!(t.matches_at(at), at % 15 == 0);
    }
    let t = parsed("10-20/5 * * * * *");
    for at in 0u64..60 {
        assert_eq!(t.matches_at(at), at == 10 || at == 15 || at == 20);
    }
    let t = parsed("1,2,30-31 * * * * *");
    for at in 0u64..60 {
        assert_eq!(t.matches_at(at), at == 1 || at == 2 || at == 30 || at == 31);
    }
}

#[test]
fn minute_and_hour_fields() {
    let t = parsed("0 30 * * * *");
    assert!(t.matches_at(1800)); // 00:30:00
    assert!(!t.matches_at(1801));
    assert!(!t.matches_at(60));
    let t = parsed("0 0 12 * * *");
    assert!(t.matches_at(12 * 3600));
    assert!(!t.matches_at(13 * 3600));
}

#[test]
fn day_of_month_and_week_disjunction() {
    // 1970-01-01 (instant 0) was a Thursday: day-of-week 4.
    // Both fields constrained: either matching suffices.
    let t = parsed("0 0 0 2 * 4");
    assert!(t.matches_at(0)); // dom 1 fails, dow 4 matches
    let t = parsed("0 0 0 1 * 5");
    assert!(t.matches_at(0)); // dom 1 matches, dow 5 fails
    let t = parsed("0 0 0 2 * 5");
    assert!(!t.matches_at(0)); // neither matches
    // Day-of-week left wildcard: day-of-month must match.
    let t = parsed("0 0 0 2 * *");
    assert!(!t.matches_at(0));
    assert!(t.matches_at(86400)); // 1970-01-02 00:00:00
}

#[test]
fn next_due_finds_first_match() {
    let t = parsed("4 * * * * *");
    assert_eq!(t.next_due(0), Some(4));
    assert_eq!(t.next_due(5), Some(64));
    assert_eq!(t.next_due(64), Some(64));
    let t = parsed("0 30 * * * *");
    assert_eq!(t.next_due(0), Some(1800));
}

#[test]
fn next_due_is_monotonic_and_idempotent() {
    let t = parsed("*/7 * * * * *");
    let mut prev = 0u64;
    for from in 0u64..120 {
        let due = t.next_due(from).unwrap();
        assert!(due >= prev, "monotone at {}", from);
        assert!(due >= from);
        assert_eq!(t.next_due(due), Some(due), "idempotent at {}", from);
        prev = due;
    }
}

#[test]
fn malformed_expressions_are_rejected() {
    for expr in [
        "",
        " ",
        "4",
        "4 * * * *",
        "4 * * * * * *",
        "60 * * * * *",
        "* * 24 * * *",
        "* * * 0 * *",
        "* * * 32 * *",
        "* * * * 13 *",
        "* * * * * 7",
        "4-2 * * * * *",
        "*/0 * * * * *",
        "1-2/0 * * * * *",
        "a * * * * *",
        "4, * * * * *",
        "004 * * * * *",
        "4  * * * * *",
        "4-* * * * * *",
        "*/ * * * * *",
    ] {
        assert_eq!(
            parse_trigger(expr.as_bytes()).unwrap_err(),
            TriggerError::InvalidExpression,
            "{:?} should be invalid",
            expr
        );
    }
}

#[test]
fn valid_edge_expressions() {
    assert!(parse_trigger(b"59 59 23 31 12 6").is_ok());
    assert!(parse_trigger(b"0 0 0 1 1 0").is_ok());
    assert!(parse_trigger(b"00 00 00 01 01 00").is_ok());
}
