use boc_usd_cad::date::CivilDate;
use boc_usd_cad::observation::{Fx, Observation};
use boc_usd_cad::select::{filter_rates, last_in_reach, sort_by_date, SelectError};
use rust_decimal::Decimal;
use std::cmp::Ordering;

fn day(year: i16, month: i8, day: i8) -> CivilDate {
    CivilDate::new(year, month, day).expect("a day that exists")
}

fn obs(d: CivilDate, units: i64) -> Observation {
    Observation { d, fx: Fx { v: Decimal::new(units, 4) } }
}

/// Wednesday to Friday, and the Monday and Tuesday after the weekend.
fn week() -> Vec<Observation> {
    vec![
        obs(day(2025, 1, 15), 14352),
        obs(day(2025, 1, 16), 14391),
        obs(day(2025, 1, 17), 14467),
        obs(day(2025, 1, 20), 14325),
        obs(day(2025, 1, 21), 14338),
    ]
}

fn shuffled() -> Vec<Observation> {
    let w = week();
    vec![w[3], w[0], w[4], w[2], w[1]]
}

fn same(a: &[Observation], b: &[Observation]) -> bool {
    a.len() == b.len() && a.iter().zip(b).all(|(x, y)| x.d == y.d && x.fx.v == y.fx.v)
}

#[test]
fn exact_date_is_answered_by_its_own_observation() {
    for o in week() {
        let out = filter_rates(o.d, false, week()).expect("an answer");
        assert!(same(&out, &[o]));
    }
}

#[test]
fn gap_is_answered_by_the_latest_earlier_observation() {
    let w = week();
    let saturday = filter_rates(day(2025, 1, 18), false, week()).expect("an answer");
    assert!(same(&saturday, &[w[2]]));
    let sunday = filter_rates(day(2025, 1, 19), false, week()).expect("an answer");
    assert!(same(&sunday, &[w[2]]));
    let later = filter_rates(day(2025, 3, 1), false, week()).expect("an answer");
    assert!(same(&later, &[w[4]]));
}

#[test]
fn range_starts_at_the_anchor_and_runs_to_the_end() {
    let w = week();
    let out = filter_rates(day(2025, 1, 18), true, week()).expect("an answer");
    assert!(same(&out, &[w[2], w[3], w[4]]));
    assert!(out[0].d <= day(2025, 1, 18));
    for pair in out.windows(2) {
        assert!(pair[0].d < pair[1].d);
    }
}

#[test]
fn range_from_the_first_day_is_everything() {
    let out = filter_rates(day(2025, 1, 15), true, week()).expect("an answer");
    assert!(same(&out, &week()));
}

#[test]
fn range_from_the_last_day_is_that_day() {
    let w = week();
    let out = filter_rates(day(2025, 1, 21), true, week()).expect("an answer");
    assert!(same(&out, &[w[4]]));
}

#[test]
fn selecting_again_from_an_answer_gives_its_first_observation() {
    let first = filter_rates(day(2025, 1, 19), true, week()).expect("an answer");
    let again = filter_rates(first[0].d, false, first.clone()).expect("an answer");
    assert!(same(&again, &first[..1]));
    let single = filter_rates(day(2025, 1, 19), false, week()).expect("an answer");
    let once_more = filter_rates(single[0].d, false, single.clone()).expect("an answer");
    assert!(same(&once_more, &single));
}

#[test]
fn order_of_the_input_does_not_matter() {
    for start in [day(2025, 1, 15), day(2025, 1, 18), day(2025, 1, 20), day(2025, 2, 1)] {
        for is_range in [false, true] {
            let a = filter_rates(start, is_range, week()).expect("an answer");
            let b = filter_rates(start, is_range, shuffled()).expect("an answer");
            assert!(same(&a, &b));
        }
    }
}

#[test]
fn no_observations_is_an_error() {
    assert_eq!(filter_rates(day(2025, 1, 15), false, Vec::new()), Err(SelectError::NoObservations));
    assert_eq!(filter_rates(day(2025, 1, 15), true, Vec::new()), Err(SelectError::NoObservations));
}

#[test]
fn nothing_on_or_before_the_start_is_an_error() {
    assert_eq!(filter_rates(day(2025, 1, 14), false, week()), Err(SelectError::NothingInReach));
    assert_eq!(filter_rates(day(2025, 1, 14), true, shuffled()), Err(SelectError::NothingInReach));
    assert_eq!(filter_rates(day(2024, 12, 31), true, week()), Err(SelectError::NothingInReach));
}

#[test]
fn same_date_twice_keeps_one_at_the_anchor() {
    let twice = vec![obs(day(2025, 1, 15), 1), obs(day(2025, 1, 15), 2), obs(day(2025, 1, 16), 3)];
    let out = filter_rates(day(2025, 1, 15), true, twice).expect("an answer");
    assert_eq!(out.len(), 2);
    assert_eq!(out[0].d, day(2025, 1, 15));
    assert_eq!(out[1].d, day(2025, 1, 16));
    assert_eq!(out[1].fx.v, Decimal::new(3, 4));
}

#[test]
fn sort_orders_by_date_and_keeps_every_observation() {
    let mut v = shuffled();
    sort_by_date(&mut v);
    assert!(same(&v, &week()));
    let mut empty: Vec<Observation> = Vec::new();
    sort_by_date(&mut empty);
    assert!(empty.is_empty());
}

#[test]
fn sort_orders_across_months_and_years() {
    let mut v = vec![
        obs(day(2025, 1, 2), 1),
        obs(day(2024, 12, 31), 2),
        obs(day(2024, 2, 29), 3),
        obs(day(-1, 6, 1), 4),
        obs(day(2024, 3, 1), 5),
    ];
    sort_by_date(&mut v);
    let dates: Vec<CivilDate> = v.iter().map(|o| o.d).collect();
    assert_eq!(
        dates,
        vec![day(-1, 6, 1), day(2024, 2, 29), day(2024, 3, 1), day(2024, 12, 31), day(2025, 1, 2)]
    );
}

#[test]
fn sort_keeps_the_order_of_equal_dates() {
    let mut v = vec![obs(day(2025, 1, 16), 1), obs(day(2025, 1, 15), 2), obs(day(2025, 1, 16), 3)];
    sort_by_date(&mut v);
    let units: Vec<Decimal> = v.iter().map(|o| o.fx.v).collect();
    assert_eq!(units, vec![Decimal::new(2, 4), Decimal::new(1, 4), Decimal::new(3, 4)]);
}

#[test]
fn last_in_reach_finds_the_place() {
    let w = week();
    assert_eq!(last_in_reach(&w, &day(2025, 1, 14)), None);
    assert_eq!(last_in_reach(&w, &day(2025, 1, 15)), Some(0));
    assert_eq!(last_in_reach(&w, &day(2025, 1, 19)), Some(2));
    assert_eq!(last_in_reach(&w, &day(2025, 1, 20)), Some(3));
    assert_eq!(last_in_reach(&w, &day(2026, 1, 1)), Some(4));
    assert_eq!(last_in_reach(&Vec::new(), &day(2025, 1, 15)), None);
}

#[test]
fn observations_compare_by_date_alone() {
    let a = obs(day(2025, 1, 15), 1);
    let b = obs(day(2025, 1, 15), 2);
    let c = obs(day(2025, 1, 16), 1);
    assert!(a == b);
    assert!(a != c);
    assert!(a < c);
    assert!(c > b);
    assert!(a <= b && a >= b);
    assert_eq!(a.partial_cmp(&b), Some(Ordering::Equal));
    assert_eq!(a.partial_cmp(&c), Some(Ordering::Less));
    assert_eq!(c.partial_cmp(&a), Some(Ordering::Greater));
}
