use bantime::Duration;
use bantime::Rules;
use bantime::get_remaining_ban_time;
use bantime::get_remaining_ban_time_at;
use time::OffsetDateTime;

type R = Rules<u64>;

const DAY: i64 = 86_400_000_000_000;

fn now_ns() -> i64 {
    OffsetDateTime::now_utc().unix_timestamp_nanos() as i64
}

#[test]
fn get_remaining_ban_time_test_empty() {
    let warns: Vec<(R, i64)> = Vec::new();
    assert!(get_remaining_ban_time(&warns) == None);
}

#[test]
fn get_remaining_ban_time_test_expired() {
    let warns = vec![(R::Waste, now_ns() - DAY)];
    assert!(get_remaining_ban_time(&warns) == None);
}

#[test]
fn get_remaining_ban_time_test_long() {
    let warns = vec![(R::Grief, now_ns()); 10];
    let r = get_remaining_ban_time(&warns).unwrap();
    let expected = (R::Grief.info().duration.nanos as f64) * 9f64.exp();
    assert!(((r.nanos as f64) - expected).abs() < 1_000_000_000.0);
}

#[test]
fn get_remaining_ban_time_test_shift() {
    let warns = vec![(R::Grief, now_ns() - 5 * DAY)];
    let r = get_remaining_ban_time(&warns).unwrap();
    let expected = R::Grief.info().duration.nanos - (5 * DAY) as i128;
    assert!((r.nanos - expected).abs() < 1_000_000_000);
}

#[test]
fn get_remaining_ban_time_test_complex() {
    let now = now_ns();
    let warns = vec![
        (R::Grief, now - 5 * DAY),
        (R::Grief, now - (360 + 5) * DAY),
        (R::Waste, now - (360 + 5) * DAY),
        (R::Waste, now - (720 + 5) * DAY),
    ];
    let r = get_remaining_ban_time(&warns).unwrap();
    let e = std::f64::consts::E;
    let grief = R::Grief.info().duration.nanos as f64;
    let waste = R::Waste.info().duration.nanos as f64;
    let expected = grief + (e - 1.0) * grief * 0.5 + waste * 0.5 - ((5 * DAY) as f64);
    assert!(((r.nanos as f64) - expected).abs() < 1_000_000_000.0);
}

#[test]
fn identical_warns_escalate_exponentially() {
    let now: i64 = 1_700_000_000_000_000_000;
    let warns = vec![(R::Waste, now); 3];
    let r = get_remaining_ban_time_at(&warns, now).unwrap();
    let b = R::Waste.info().duration.nanos as f64;
    let e = std::f64::consts::E;
    assert!(((r.nanos as f64) - b * e * e).abs() < 1_000_000_000.0);
}

#[test]
fn single_stale_warn_no_ban() {
    let now: i64 = 1_700_000_000_000_000_000;
    let warns = vec![(R::Waste, now - DAY)];
    assert_eq!(get_remaining_ban_time_at(&warns, now), None);
    let warns2 = vec![(R::Waste, now - DAY + 1)];
    assert!(get_remaining_ban_time_at(&warns2, now).is_some());
}

#[test]
fn frozen_clock_same_inputs_same_output() {
    let now: i64 = 1_700_000_000_000_000_000;
    let warns = vec![(R::Grief, now - 3 * DAY), (R::Waste, now - 10 * DAY)];
    let r1 = get_remaining_ban_time_at(&warns, now);
    let r2 = get_remaining_ban_time_at(&warns, now);
    assert_eq!(r1, r2);
}

#[test]
fn added_warn_raises_earned_total() {
    let now: i64 = 1_700_000_000_000_000_000;
    let mut warns = vec![(R::Grief, now)];
    let r1 = get_remaining_ban_time_at(&warns, now).unwrap();
    warns.push((R::Grief, now - DAY));
    let r2 = get_remaining_ban_time_at(&warns, now).unwrap();
    assert!(r2.nanos > r1.nanos);
    warns.push((R::Grief, now - 800 * DAY));
    let r3 = get_remaining_ban_time_at(&warns, now).unwrap();
    assert_eq!(r3.nanos, r2.nanos);
}

#[test]
fn bypass_payloads_group_separately() {
    let now: i64 = 1_700_000_000_000_000_000;
    let two = vec![(R::Bypass(1), now), (R::Bypass(2), now)];
    let one = vec![(R::Bypass(1), now), (R::Bypass(1), now)];
    let r_two = get_remaining_ban_time_at(&two, now).unwrap();
    let r_one = get_remaining_ban_time_at(&one, now).unwrap();
    let b = R::Bypass(1).info().duration.nanos as f64;
    let e = std::f64::consts::E;
    assert!(((r_two.nanos as f64) - 2.0 * b).abs() < 1_000_000_000.0);
    assert!(((r_one.nanos as f64) - e * b).abs() < 1_000_000_000.0);
}

#[test]
fn category_metadata() {
    assert_eq!(R::Grief.info().tag, "grief");
    assert_eq!(R::Waste.info().tag, "waste");
    assert_eq!(R::Nsfw.info().tag, "nsfw");
    assert_eq!(R::Bypass(7).info().tag, "bypass");
    assert_eq!(R::Grief.info().duration.nanos, 7 * DAY as i128);
    assert_eq!(R::Waste.info().duration.nanos, DAY as i128);
    assert_eq!(R::Nsfw.info().duration.nanos, DAY as i128);
    assert_eq!(R::Bypass(7).info().duration.nanos, 7 * DAY as i128);
}

#[test]
fn duration_days_exact() {
    assert_eq!(Duration::days(7).nanos, 604_800_000_000_000);
    assert!(Duration::days(1).is_positive());
    assert!(!Duration::days(0).is_positive());
}
