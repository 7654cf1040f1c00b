use branchview::branches::{calculate_status, status_at, status_for};
use branchview::clock::{time_since, Elapsed, Instant};

// 2024-03-21T00:00:00Z
const NOW: Instant = Instant { seconds: 1710979200, nanos: 0 };

const DAY: i64 = 86_400;

fn days_before_now(days: i64) -> String {
    (chrono::Utc::now() - chrono::TimeDelta::days(days)).to_rfc3339()
}

fn age(seconds: i64) -> Option<Elapsed> {
    Some(Elapsed { seconds, nanos: 0 })
}

fn elapsed(seconds: i64, nanos: i32) -> Option<Elapsed> {
    Some(Elapsed { seconds, nanos })
}

#[test]
fn far_behind_is_stale_whatever_the_date() {
    assert_eq!(status_for(60, None), "stale");
    assert_eq!(status_for(60, age(0)), "stale");
    assert_eq!(status_at(60, "2024-03-20T00:00:00Z", &NOW), "stale");
    assert_eq!(status_at(60, "no date", &NOW), "stale");
    assert_eq!(calculate_status(60, &days_before_now(1)), "stale");
    assert_eq!(calculate_status(60, ""), "stale");
}

#[test]
fn moderately_behind_is_conflict_risk() {
    assert_eq!(status_for(15, None), "conflict-risk");
    assert_eq!(status_for(15, age(100 * DAY)), "conflict-risk");
    assert_eq!(status_at(15, "2020-01-01T00:00:00Z", &NOW), "conflict-risk");
    assert_eq!(calculate_status(15, &days_before_now(20)), "conflict-risk");
}

#[test]
fn old_last_commit_is_stale() {
    assert_eq!(status_for(3, age(20 * DAY)), "stale");
    assert_eq!(status_at(3, "2024-03-01T00:00:00Z", &NOW), "stale");
    assert_eq!(calculate_status(3, &days_before_now(20)), "stale");
}

#[test]
fn recent_last_commit_is_fresh() {
    assert_eq!(status_for(3, age(DAY)), "fresh");
    assert_eq!(status_at(3, "2024-03-20T00:00:00Z", &NOW), "fresh");
    assert_eq!(calculate_status(3, &days_before_now(1)), "fresh");
}

#[test]
fn thresholds_are_exclusive() {
    assert_eq!(status_for(51, age(0)), "stale");
    assert_eq!(status_for(50, age(0)), "conflict-risk");
    assert_eq!(status_for(11, age(0)), "conflict-risk");
    assert_eq!(status_for(10, age(0)), "fresh");
    assert_eq!(status_for(10, age(14 * DAY)), "fresh");
    assert_eq!(status_for(10, elapsed(14 * DAY, 1)), "stale");
    assert_eq!(status_for(10, age(14 * DAY + 1)), "stale");
    assert_eq!(status_for(10, elapsed(14 * DAY - 1, 999_999_999)), "fresh");
    assert_eq!(status_for(10, age(15 * DAY)), "stale");
    assert_eq!(status_for(0, age(-3 * DAY)), "fresh");
    assert_eq!(status_for(0, elapsed(-20 * DAY, -5)), "fresh");
    assert_eq!(status_for(-1, None), "fresh");
}

#[test]
fn anything_older_than_fourteen_days_is_stale() {
    // fourteen days and twelve hours
    assert_eq!(time_since("2024-03-06T12:00:00Z", &NOW), age(14 * DAY + 12 * 3600));
    assert_eq!(status_at(3, "2024-03-06T12:00:00Z", &NOW), "stale");
    let then = chrono::Utc::now() - chrono::TimeDelta::days(14) - chrono::TimeDelta::hours(12);
    assert_eq!(calculate_status(3, &then.to_rfc3339()), "stale");
    // fourteen days and one second
    assert_eq!(time_since("2024-03-06T23:59:59Z", &NOW), age(14 * DAY + 1));
    assert_eq!(status_at(0, "2024-03-06T23:59:59Z", &NOW), "stale");
    // fourteen days to the second
    assert_eq!(time_since("2024-03-07T00:00:00Z", &NOW), age(14 * DAY));
    assert_eq!(status_at(0, "2024-03-07T00:00:00Z", &NOW), "fresh");
    // a second less
    assert_eq!(status_at(0, "2024-03-07T00:00:01Z", &NOW), "fresh");
    let then = chrono::Utc::now() - chrono::TimeDelta::days(13) - chrono::TimeDelta::hours(12);
    assert_eq!(calculate_status(3, &then.to_rfc3339()), "fresh");
}

#[test]
fn offsets_are_taken_into_account() {
    // the same instant as 2024-03-07T00:00:00Z
    assert_eq!(time_since("2024-03-07T02:00:00+02:00", &NOW), age(14 * DAY));
    assert_eq!(time_since("2024-03-06T19:00:00-05:00", &NOW), age(14 * DAY));
    // one hour earlier than that
    assert_eq!(time_since("2024-03-07T00:00:00+01:00", &NOW), age(14 * DAY + 3600));
    assert_eq!(status_at(0, "2024-03-07T00:00:00+01:00", &NOW), "stale");
}

#[test]
fn a_date_in_the_future_has_a_negative_age() {
    assert_eq!(time_since("2024-03-31T00:00:00Z", &NOW), age(-10 * DAY));
    assert_eq!(time_since("2024-03-21T00:00:00.5Z", &NOW), elapsed(0, -500_000_000));
    assert_eq!(status_at(0, "2024-03-31T00:00:00Z", &NOW), "fresh");
}

#[test]
fn unreadable_date_counts_as_fresh() {
    assert_eq!(time_since("", &NOW), None);
    assert_eq!(time_since("yesterday", &NOW), None);
    assert_eq!(time_since("2024-03-06", &NOW), None);
    assert_eq!(status_at(3, "", &NOW), "fresh");
    assert_eq!(status_at(3, "yesterday", &NOW), "fresh");
    assert_eq!(calculate_status(3, "not a date"), "fresh");
}

#[test]
fn fraction_of_a_second_is_read() {
    let now = Instant { seconds: 1710979200, nanos: 500_000_000 };
    assert_eq!(time_since("2024-03-07T00:00:00.500Z", &now), age(14 * DAY));
    assert_eq!(status_at(0, "2024-03-07T00:00:00.500Z", &now), "fresh");
    assert_eq!(time_since("2024-03-07T00:00:00.499Z", &now), elapsed(14 * DAY, 1_000_000));
    assert_eq!(status_at(0, "2024-03-07T00:00:00.499Z", &now), "stale");
    assert_eq!(
        time_since("2024-03-07T00:00:00.501Z", &now),
        elapsed(14 * DAY - 1, 999_000_000)
    );
    assert_eq!(status_at(0, "2024-03-07T00:00:00.501Z", &now), "fresh");
}

#[test]
fn a_time_that_cannot_be_held_gives_no_age() {
    let never = Instant { seconds: i64::MAX, nanos: 0 };
    assert_eq!(time_since("2024-03-06T00:00:00Z", &never), None);
    let odd = Instant { seconds: 1710979200, nanos: 2_000_000_000 };
    assert_eq!(time_since("2024-03-06T00:00:00Z", &odd), None);
    assert_eq!(status_at(3, "2024-03-06T00:00:00Z", &never), "fresh");
}
