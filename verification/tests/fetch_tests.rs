use electric_client::fetch::{
    backoff_step, compute_backoff_wait, delta_seconds_ms, parse_retry_after, retry_after_delay_at,
    ElectricResponse, RetryStep,
};

/// 2015-10-21T07:28:00Z in milliseconds since the Unix epoch.
const OCT_21_2015: u64 = 1_445_412_480_000;
const NOW: u64 = OCT_21_2015 - 5_000;
use electric_client::ElectricError;

#[test]
fn parse_retry_after_seconds() {
    assert_eq!(parse_retry_after("30"), 30_000);
    assert_eq!(parse_retry_after("1.5"), 1_500);
}

#[test]
fn parse_retry_after_zero() {
    assert_eq!(parse_retry_after("0"), 0);
}

#[test]
fn parse_retry_after_invalid() {
    assert_eq!(parse_retry_after("not-a-number"), 0);
}

#[test]
fn compute_backoff_wait_respects_server_minimum() {
    let wait = compute_backoff_wait(100, 5_000, 32_000);
    assert!(wait >= 5_000);
}

#[test]
fn compute_backoff_wait_stays_within_cap() {
    for _ in 0..100 {
        let wait = compute_backoff_wait(500, 0, 32_000);
        assert!(wait <= 500);
    }
}

#[test]
fn retry_after_forms() {
    assert_eq!(parse_retry_after("  12  "), 12_000);
    assert_eq!(parse_retry_after("+2"), 2_000);
    assert_eq!(parse_retry_after("-2"), 0);
    assert_eq!(parse_retry_after("0.0015"), 1);
    assert_eq!(parse_retry_after(".5"), 500);
    assert_eq!(parse_retry_after("5."), 5_000);
    assert_eq!(parse_retry_after("1e2"), 100_000);
    assert_eq!(parse_retry_after("2.5E-1"), 250);
    assert_eq!(parse_retry_after("inf"), u64::MAX);
    assert_eq!(parse_retry_after("+Infinity"), u64::MAX);
    assert_eq!(parse_retry_after("-inf"), 0);
    assert_eq!(parse_retry_after("NaN"), 0);
    assert_eq!(parse_retry_after("1e400"), u64::MAX);
    assert_eq!(parse_retry_after("1e-400"), 0);
    assert_eq!(parse_retry_after("99999999999999999999"), u64::MAX);
    assert_eq!(parse_retry_after(""), 0);
    assert_eq!(parse_retry_after("."), 0);
    assert_eq!(parse_retry_after("1e"), 0);
    assert_eq!(parse_retry_after("1.2.3"), 0);
    assert_eq!(parse_retry_after("Wed, 21 Oct 2015 07:28:00 GMT"), 0);
}

#[test]
fn retry_after_http_dates() {
    let date = "Wed, 21 Oct 2015 07:28:00 GMT";
    assert_eq!(retry_after_delay_at(date, NOW), 5_000);
    assert_eq!(retry_after_delay_at(&format!("  {}  ", date), NOW), 5_000);
    assert_eq!(retry_after_delay_at(date, OCT_21_2015), 0);
    assert_eq!(retry_after_delay_at(date, OCT_21_2015 + 1), 0);
    assert_eq!(retry_after_delay_at("Thu, 01 Jan 1970 00:00:00 GMT", 0), 0);
    assert_eq!(retry_after_delay_at("Thu, 01 Jan 1970 00:00:01 GMT", 0), 1_000);
    assert_eq!(retry_after_delay_at("Tue, 29 Feb 2000 12:00:00 GMT", 0), 951_825_600_000);
    assert_eq!(retry_after_delay_at("Fri, 31 Dec 9999 23:59:60 GMT", 0), 253_402_300_800_000);
    assert_eq!(retry_after_delay_at("Sun, 29 Feb 2100 00:00:00 GMT", 0), 0);
    assert_eq!(retry_after_delay_at("Wed, 21 Oct 2015 24:00:00 GMT", 0), 0);
    assert_eq!(retry_after_delay_at("wed, 21 Oct 2015 07:28:00 GMT", 0), 0);
    assert_eq!(retry_after_delay_at("Wed, 21 Oct 2015 07:28:00 UTC", 0), 0);
    assert_eq!(retry_after_delay_at("Wednesday, 21-Oct-15 07:28:00 GMT", NOW), 5_000);
    assert_eq!(retry_after_delay_at("Wed Oct 21 07:28:00 2015", NOW), 5_000);
    assert_eq!(retry_after_delay_at("30", NOW), 30_000);
    assert_eq!(delta_seconds_ms("30"), 30_000);
    assert_eq!(delta_seconds_ms(date), 0);
}

#[test]
fn compute_backoff_wait_caps_at_max_delay() {
    for _ in 0..100 {
        let wait = compute_backoff_wait(10_000, 0, 300);
        assert!(wait <= 300);
    }
    assert_eq!(compute_backoff_wait(0, 0, 0), 0);
    assert_eq!(compute_backoff_wait(0, 7, 100), 7);
}

fn response(status: u16, headers: Vec<(String, String)>, body: &str) -> ElectricResponse {
    ElectricResponse { status, headers, body: body.to_string() }
}

fn url() -> String {
    "http://electric.test/v1/shape".to_string()
}

#[test]
fn step_passes_success_through() {
    let (step, attempt) = backoff_step(Ok(response(200, Vec::new(), "[]")), &url(), 3, 5, NOW);
    assert_eq!(attempt, 3);
    match step {
        RetryStep::Finish(Ok(r)) => {
            assert_eq!(r.status, 200);
            assert_eq!(r.body, "[]");
        },
        other => panic!("unexpected {:?}", other),
    }
    let (step, _) = backoff_step(Ok(response(204, Vec::new(), "")), &url(), 0, 5, NOW);
    assert!(matches!(step, RetryStep::Finish(Ok(ref r)) if r.status == 204));
}

#[test]
fn step_does_not_retry_client_errors() {
    for status in [400u16, 401, 404, 409] {
        let (step, attempt) =
            backoff_step(Ok(response(status, Vec::new(), "bad request")), &url(), 0, 5, NOW);
        assert_eq!(attempt, 0);
        match step {
            RetryStep::Finish(Err(ElectricError::Fetch { status: s, body, url: u, .. })) => {
                assert_eq!(s, status);
                assert_eq!(body, "bad request");
                assert_eq!(u, url());
            },
            other => panic!("unexpected {:?}", other),
        }
    }
}

#[test]
fn step_retries_server_errors_and_rate_limits() {
    let (step, attempt) = backoff_step(Ok(response(500, Vec::new(), "error")), &url(), 0, 5, NOW);
    assert_eq!(attempt, 1);
    assert!(matches!(step, RetryStep::Retry { server_min_ms: 0 }));
    let headers = vec![("retry-after".to_string(), "2".to_string())];
    let (step, attempt) = backoff_step(Ok(response(429, headers, "rate limited")), &url(), 1, 5, NOW);
    assert_eq!(attempt, 2);
    assert!(matches!(step, RetryStep::Retry { server_min_ms: 2_000 }));
    let headers = vec![("retry-after".to_string(), "Wed, 21 Oct 2015 07:28:00 GMT".to_string())];
    let (step, _) = backoff_step(Ok(response(503, headers, "")), &url(), 0, 5, NOW);
    assert!(matches!(step, RetryStep::Retry { server_min_ms: 5_000 }));
}

#[test]
fn step_gives_up_after_max_retries() {
    let (step, attempt) = backoff_step(Ok(response(503, Vec::new(), "down")), &url(), 2, 2, NOW);
    assert_eq!(attempt, 3);
    assert!(matches!(step, RetryStep::Finish(Err(ElectricError::Fetch { status: 503, .. }))));
    let (step, attempt) =
        backoff_step(Err(ElectricError::Network("refused".to_string())), &url(), 0, 0, NOW);
    assert_eq!(attempt, 1);
    assert!(matches!(step, RetryStep::Finish(Err(ElectricError::Network(_)))));
}

#[test]
fn step_retries_network_errors_without_minimum() {
    let (step, attempt) =
        backoff_step(Err(ElectricError::Network("refused".to_string())), &url(), 0, 3, NOW);
    assert_eq!(attempt, 1);
    assert!(matches!(step, RetryStep::Retry { server_min_ms: 0 }));
}

#[test]
fn step_hands_back_an_abort() {
    let (step, attempt) = backoff_step(Err(ElectricError::BackoffAborted), &url(), 0, 3, NOW);
    assert_eq!(attempt, 0);
    assert!(matches!(step, RetryStep::Finish(Err(ElectricError::BackoffAborted))));
}

#[test]
fn retry_after_obsolete_date_forms() {
    assert_eq!(retry_after_delay_at("Sun Nov  6 08:49:37 1994", 0), 784_111_777_000);
    assert_eq!(retry_after_delay_at("Sun Nov 06 08:49:37 1994", 0), 784_111_777_000);
    assert_eq!(retry_after_delay_at("Sunday, 06-Nov-94 08:49:37 GMT", 0), 784_111_777_000);
    // 2025-03-05: a two-digit year is read within 49 years back and 50 ahead.
    let mar_2025: u64 = 1_741_132_800_000;
    assert_eq!(retry_after_delay_at("Sunday, 06-Nov-94 08:49:37 GMT", mar_2025), 0);
    assert_eq!(
        retry_after_delay_at("Thursday, 01-Jan-70 00:00:00 GMT", mar_2025),
        3_155_760_000_000 - mar_2025
    );
    assert_eq!(retry_after_delay_at("Sun Nov  6 08:49:37 1994 ", 0), 784_111_777_000);
    assert_eq!(retry_after_delay_at("Sun Nov 6 08:49:37 1994", 0), 0);
    assert_eq!(retry_after_delay_at("Sun, 06-Nov-94 08:49:37 GMT", 0), 0);
    assert_eq!(retry_after_delay_at("Sunday, 06 Nov 1994 08:49:37 GMT", 0), 0);
    assert_eq!(retry_after_delay_at("Sun Feb 30 08:49:37 1994", 0), 0);
}

#[test]
fn parse_retry_after_reads_the_clock_for_dates() {
    let far = "Fri, 31 Dec 9999 23:59:59 GMT";
    let at_far: u64 = 253_402_300_799_000;
    let jan_2020: u64 = 1_577_836_800_000;
    let wait = parse_retry_after(far);
    assert!(wait > 0);
    assert!(wait <= at_far - jan_2020);
    assert_eq!(parse_retry_after("Thu, 01 Jan 1970 00:00:01 GMT"), 0);
}

#[test]
fn compute_backoff_wait_is_jittered() {
    let waits: Vec<u64> = (0..200).map(|_| compute_backoff_wait(1_000, 0, 32_000)).collect();
    assert!(waits.iter().all(|w| *w <= 1_000));
    assert!(waits.iter().any(|w| *w != 1_000));
}
