use rust_rush_trivia::scoring::calculate_score;

/// Seconds left on the clock, as the milliseconds the library counts in.
fn secs(s: f64) -> u64 {
    (s * 1000.0) as u64
}

#[test]
fn test_score_instant_answer() {
    // Instant answer, no streak
    assert_eq!(calculate_score(secs(15.0), 0), 150);

    // Instant answer, 2-streak
    assert_eq!(calculate_score(secs(15.0), 2), 165);

    // Instant answer, 3+ streak
    assert_eq!(calculate_score(secs(15.0), 3), 180);
}

#[test]
fn test_score_half_time() {
    // 7.5 seconds remaining, no streak
    assert_eq!(calculate_score(secs(7.5), 0), 125);
}

#[test]
fn test_score_last_second() {
    // 1 second remaining, no streak
    let score = calculate_score(secs(1.0), 0);
    assert!(score >= 103 && score <= 107);
}

#[test]
fn score_exact_values() {
    assert_eq!(calculate_score(1000, 0), 103);
    assert_eq!(calculate_score(0, 0), 100);
    assert_eq!(calculate_score(0, 1), 100);
    assert_eq!(calculate_score(0, 2), 110);
    assert_eq!(calculate_score(0, 3), 120);
    assert_eq!(calculate_score(299, 0), 100);
    assert_eq!(calculate_score(300, 0), 101);
    assert_eq!(calculate_score(14_999, 0), 149);
    assert_eq!(calculate_score(60_000, 0), 150);
    assert_eq!(calculate_score(7_500, 2), 137);
}

#[test]
fn score_bounds_and_monotonicity() {
    let mut last = 0;
    for ms in (0..=20_000u64).step_by(250) {
        for streak in 0..6u32 {
            let s = calculate_score(ms, streak);
            assert!((100..=180).contains(&s));
        }
        let s = calculate_score(ms, 0);
        assert!(s >= last);
        last = s;
    }
    for ms in [0u64, 5_000, 15_000] {
        assert!(calculate_score(ms, 0) <= calculate_score(ms, 2));
        assert!(calculate_score(ms, 2) <= calculate_score(ms, 3));
        assert_eq!(calculate_score(ms, 3), calculate_score(ms, 9));
    }
}
