use vstd::prelude::*;

verus! {

/// Points that every correct answer earns.
pub const BASE_POINTS: u32 = 100;

/// The largest time bonus a correct answer can earn.
pub const MAX_TIME_BONUS: u32 = 50;

/// How long a question stays open, in milliseconds.
pub const QUESTION_TIME_MS: u64 = 15000;

/// The time bonus for an answer given with `time_remaining_ms` left on the
/// clock: a share of `MAX_TIME_BONUS` proportional to the time left, rounded
/// down, and never more than the whole bonus.
pub open spec fn time_bonus(time_remaining_ms: u64) -> int {
    if time_remaining_ms >= QUESTION_TIME_MS {
        MAX_TIME_BONUS as int
    } else {
        (time_remaining_ms * MAX_TIME_BONUS) as int / QUESTION_TIME_MS as int
    }
}

/// The points for a correct answer: base plus time bonus, raised by 10% on a
/// streak of two and by 20% on a streak of three or more, rounded down.
pub open spec fn score_for(time_remaining_ms: u64, streak: u32) -> int {
    let raw = BASE_POINTS + time_bonus(time_remaining_ms);
    if streak <= 1 {
        raw
    } else if streak == 2 {
        raw * 11 / 10
    } else {
        raw * 12 / 10
    }
}

/// The points follow the scoring rules: 100 points plus a time bonus of 50
/// points times the share of the 15 seconds left, rounded down (all 50 with
/// the whole time left); the streak raises that by 10% at two right answers
/// in a row and by 20% at three or more, rounded down.
pub proof fn lemma_score_rules(time_remaining_ms: u64, streak: u32)
    ensures
        ({
            let raw = score_for(time_remaining_ms, 1);
            let points = score_for(time_remaining_ms, streak);
            &&& time_remaining_ms >= 15000 ==> raw == 150
            &&& time_remaining_ms < 15000 ==> (raw - 100) * 15000 <= time_remaining_ms * 50 < (raw
                - 100 + 1) * 15000
            &&& streak <= 1 ==> points == raw
            &&& streak == 2 ==> points * 10 <= raw * 11 < points * 10 + 10
            &&& streak >= 3 ==> points * 10 <= raw * 12 < points * 10 + 10
        }),
{
    let t = time_remaining_ms as int;
    if t < 15000 {
        let b = t * 50 / 15000;
        assert(b * 15000 <= t * 50 < (b + 1) * 15000) by (nonlinear_arith)
            requires
                b == t * 50 / 15000,
                t >= 0,
        ;
    }
}

/// The most points a single answer can earn.
pub const MAX_POINTS: u32 = 180;

/// Score of a correct answer given with `time_remaining_ms` left on the
/// question's clock, by a player on a streak of `streak` correct answers in
/// a row, this one included.
pub fn calculate_score(time_remaining_ms: u64, streak: u32) -> (points: u32)
    ensures
        points == score_for(time_remaining_ms, streak),
        BASE_POINTS <= points <= MAX_POINTS,
{
    let time_bonus: u32 = if time_remaining_ms >= QUESTION_TIME_MS {
        MAX_TIME_BONUS
    } else {
        ((time_remaining_ms * 50) / 15000) as u32
    };
    let raw: u32 = BASE_POINTS + time_bonus;
    if streak <= 1 {
        raw
    } else if streak == 2 {
        raw * 11 / 10
    } else {
        raw * 12 / 10
    }
}

/// A correct answer earns between 100 and 180 points, whatever the time and
/// the streak.
pub proof fn lemma_score_bounds(time_remaining_ms: u64, streak: u32)
    ensures
        BASE_POINTS <= score_for(time_remaining_ms, streak) <= MAX_POINTS,
{
}

/// Answering with more time left never earns fewer points.
pub proof fn lemma_score_monotone_in_time(earlier_ms: u64, later_ms: u64, streak: u32)
    requires
        earlier_ms <= later_ms,
    ensures
        score_for(earlier_ms, streak) <= score_for(later_ms, streak),
{
    if later_ms < QUESTION_TIME_MS {
        assert(earlier_ms * 50 <= later_ms * 50) by (nonlinear_arith)
            requires
                earlier_ms <= later_ms,
        ;
    }
}

/// The streak bonus stops growing at a streak of three.
pub proof fn lemma_streak_bonus_capped(time_remaining_ms: u64, streak: u32)
    requires
        streak >= 3,
    ensures
        score_for(time_remaining_ms, streak) == score_for(time_remaining_ms, 3),
{
}

/// A longer streak never earns fewer points for the same answer time.
pub proof fn lemma_score_monotone_in_streak(time_remaining_ms: u64, shorter: u32, longer: u32)
    requires
        shorter <= longer,
    ensures
        score_for(time_remaining_ms, shorter) <= score_for(time_remaining_ms, longer),
{
}

} // verus!
