use rust_rush_trivia::client::{ClientData, ClientState};
use rust_rush_trivia::protocol::{GameStats, LeaderboardEntry, PlayerResult};
use rust_rush_trivia::ui::{
    correct_answer_line, entry_style, footer_hint, header_title, is_own, leaderboard_line,
    lobby_line, lobby_title, medal, option_line, option_selected, question_heading, result_line,
    result_symbol, stats_lines, timer_color, LineStyle, TimerColor,
};

#[test]
fn footer_hints() {
    let q = |answered| ClientState::Question {
        number: 1,
        total: 1,
        text: String::new(),
        options: vec![],
        time_limit: 15,
        answered,
        selected_index: None,
    };
    assert_eq!(footer_hint(&q(false)), "Press 1-4 to answer | ESC to quit");
    assert_eq!(footer_hint(&q(true)), "ESC to quit");
    assert_eq!(footer_hint(&ClientState::Lobby(vec![])), "Waiting for game to start... | ESC to quit");
    assert_eq!(footer_hint(&ClientState::Connecting), "ESC to quit");
}

#[test]
fn timer_colours() {
    assert_eq!(timer_color(15_000), TimerColor::Green);
    assert_eq!(timer_color(10_001), TimerColor::Green);
    assert_eq!(timer_color(10_000), TimerColor::Yellow);
    assert_eq!(timer_color(5_001), TimerColor::Yellow);
    assert_eq!(timer_color(5_000), TimerColor::Red);
    assert_eq!(timer_color(0), TimerColor::Red);
}

#[test]
fn medals_and_marks() {
    assert_eq!(medal(1), "🥇");
    assert_eq!(medal(2), "🥈");
    assert_eq!(medal(3), "🥉");
    assert_eq!(medal(4), "  ");
    assert_eq!(medal(0), "  ");
    assert_eq!(result_symbol(true, true), "✓");
    assert_eq!(result_symbol(false, true), "✗");
    assert_eq!(result_symbol(false, false), "⊗");
}

#[test]
fn own_lines_and_styles() {
    let me = Some("Ann_1".to_string());
    assert!(is_own(&me, &"Ann_1".to_string()));
    assert!(!is_own(&me, &"Ben_2".to_string()));
    assert!(!is_own(&None, &"Ann_1".to_string()));
    assert_eq!(entry_style(7, true), LineStyle::Own);
    assert_eq!(entry_style(3, false), LineStyle::Podium);
    assert_eq!(entry_style(4, false), LineStyle::Plain);
    assert!(option_selected(true, Some(2), 2));
    assert!(!option_selected(false, Some(2), 2));
    assert!(!option_selected(true, Some(2), 1));
    assert!(option_selected(true, Some(2), 258));
    assert!(option_selected(true, Some(0), 256));
}

#[test]
fn header_titles() {
    let mut c = ClientData::new("Ann".to_string());
    assert_eq!(header_title(&c), "🎮 Rust Rush Trivia - Connecting...");
    c.player_id = Some("Ann_1".to_string());
    assert_eq!(header_title(&c), "🎮 Rust Rush Trivia - Player: Ann ");
}

#[test]
fn screen_lines() {
    assert_eq!(question_heading(3, 10), "Question 3 of 10");
    assert_eq!(option_line(0, "Paris"), "1. Paris");
    assert_eq!(option_line(9, "x"), "10. x");
    assert_eq!(correct_answer_line(2), "✓ Correct Answer: Option 3");
    assert_eq!(lobby_line("Ann"), "👤 Ann");
    assert_eq!(lobby_title(12), "Lobby - 12 Players Connected");
}

#[test]
fn result_and_leaderboard_lines() {
    let me = Some("Ann_1".to_string());
    let r = PlayerResult {
        player_id: "Ann_1".to_string(),
        player_name: "Ann".to_string(),
        answered: true,
        correct: true,
        answer_time: Some(1000),
        points_earned: 146,
    };
    assert_eq!(result_line(&r, &me), "→ ✓ Ann (+146)");
    let r = PlayerResult { player_id: "Ben_2".to_string(), player_name: "Ben".to_string(), answered: false, correct: false, answer_time: None, points_earned: 0 };
    assert_eq!(result_line(&r, &me), "  ⊗ Ben");
    let e = LeaderboardEntry { rank: 1, player_id: "Ann_1".to_string(), player_name: "Ann".to_string(), score: 495, streak: 3 };
    assert_eq!(leaderboard_line(&e, &me), "→ 🥇 1. Ann - 495 pts 🔥3");
    let e = LeaderboardEntry { rank: 4, player_id: "Cid_3".to_string(), player_name: "Cid".to_string(), score: 0, streak: 0 };
    assert_eq!(leaderboard_line(&e, &me), "     4. Cid - 0 pts");
}

#[test]
fn final_statistics_lines() {
    let stats = GameStats {
        fastest_answer: None,
        longest_streak: Some(("Ann".to_string(), 4)),
        perfect_score: vec!["Ann".to_string(), "Ben".to_string()],
    };
    assert_eq!(
        stats_lines(&stats),
        vec!["🔥 Longest Streak: Ann (4)".to_string(), "⭐ Perfect Score: Ann, Ben".to_string()]
    );
    let none = GameStats { fastest_answer: None, longest_streak: None, perfect_score: vec![] };
    assert!(stats_lines(&none).is_empty());
    let one = GameStats { fastest_answer: None, longest_streak: None, perfect_score: vec!["Cid".to_string()] };
    assert_eq!(stats_lines(&one), vec!["⭐ Perfect Score: Cid".to_string()]);
}
