use rust_rush_trivia::game::{Game, GameState};
use rust_rush_trivia::questions::Question;

fn question(id: u32, correct: u8) -> Question {
    Question {
        id,
        text: format!("Question {}", id),
        options: vec!["A".to_string(), "B".to_string(), "C".to_string(), "D".to_string()],
        correct_index: correct,
        category: "test".to_string(),
    }
}

fn game_with(n_questions: u32) -> Game {
    Game::new((1..=n_questions).map(|i| question(i, 1)).collect())
}

#[test]
fn new_game_is_in_lobby() {
    let g = game_with(10);
    assert_eq!(g.state, GameState::Lobby);
    assert_eq!(g.total_questions, 10);
    assert_eq!(g.current_question_idx, 0);
    assert!(g.players.is_empty());
    assert!(g.question_start_time.is_none());
}

#[test]
fn adding_same_id_replaces_player() {
    let mut g = game_with(3);
    g.add_player("a_1".to_string(), "Alice".to_string());
    g.add_player("b_2".to_string(), "Bob".to_string());
    g.players[0].score = 300;
    g.add_player("a_1".to_string(), "Alicia".to_string());
    assert_eq!(g.players.len(), 2);
    assert_eq!(g.players[0].name, "Alicia");
    assert_eq!(g.players[0].score, 0);
    assert_eq!(g.players[1].name, "Bob");
}

#[test]
fn removing_marks_disconnected() {
    let mut g = game_with(3);
    g.add_player("a_1".to_string(), "Alice".to_string());
    g.remove_player("a_1");
    g.remove_player("nobody");
    assert_eq!(g.players.len(), 1);
    assert!(!g.players[0].connected);
    assert!(g.get_lobby_players().is_empty());
}

#[test]
fn start_needs_two_players() {
    let mut g = game_with(3);
    g.add_player("a_1".to_string(), "Alice".to_string());
    g.start_game();
    assert_eq!(g.state, GameState::Lobby);
    g.add_player("b_2".to_string(), "Bob".to_string());
    g.start_game();
    assert_eq!(g.state, GameState::Question(1));
    assert_eq!(g.current_question_idx, 0);
}

#[test]
fn answers_are_taken_once_with_time_left() {
    let mut g = game_with(3);
    g.add_player("a_1".to_string(), "Alice".to_string());
    g.add_player("b_2".to_string(), "Bob".to_string());
    assert!(!g.submit_answer("a_1", 2, 100));
    g.start_question(1_000);
    assert!(g.submit_answer("a_1", 2, 4_000));
    assert_eq!(g.players[0].current_answer, Some((2, 12_000)));
    assert!(!g.submit_answer("a_1", 3, 5_000));
    assert!(!g.submit_answer("zed", 1, 5_000));
    assert!(!g.all_answered());
    assert!(g.submit_answer("b_2", 1, 40_000));
    assert_eq!(g.players[1].current_answer, Some((1, 0)));
    assert!(g.all_answered());
    g.start_question(50_000);
    assert!(g.players.iter().all(|p| p.current_answer.is_none()));
}

#[test]
fn all_answered_needs_someone_connected() {
    let mut g = game_with(1);
    assert!(!g.all_answered());
    g.add_player("a_1".to_string(), "Alice".to_string());
    g.start_question(0);
    g.remove_player("a_1");
    assert!(!g.all_answered());
}

#[test]
fn results_score_right_answers_only() {
    let mut g = game_with(3);
    g.add_player("a_1".to_string(), "Alice".to_string());
    g.add_player("b_2".to_string(), "Bob".to_string());
    g.add_player("c_3".to_string(), "Cid".to_string());
    g.add_player("d_4".to_string(), "Dee".to_string());
    g.players[0].streak = 2;
    g.players[1].streak = 5;
    g.players[2].streak = 4;
    g.remove_player("d_4");
    g.start_question(0);
    g.submit_answer("a_1", 1, 0);
    g.submit_answer("b_2", 0, 7_500);
    let results = g.calculate_results();
    assert_eq!(results.len(), 3);
    assert_eq!(results[0].player_name, "Alice");
    assert!(results[0].answered && results[0].correct);
    // Alice's third right answer in a row: +20%.
    assert_eq!(results[0].points_earned, 180);
    assert_eq!(results[0].answer_time, Some(0));
    assert!(results[1].answered && !results[1].correct);
    assert_eq!(results[1].points_earned, 0);
    assert_eq!(results[1].answer_time, Some(7_500));
    assert!(!results[2].answered && !results[2].correct);
    assert_eq!(results[2].answer_time, None);
    assert_eq!(g.players[0].score, 180);
    assert_eq!(g.players[0].streak, 3);
    assert_eq!(g.players[1].score, 0);
    assert_eq!(g.players[1].streak, 0);
    assert_eq!(g.players[2].streak, 0);
}

#[test]
fn leaderboard_orders_by_score_then_name() {
    let mut g = game_with(3);
    for (id, name, score) in [("1", "Zoe", 100), ("2", "Amy", 250), ("3", "Bea", 100), ("4", "Off", 999)] {
        g.add_player(id.to_string(), name.to_string());
        let last = g.players.len() - 1;
        g.players[last].score = score;
    }
    g.remove_player("4");
    let board = g.get_leaderboard();
    let names: Vec<&str> = board.iter().map(|e| e.player_name.as_str()).collect();
    assert_eq!(names, vec!["Amy", "Bea", "Zoe"]);
    let ranks: Vec<u32> = board.iter().map(|e| e.rank).collect();
    assert_eq!(ranks, vec![1, 2, 3]);
    assert_eq!(board[0].score, 250);
    assert_eq!(board[0].player_id, "2");
}

#[test]
fn advancing_takes_breaks_every_four_questions() {
    let mut g = game_with(9);
    let mut seen = Vec::new();
    while g.current_question_idx < g.questions.len() {
        let more = g.advance_to_next_question();
        seen.push(g.state);
        if !more {
            break;
        }
    }
    assert_eq!(
        seen,
        vec![
            GameState::Question(2),
            GameState::Question(3),
            GameState::Question(4),
            GameState::Break,
            GameState::Question(6),
            GameState::Question(7),
            GameState::Question(8),
            GameState::Break,
            GameState::Ended,
        ]
    );
}

#[test]
fn current_question_follows_position() {
    let mut g = game_with(2);
    assert_eq!(g.get_current_question().map(|q| q.id), Some(1));
    g.advance_to_next_question();
    assert_eq!(g.get_current_question().map(|q| q.id), Some(2));
    g.advance_to_next_question();
    assert!(g.get_current_question().is_none());
    assert_eq!(g.state, GameState::Ended);
}

#[test]
fn stats_pick_first_longest_streak_and_perfect_players() {
    let mut g = game_with(3);
    for (id, name, streak) in [("1", "Ann", 2), ("2", "Ben", 3), ("3", "Cat", 3), ("4", "Dan", 9)] {
        g.add_player(id.to_string(), name.to_string());
        let last = g.players.len() - 1;
        g.players[last].streak = streak;
    }
    g.remove_player("4");
    let stats = g.get_game_stats();
    assert!(stats.fastest_answer.is_none());
    assert_eq!(stats.longest_streak, Some(("Ben".to_string(), 3)));
    assert_eq!(stats.perfect_score, vec!["Ben".to_string(), "Cat".to_string()]);
}

#[test]
fn stats_without_streaks() {
    let mut g = game_with(2);
    g.add_player("1".to_string(), "Ann".to_string());
    let stats = g.get_game_stats();
    assert!(stats.longest_streak.is_none());
    assert!(stats.perfect_score.is_empty());
}

#[test]
fn lobby_lists_connected_players_in_order() {
    let mut g = game_with(1);
    g.add_player("1".to_string(), "Ann".to_string());
    g.add_player("2".to_string(), "Ben".to_string());
    g.add_player("3".to_string(), "Cat".to_string());
    g.remove_player("2");
    let lobby = g.get_lobby_players();
    let names: Vec<&str> = lobby.iter().map(|p| p.name.as_str()).collect();
    assert_eq!(names, vec!["Ann", "Cat"]);
    assert_eq!(lobby[1].id, "3");
}

#[test]
fn streak_bonus_counts_the_answer_itself() {
    let mut g = game_with(3);
    g.add_player("a_1".to_string(), "Alice".to_string());
    let mut earned = Vec::new();
    for q in 0..3u64 {
        g.start_question(q * 100_000);
        g.submit_answer("a_1", 1, q * 100_000);
        earned.push(g.calculate_results()[0].points_earned);
    }
    assert_eq!(earned, vec![150, 165, 180]);
    assert_eq!(g.players[0].score, 495);
    assert_eq!(g.players[0].streak, 3);
}

#[test]
fn advancing_past_the_end_stays_ended() {
    let mut g = game_with(1);
    assert!(!g.advance_to_next_question());
    assert_eq!(g.current_question_idx, 1);
    assert!(!g.advance_to_next_question());
    assert_eq!(g.current_question_idx, 2);
    assert_eq!(g.state, GameState::Ended);
}

#[test]
fn announced_points_add_up_to_score_gain() {
    let mut g = game_with(2);
    g.add_player("a_1".to_string(), "Alice".to_string());
    g.add_player("b_2".to_string(), "Bob".to_string());
    g.add_player("c_3".to_string(), "Cid".to_string());
    g.players[0].score = 40;
    g.players[1].streak = 1;
    g.players[2].score = 500;
    g.remove_player("c_3");
    g.start_question(0);
    g.submit_answer("a_1", 1, 3_000);
    g.submit_answer("b_2", 1, 9_000);
    let before: u64 = g.players.iter().map(|p| p.score as u64).sum();
    let results = g.calculate_results();
    let after: u64 = g.players.iter().map(|p| p.score as u64).sum();
    let announced: u64 = results.iter().map(|r| r.points_earned as u64).sum();
    let ids: Vec<&str> = results.iter().map(|r| r.player_id.as_str()).collect();
    assert_eq!(ids, vec!["a_1", "b_2"]);
    assert_eq!(after - before, announced);
    assert_eq!(g.players[2].score, 500);
}

#[test]
fn leaderboard_lists_each_connected_player_once() {
    let mut g = game_with(1);
    for (id, name) in [("1", "Zoe"), ("2", "Amy"), ("3", "Off"), ("4", "Bea")] {
        g.add_player(id.to_string(), name.to_string());
    }
    g.add_player("2".to_string(), "Amy".to_string());
    g.remove_player("3");
    let board = g.get_leaderboard();
    let mut ids: Vec<&str> = board.iter().map(|e| e.player_id.as_str()).collect();
    ids.sort();
    assert_eq!(ids, vec!["1", "2", "4"]);
}
