use rust_rush_trivia::client::{ClientData, ClientState, Key, KeyOutcome};
use rust_rush_trivia::protocol::{GameStats, PlayerInfo, ServerMessage};

fn question_message(number: u32) -> ServerMessage {
    ServerMessage::Question {
        number,
        total: 10,
        text: "What?".to_string(),
        options: vec!["a".to_string(), "b".to_string(), "c".to_string(), "d".to_string()],
        time_limit: 15,
    }
}

#[test]
fn client_follows_server_messages() {
    let mut c = ClientData::new("Ann".to_string());
    assert!(matches!(c.state, ClientState::Connecting));
    assert!(matches!(ClientState::default(), ClientState::Connecting));
    c.handle_server_message(
        ServerMessage::Welcome { player_id: "Ann_1".to_string(), server_version: "1.0.0".to_string() },
        0,
    );
    assert_eq!(c.player_id.as_deref(), Some("Ann_1"));
    assert!(matches!(c.state, ClientState::Connecting));
    c.handle_server_message(
        ServerMessage::LobbyUpdate {
            players: vec![PlayerInfo { id: "Ann_1".to_string(), name: "Ann".to_string(), score: 0, streak: 0 }],
            total_count: 1,
        },
        0,
    );
    assert!(matches!(&c.state, ClientState::Lobby(p) if p.len() == 1));
    c.handle_server_message(ServerMessage::GameStart { total_questions: 10 }, 0);
    assert!(matches!(c.state, ClientState::WaitingForGame));
    c.handle_server_message(question_message(1), 5_000);
    assert!(matches!(c.state, ClientState::Question { number: 1, answered: false, selected_index: None, .. }));
    assert_eq!(c.question_start_time, Some(5_000));
    c.handle_server_message(
        ServerMessage::QuestionResult { correct_index: 2, player_results: vec![], leaderboard: vec![] },
        6_000,
    );
    assert!(matches!(c.state, ClientState::QuestionResult { correct_index: 2, .. }));
    c.handle_server_message(
        ServerMessage::GameEnd {
            final_leaderboard: vec![],
            stats: GameStats { fastest_answer: None, longest_streak: None, perfect_score: vec![] },
        },
        7_000,
    );
    assert!(matches!(c.state, ClientState::GameEnd { .. }));
    c.handle_server_message(ServerMessage::Error { message: "Game already in progress".to_string() }, 8_000);
    assert!(matches!(&c.state, ClientState::Error(m) if m == "Game already in progress"));
    assert_eq!(c.player_name, "Ann");
    assert_eq!(c.question_start_time, Some(5_000));
}

#[test]
fn time_remaining_counts_down() {
    let mut c = ClientData::new("Ann".to_string());
    assert_eq!(c.get_time_remaining(123), 15_000);
    c.handle_server_message(question_message(1), 10_000);
    assert_eq!(c.get_time_remaining(10_000), 15_000);
    assert_eq!(c.get_time_remaining(17_500), 7_500);
    assert_eq!(c.get_time_remaining(25_000), 0);
    assert_eq!(c.get_time_remaining(99_000), 0);
    assert_eq!(c.get_time_remaining(9_000), 15_000);
}

#[test]
fn keys_answer_once() {
    let mut c = ClientData::new("Ann".to_string());
    assert_eq!(c.handle_key(Key::Char('2')), KeyOutcome::Nothing);
    c.handle_server_message(question_message(3), 0);
    assert_eq!(c.handle_key(Key::Char('7')), KeyOutcome::Nothing);
    assert_eq!(c.handle_key(Key::Other), KeyOutcome::Nothing);
    assert_eq!(
        c.handle_key(Key::Char('3')),
        KeyOutcome::Answer { question_number: 3, choice_index: 2 }
    );
    assert!(matches!(c.state, ClientState::Question { answered: true, selected_index: Some(2), .. }));
    assert_eq!(c.handle_key(Key::Char('1')), KeyOutcome::Nothing);
    assert!(matches!(c.state, ClientState::Question { selected_index: Some(2), .. }));
    assert_eq!(c.handle_key(Key::Esc), KeyOutcome::Quit);
}
