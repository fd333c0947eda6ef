use rust_rush_trivia::game::GameState;
use rust_rush_trivia::protocol::{ClientMessage, ServerMessage};
use rust_rush_trivia::questions::Question;
use rust_rush_trivia::server::{
    classify_client_message, join_name, welcome, ClientInput, GameServer, Pending, ServerAction,
};

fn question(id: u32, correct: u8) -> Question {
    Question {
        id,
        text: format!("Question {}", id),
        options: vec!["A".to_string(), "B".to_string(), "C".to_string(), "D".to_string()],
        correct_index: correct,
        category: "test".to_string(),
    }
}

fn server_with(n: u32) -> GameServer {
    GameServer::new((1..=n).map(|i| question(i, 0)).collect())
}

fn join(s: &mut GameServer, id: &str, name: &str) -> Vec<ServerAction> {
    s.on_player_joined(id.to_string(), name.to_string(), 0)
}

#[test]
fn joining_in_lobby_registers_and_announces() {
    let mut s = server_with(3);
    let a = join(&mut s, "ann_1", "Ann");
    assert_eq!(a.len(), 2);
    assert!(matches!(&a[0], ServerAction::Register(id) if id == "ann_1"));
    match &a[1] {
        ServerAction::Broadcast(ServerMessage::LobbyUpdate { players, total_count }) => {
            assert_eq!(players.len(), 1);
            assert_eq!(players[0].name, "Ann");
            assert_eq!(*total_count, 1);
        }
        other => panic!("unexpected {:?}", other),
    }
    let a = join(&mut s, "ben_2", "Ben");
    match &a[1] {
        ServerAction::Broadcast(ServerMessage::LobbyUpdate { players, total_count }) => {
            assert_eq!(players.len(), 2);
            assert_eq!(*total_count, 2);
        }
        other => panic!("unexpected {:?}", other),
    }
}

#[test]
fn disconnect_in_lobby_announces_smaller_lobby() {
    let mut s = server_with(3);
    join(&mut s, "ann_1", "Ann");
    join(&mut s, "ben_2", "Ben");
    let a = s.on_player_disconnected("ann_1".to_string());
    assert!(matches!(&a[0], ServerAction::Unregister(id) if id == "ann_1"));
    match &a[1] {
        ServerAction::Broadcast(ServerMessage::LobbyUpdate { players, total_count }) => {
            assert_eq!(players.len(), 1);
            assert_eq!(players[0].name, "Ben");
            assert_eq!(*total_count, 1);
        }
        other => panic!("unexpected {:?}", other),
    }
    assert_eq!(s.registered, vec!["ben_2".to_string()]);
}

#[test]
fn server_start_needs_two_players() {
    let mut s = server_with(3);
    join(&mut s, "ann_1", "Ann");
    assert!(s.on_start_game().is_empty());
    assert!(!s.game_started);
    assert_eq!(s.game.state, GameState::Lobby);
}

#[test]
fn late_joiner_is_refused() {
    let mut s = server_with(3);
    join(&mut s, "ann_1", "Ann");
    join(&mut s, "ben_2", "Ben");
    s.on_start_game();
    let a = join(&mut s, "cat_3", "Cat");
    assert_eq!(a.len(), 1);
    match &a[0] {
        ServerAction::Reply(ServerMessage::Error { message }) => {
            assert_eq!(message, "Game already in progress")
        }
        other => panic!("unexpected {:?}", other),
    }
    assert_eq!(s.game.players.len(), 2);
}

#[test]
fn full_game_flow() {
    let mut s = server_with(5);
    join(&mut s, "ann_1", "Ann");
    join(&mut s, "ben_2", "Ben");
    assert!(s.on_tick(0).is_empty());

    let a = s.on_start_game();
    assert!(matches!(&a[0], ServerAction::Broadcast(ServerMessage::GameStart { total_questions: 5 })));
    assert!(matches!(&a[1], ServerAction::Sleep(2000)));
    assert!(s.awaiting_wake());

    let a = s.on_wake(10_000);
    assert!(!s.awaiting_wake());
    match &a[0] {
        ServerAction::Broadcast(ServerMessage::Question { number, total, text, options, time_limit }) => {
            assert_eq!((*number, *total, *time_limit), (1, 5, 15));
            assert_eq!(text, "Question 1");
            assert_eq!(options.len(), 4);
        }
        other => panic!("unexpected {:?}", other),
    }
    assert_eq!(s.game.question_start_time, Some(10_000));

    assert!(s.on_player_answer("ann_1", 0, 11_000));
    assert!(!s.on_player_answer("ann_1", 1, 11_500));
    assert!(s.on_tick(12_000).is_empty());
    assert!(s.on_player_answer("ben_2", 3, 13_000));

    let a = s.on_tick(13_100);
    match &a[0] {
        ServerAction::Broadcast(ServerMessage::QuestionResult { correct_index, player_results, leaderboard }) => {
            assert_eq!(*correct_index, 0);
            assert_eq!(player_results.len(), 2);
            assert_eq!(player_results[0].points_earned, 146);
            assert_eq!(leaderboard[0].player_name, "Ann");
            assert_eq!(leaderboard[0].rank, 1);
            assert_eq!(leaderboard[1].player_name, "Ben");
        }
        other => panic!("unexpected {:?}", other),
    }
    assert_eq!(s.game.state, GameState::Revealing(1));

    let a = s.on_tick(13_200);
    assert!(matches!(&a[0], ServerAction::Sleep(4000)));
    assert_eq!(s.pending, Pending::NextQuestion(1));
    let a = s.on_wake(17_200);
    assert!(matches!(&a[0], ServerAction::Broadcast(ServerMessage::Question { number: 2, .. })));

    // Questions 2 to 4 close on time.
    for (n, t) in [(2u32, 40_000u64), (3, 80_000), (4, 120_000)] {
        let a = s.on_tick(t);
        assert!(matches!(&a[0], ServerAction::Broadcast(ServerMessage::QuestionResult { .. })), "q{}", n);
        s.on_tick(t + 100);
        let a = s.on_wake(t + 4_100);
        if n < 4 {
            assert!(matches!(&a[0], ServerAction::Broadcast(ServerMessage::Question { number, .. }) if *number == n + 1));
        } else {
            assert!(matches!(&a[0], ServerAction::Sleep(5000)));
            assert_eq!(s.game.state, GameState::Break);
            assert_eq!(s.pending, Pending::AfterBreak(4));
        }
    }
    let a = s.on_wake(130_000);
    match &a[0] {
        ServerAction::Broadcast(ServerMessage::Question { number, total, text, .. }) => {
            assert_eq!(*number, 5);
            assert_eq!(*total, 5);
            assert_eq!(text, "Question 5");
        }
        other => panic!("unexpected {:?}", other),
    }
    assert_eq!(s.game.state, GameState::Question(5));

    s.on_tick(150_000);
    s.on_tick(150_100);
    let a = s.on_wake(154_100);
    assert_eq!(a.len(), 3);
    match &a[0] {
        ServerAction::Broadcast(ServerMessage::GameEnd { final_leaderboard, stats }) => {
            assert_eq!(final_leaderboard.len(), 2);
            assert_eq!(final_leaderboard[0].player_name, "Ann");
            assert!(stats.longest_streak.is_none());
        }
        other => panic!("unexpected {:?}", other),
    }
    assert!(matches!(&a[1], ServerAction::Sleep(10000)));
    assert!(matches!(&a[2], ServerAction::Stop));
    assert_eq!(s.game.state, GameState::Ended);
}

#[test]
fn answers_outside_questions_are_ignored() {
    let mut s = server_with(2);
    join(&mut s, "ann_1", "Ann");
    assert!(!s.on_player_answer("ann_1", 0, 5));
}

#[test]
fn client_message_handling() {
    assert_eq!(
        join_name(ClientMessage::Join { player_name: "Ann".to_string() }),
        Some("Ann".to_string())
    );
    assert_eq!(join_name(ClientMessage::Ready), None);
    assert_eq!(
        classify_client_message(&ClientMessage::Answer { question_number: 3, choice_index: 2, timestamp: 9 }),
        ClientInput::Answer(2)
    );
    assert_eq!(classify_client_message(&ClientMessage::Disconnect), ClientInput::Leave);
    assert_eq!(classify_client_message(&ClientMessage::Ready), ClientInput::Ignore);
    match welcome("ann_1".to_string()) {
        ServerMessage::Welcome { player_id, server_version } => {
            assert_eq!(player_id, "ann_1");
            assert_eq!(server_version, "1.0.0");
        }
        other => panic!("unexpected {:?}", other),
    }
}

#[test]
fn ticks_are_safe_unless_a_score_would_overflow() {
    let mut s = server_with(2);
    join(&mut s, "ann_1", "Ann");
    join(&mut s, "ben_2", "Ben");
    assert!(s.tick_is_safe(0));
    s.on_start_game();
    s.on_wake(0);
    s.on_player_answer("ann_1", 0, 100);
    s.on_player_answer("ben_2", 1, 100);
    assert!(s.tick_is_safe(200));
    s.game.players[0].score = u32::MAX - 10;
    assert!(!s.tick_is_safe(200));
    s.game.players[0].score = 0;
    s.game.players[1].score = u32::MAX;
    assert!(s.tick_is_safe(200));
}

#[test]
fn lobby_starts_by_itself_after_thirty_seconds() {
    let mut s = server_with(3);
    s.on_player_joined("ann_1".to_string(), "Ann".to_string(), 1_000);
    assert_eq!(s.lobby_full_since, None);
    s.on_player_joined("ben_2".to_string(), "Ben".to_string(), 5_000);
    assert_eq!(s.lobby_full_since, Some(5_000));
    assert!(s.on_tick(34_999).is_empty());
    assert!(!s.game_started);
    let a = s.on_tick(35_000);
    assert!(s.game_started);
    assert!(matches!(&a[0], ServerAction::Broadcast(ServerMessage::GameStart { total_questions: 3 })));
    assert!(matches!(&a[1], ServerAction::Sleep(2000)));
    assert_eq!(s.game.state, GameState::Question(1));
    let a = s.on_wake(37_000);
    assert!(matches!(&a[0], ServerAction::Broadcast(ServerMessage::Question { number: 1, .. })));
}

#[test]
fn countdown_stops_when_a_player_leaves() {
    let mut s = server_with(3);
    s.on_player_joined("ann_1".to_string(), "Ann".to_string(), 0);
    s.on_player_joined("ben_2".to_string(), "Ben".to_string(), 1_000);
    s.on_player_disconnected("ben_2".to_string());
    assert_eq!(s.lobby_full_since, None);
    assert!(s.on_tick(100_000).is_empty());
    assert!(!s.game_started);
    s.on_player_joined("cat_3".to_string(), "Cat".to_string(), 200_000);
    assert_eq!(s.lobby_full_since, Some(200_000));
    assert!(s.on_tick(229_000).is_empty());
    assert!(!s.on_tick(230_000).is_empty());
}
