use vstd::prelude::*;

verus! {

/// A player as shown in the lobby.
#[derive(Debug, Clone)]
pub struct PlayerInfo {
    pub id: String,
    pub name: String,
    pub score: u32,
    pub streak: u32,
}

/// How one player fared on the question just closed.
#[derive(Debug, Clone)]
pub struct PlayerResult {
    pub player_id: String,
    pub player_name: String,
    pub answered: bool,
    pub correct: bool,
    /// Milliseconds the player took to answer, if they answered.
    pub answer_time: Option<u64>,
    pub points_earned: u32,
}

/// One line of the leaderboard; ranks start at 1.
#[derive(Debug, Clone)]
pub struct LeaderboardEntry {
    pub rank: u32,
    pub player_id: String,
    pub player_name: String,
    pub score: u32,
    pub streak: u32,
}

/// Statistics announced at the end of a game.
#[derive(Debug, Clone)]
pub struct GameStats {
    /// Fastest answer (player name, milliseconds); the game does not track it.
    pub fastest_answer: Option<(String, u64)>,
    /// Longest streak still running at the end (player name, streak).
    pub longest_streak: Option<(String, u32)>,
    /// Names of the players whose streak covers every question.
    pub perfect_score: Vec<String>,
}

/// Messages from the server to a client.
#[derive(Debug, Clone)]
pub enum ServerMessage {
    Welcome { player_id: String, server_version: String },
    LobbyUpdate { players: Vec<PlayerInfo>, total_count: u32 },
    GameStart { total_questions: u32 },
    Question { number: u32, total: u32, text: String, options: Vec<String>, time_limit: u32 },
    QuestionResult {
        correct_index: u8,
        player_results: Vec<PlayerResult>,
        leaderboard: Vec<LeaderboardEntry>,
    },
    GameEnd { final_leaderboard: Vec<LeaderboardEntry>, stats: GameStats },
    Error { message: String },
}

/// Messages from a client to the server.
#[derive(Debug, Clone)]
pub enum ClientMessage {
    Join { player_name: String },
    /// An answer; `timestamp` is the client's wall clock in milliseconds.
    Answer { question_number: u32, choice_index: u8, timestamp: u64 },
    Ready,
    Disconnect,
}

} // verus!
