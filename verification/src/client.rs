use vstd::prelude::*;

use crate::game::remaining_ms;
use crate::protocol::{GameStats, LeaderboardEntry, PlayerInfo, PlayerResult, ServerMessage};
use crate::scoring::QUESTION_TIME_MS;

verus! {

/// What the client is showing.
#[derive(Debug, Clone)]
pub enum ClientState {
    Connecting,
    Lobby(Vec<PlayerInfo>),
    WaitingForGame,
    Question {
        number: u32,
        total: u32,
        text: String,
        options: Vec<String>,
        time_limit: u32,
        answered: bool,
        selected_index: Option<u8>,
    },
    QuestionResult {
        correct_index: u8,
        player_results: Vec<PlayerResult>,
        leaderboard: Vec<LeaderboardEntry>,
    },
    GameEnd { final_leaderboard: Vec<LeaderboardEntry>, stats: GameStats },
    Error(String),
}

impl Default for ClientState {
    fn default() -> (s: Self)
        ensures
            s is Connecting,
    {
        ClientState::Connecting
    }
}

/// A key the player pressed.
#[derive(Debug, Clone, Copy, PartialEq, Eq, Structural)]
pub enum Key {
    Esc,
    Char(char),
    Other,
}

/// What the client does after a key press.
#[derive(Debug, Clone, Copy, PartialEq, Eq, Structural)]
pub enum KeyOutcome {
    /// Tell the server the player leaves, and quit.
    Quit,
    /// Send this answer to the server.
    Answer { question_number: u32, choice_index: u8 },
    /// Nothing to do.
    Nothing,
}

/// The client's view of the game.
pub struct ClientData {
    pub state: ClientState,
    pub player_id: Option<String>,
    pub player_name: String,
    /// Clock reading, in milliseconds, when the current question arrived.
    pub question_start_time: Option<u64>,
}

/// The option a digit key picks: `'1'` to `'4'` pick options 0 to 3.
pub open spec fn choice_for(c: char) -> Option<u8> {
    if c == '1' {
        Some(0u8)
    } else if c == '2' {
        Some(1u8)
    } else if c == '3' {
        Some(2u8)
    } else if c == '4' {
        Some(3u8)
    } else {
        None
    }
}

/// The option a key picks, if it picks one.
pub open spec fn key_choice(key: Key) -> Option<u8> {
    match key {
        Key::Char(c) => choice_for(c),
        _ => None,
    }
}

/// The digit keys `'1'` to `'4'`, and no other key, pick an option, and key
/// `k` picks the `k`-th option, at index `k - 1`.
pub proof fn lemma_digit_keys_pick_options(c: char)
    ensures
        key_choice(Key::Char('1')) == Some(0u8),
        key_choice(Key::Char('2')) == Some(1u8),
        key_choice(Key::Char('3')) == Some(2u8),
        key_choice(Key::Char('4')) == Some(3u8),
        key_choice(Key::Char(c)) is Some <==> '1' <= c && c <= '4',
        key_choice(Key::Char(c)) matches Some(i) ==> i as u32 + ('1' as u32) == c as u32,
        key_choice(Key::Esc) is None,
        key_choice(Key::Other) is None,
{
}

/// A question is shown that the player has not answered yet.
pub open spec fn awaiting_answer(s: ClientState) -> bool {
    match s {
        ClientState::Question { answered, .. } => !answered,
        _ => false,
    }
}

impl ClientData {
    /// A client connecting as `player_name`.
    pub fn new(player_name: String) -> (c: Self)
        ensures
            c.state is Connecting,
            c.player_id is None,
            c.player_name == player_name,
            c.question_start_time is None,
    {
        ClientData {
            state: ClientState::Connecting,
            player_id: None,
            player_name,
            question_start_time: None,
        }
    }

    /// Follows a message from the server that arrived at clock reading `now`.
    pub fn handle_server_message(&mut self, msg: ServerMessage, now: u64)
        ensures
            final(self).player_name == old(self).player_name,
            match msg {
                ServerMessage::Welcome { player_id, .. } => {
                    &&& final(self).player_id == Some(player_id)
                    &&& final(self).state == old(self).state
                    &&& final(self).question_start_time == old(self).question_start_time
                },
                ServerMessage::LobbyUpdate { players, .. } => {
                    &&& final(self).state == ClientState::Lobby(players)
                    &&& final(self).player_id == old(self).player_id
                    &&& final(self).question_start_time == old(self).question_start_time
                },
                ServerMessage::GameStart { .. } => {
                    &&& final(self).state == ClientState::WaitingForGame
                    &&& final(self).player_id == old(self).player_id
                    &&& final(self).question_start_time == old(self).question_start_time
                },
                ServerMessage::Question { number, total, text, options, time_limit } => {
                    &&& final(self).state == (ClientState::Question {
                        number,
                        total,
                        text,
                        options,
                        time_limit,
                        answered: false,
                        selected_index: None,
                    })
                    &&& final(self).player_id == old(self).player_id
                    &&& final(self).question_start_time == Some(now)
                },
                ServerMessage::QuestionResult { correct_index, player_results, leaderboard } => {
                    &&& final(self).state == (ClientState::QuestionResult {
                        correct_index,
                        player_results,
                        leaderboard,
                    })
                    &&& final(self).player_id == old(self).player_id
                    &&& final(self).question_start_time == old(self).question_start_time
                },
                ServerMessage::GameEnd { final_leaderboard, stats } => {
                    &&& final(self).state == (ClientState::GameEnd { final_leaderboard, stats })
                    &&& final(self).player_id == old(self).player_id
                    &&& final(self).question_start_time == old(self).question_start_time
                },
                ServerMessage::Error { message } => {
                    &&& final(self).state == ClientState::Error(message)
                    &&& final(self).player_id == old(self).player_id
                    &&& final(self).question_start_time == old(self).question_start_time
                },
            },
    {
        match msg {
            ServerMessage::Welcome { player_id, .. } => {
                self.player_id = Some(player_id);
            },
            ServerMessage::LobbyUpdate { players, .. } => {
                self.state = ClientState::Lobby(players);
            },
            ServerMessage::GameStart { .. } => {
                self.state = ClientState::WaitingForGame;
            },
            ServerMessage::Question { number, total, text, options, time_limit } => {
                self.state = ClientState::Question {
                    number,
                    total,
                    text,
                    options,
                    time_limit,
                    answered: false,
                    selected_index: None,
                };
                self.question_start_time = Some(now);
            },
            ServerMessage::QuestionResult { correct_index, player_results, leaderboard } => {
                self.state = ClientState::QuestionResult { correct_index, player_results, leaderboard };
            },
            ServerMessage::GameEnd { final_leaderboard, stats } => {
                self.state = ClientState::GameEnd { final_leaderboard, stats };
            },
            ServerMessage::Error { message } => {
                self.state = ClientState::Error(message);
            },
        }
    }

    /// Milliseconds left to answer the current question at clock reading
    /// `now`; the full time when no question has arrived.
    pub fn get_time_remaining(&self, now: u64) -> (left: u64)
        ensures
            self.question_start_time matches Some(start) ==> left == remaining_ms(start, now),
            self.question_start_time is None ==> left == QUESTION_TIME_MS,
    {
        match self.question_start_time {
            Some(start) => {
                let elapsed = if now >= start {
                    now - start
                } else {
                    0
                };
                if elapsed >= QUESTION_TIME_MS {
                    0
                } else {
                    QUESTION_TIME_MS - elapsed
                }
            },
            None => QUESTION_TIME_MS,
        }
    }

    /// Follows a key press: Esc quits; keys 1 to 4 answer an open question
    /// not yet answered, which is then marked answered with that choice.
    pub fn handle_key(&mut self, key: Key) -> (outcome: KeyOutcome)
        ensures
            final(self).player_id == old(self).player_id,
            final(self).player_name == old(self).player_name,
            final(self).question_start_time == old(self).question_start_time,
            key == Key::Esc ==> outcome == KeyOutcome::Quit && final(self).state == old(self).state,
            ({
                let answers = key_choice(key) is Some && awaiting_answer(old(self).state);
                &&& answers ==> (old(self).state matches ClientState::Question {
                    number,
                    total,
                    text,
                    options,
                    time_limit,
                    ..
                } && final(self).state == (ClientState::Question {
                    number,
                    total,
                    text,
                    options,
                    time_limit,
                    answered: true,
                    selected_index: key_choice(key),
                }) && outcome == (KeyOutcome::Answer {
                    question_number: number,
                    choice_index: key_choice(key)->0,
                }))
                &&& ((key matches Key::Char(c) && '1' <= c && c <= '4') && awaiting_answer(
                    old(self).state,
                )) ==> (outcome matches KeyOutcome::Answer { choice_index, .. } && choice_index as u32
                    + ('1' as u32) == key->Char_0 as u32)
                &&& (!answers && key != Key::Esc) ==> outcome == KeyOutcome::Nothing
                    && final(self).state == old(self).state
            }),
    {
        match key {
            Key::Esc => KeyOutcome::Quit,
            Key::Char(c) => {
                let choice: Option<u8> = if c == '1' {
                    Some(0)
                } else if c == '2' {
                    Some(1)
                } else if c == '3' {
                    Some(2)
                } else if c == '4' {
                    Some(3)
                } else {
                    None
                };
                match choice {
                    Some(choice_index) => {
                        let mut current = ClientState::Connecting;
                        std::mem::swap(&mut current, &mut self.state);
                        match current {
                            ClientState::Question {
                                number,
                                total,
                                text,
                                options,
                                time_limit,
                                answered,
                                selected_index,
                            } => {
                                if !answered {
                                    self.state = ClientState::Question {
                                        number,
                                        total,
                                        text,
                                        options,
                                        time_limit,
                                        answered: true,
                                        selected_index: Some(choice_index),
                                    };
                                    KeyOutcome::Answer { question_number: number, choice_index }
                                } else {
                                    self.state = ClientState::Question {
                                        number,
                                        total,
                                        text,
                                        options,
                                        time_limit,
                                        answered,
                                        selected_index,
                                    };
                                    KeyOutcome::Nothing
                                }
                            },
                            other => {
                                self.state = other;
                                KeyOutcome::Nothing
                            },
                        }
                    },
                    None => KeyOutcome::Nothing,
                }
            },
            Key::Other => KeyOutcome::Nothing,
        }
    }
}

} // verus!
