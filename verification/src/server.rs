use vstd::prelude::*;
use vstd::string::*;

use crate::game::{
    disconnected, elapsed_ms, entries_of, everyone_answered, fresh_player, has_player,
    is_leaderboard_of, lobby_of, opened_at, phase_after, player_index, remaining_ms, results_of,
    fits_reveal, room_to_score, scored, stats_of, with_answer, Game, GameState,
};
use crate::protocol::{ClientMessage, ServerMessage};
use crate::scoring::{calculate_score, QUESTION_TIME_MS};
use crate::text::{decimal, push_decimal};

verus! {

/// Seconds a client is told each question lasts.
pub const TIME_LIMIT_SECS: u32 = 15;

/// Pause after the game is announced, before question 1.
pub const START_PAUSE_MS: u64 = 2000;

/// Pause while the results of a question are on screen.
pub const REVEAL_PAUSE_MS: u64 = 4000;

/// Pause during a break between sets of questions.
pub const BREAK_PAUSE_MS: u64 = 5000;

/// How long a lobby with two or more connected players waits before the
/// game starts by itself.
pub const AUTO_START_MS: u64 = 30000;

/// Pause after the final leaderboard, before the server stops.
pub const END_PAUSE_MS: u64 = 10000;

/// What the server has to do after a decision.
#[derive(Debug)]
pub enum ServerAction {
    /// Send the message to every registered player.
    Broadcast(ServerMessage),
    /// Send the message to the player whose join was just handled, only.
    Reply(ServerMessage),
    /// Start delivering broadcasts to the player with this id.
    Register(String),
    /// Stop delivering broadcasts to the player with this id.
    Unregister(String),
    /// Pause for this many milliseconds.
    Sleep(u64),
    /// Shut the game loop down.
    Stop,
}

/// What the server resumes with once a pause is over.
#[derive(Debug, Clone, Copy, PartialEq, Eq, Structural)]
pub enum Pending {
    Nothing,
    /// Open question 1.
    FirstQuestion,
    /// Move past the question with this number.
    NextQuestion(u32),
    /// End the break that followed the question with this number.
    AfterBreak(u32),
}

/// The decisions of the game server, one method per event. After carrying
/// out the actions of a step in order, the caller reports `on_wake` with the
/// clock reading whenever `pending` is not `Pending::Nothing`.
pub struct GameServer {
    pub game: Game,
    /// Ids of the players who receive broadcasts; distinct.
    pub registered: Vec<String>,
    pub game_started: bool,
    pub pending: Pending,
    /// Clock reading when the lobby last came to hold two connected players.
    pub lobby_full_since: Option<u64>,
}

/// No two ids are equal.
pub open spec fn ids_unique(ids: Seq<String>) -> bool {
    forall|i: int, j: int| 0 <= i < j < ids.len() ==> ids[i]@ != ids[j]@
}

/// `id` is among `ids`.
pub open spec fn has_id(ids: Seq<String>, id: Seq<char>) -> bool {
    exists|i: int| 0 <= i < ids.len() && #[trigger] ids[i]@ == id
}

/// The position of `id` among `ids`.
pub open spec fn id_position(ids: Seq<String>, id: Seq<char>) -> int {
    choose|i: int| 0 <= i < ids.len() && #[trigger] ids[i]@ == id
}

/// The lobby as announced to everyone: the connected players and the number
/// of registered players.
pub open spec fn is_lobby_update(m: ServerMessage, g: Game, count: nat) -> bool {
    m matches ServerMessage::LobbyUpdate { players, total_count } && players@ == lobby_of(g.players@)
        && total_count == count as u32
}

/// Question `number` of `total`, with the text and options of `q`.
pub open spec fn is_question_message(
    m: ServerMessage,
    number: u32,
    total: u32,
    q: crate::questions::Question,
) -> bool {
    m matches ServerMessage::Question { number: n, total: t, text, options, time_limit } && n
        == number && t == total && text@ == q.text@ && options@ == q.options@ && time_limit
        == TIME_LIMIT_SECS
}

/// The results of the question just closed: the right option, each
/// connected player's result, and the leaderboard after scoring.
pub open spec fn is_results_message(m: ServerMessage, before: Game, after: Game) -> bool {
    m matches ServerMessage::QuestionResult { correct_index, player_results, leaderboard }
        && correct_index == before.questions@[before.current_question_idx as int].correct_index
        && player_results@ == results_of(before.players@, correct_index) && is_leaderboard_of(
        leaderboard@,
        entries_of(after.players@),
    )
}

/// The end of the game: final leaderboard and statistics.
pub open spec fn is_game_end_message(m: ServerMessage, g: Game) -> bool {
    m matches ServerMessage::GameEnd { final_leaderboard, stats } && is_leaderboard_of(
        final_leaderboard@,
        entries_of(g.players@),
    ) && stats_of(stats, g.players@, g.total_questions)
}

/// The number of the question that follows the break after question `q`.
pub open spec fn resume_number(q: u32) -> u32 {
    (q + 1) as u32
}

/// The question that follows a break is numbered by its position in the
/// game, one more than the position counted from 0, as every question is:
/// the open or revealed question, and the one a pending step announces,
/// carry the number of the game's position.
pub proof fn lemma_questions_numbered_by_position(s: GameServer)
    requires
        s.wf(),
    ensures
        s.pending matches Pending::AfterBreak(q) ==> resume_number(q) == (s.game.current_question_idx
            + 1) as u32,
        s.game.state matches GameState::Question(n) ==> n == (s.game.current_question_idx + 1) as u32,
        s.game.state matches GameState::Revealing(n) ==> n == (s.game.current_question_idx + 1) as u32,
{
    if let Pending::AfterBreak(q) = s.pending {
        let idx = s.game.current_question_idx;
        assert((q + 1) as u32 == (idx + 1) as u32) by (bit_vector)
            requires
                q == idx as u32,
        ;
    }
}

/// The number after position `idx`'s, when it does not wrap, is one more.
proof fn lemma_next_number(idx: usize, q: u32)
    requires
        q == idx as u32,
        q < u32::MAX,
    ensures
        q + 1 == (idx + 1) as u32,
{
    assert(q + 1 == (idx + 1) as u32) by (bit_vector)
        requires
            q == idx as u32,
            q < 0xffff_ffffu32,
    ;
}

/// The game moved past its current question.
pub open spec fn advanced(g: Game) -> Game {
    Game {
        state: phase_after(g.current_question_idx as int, g.questions@.len() as int),
        current_question_idx: (g.current_question_idx + 1) as usize,
        ..g
    }
}

/// `after` is `before` with the game started: question 1 set, the start
/// announced, and a pause before the question opens.
pub open spec fn started_from(after: GameServer, before: GameServer, actions: Seq<ServerAction>) -> bool {
    &&& after.game_started
    &&& after.game.state == GameState::Question(1)
    &&& after.game.current_question_idx == 0
    &&& after.game.players == before.game.players
    &&& after.game.questions == before.game.questions
    &&& after.game.question_start_time == before.game.question_start_time
    &&& after.game.total_questions == before.game.total_questions
    &&& after.registered == before.registered
    &&& after.lobby_full_since == before.lobby_full_since
    &&& after.pending == Pending::FirstQuestion
    &&& actions.len() == 2
    &&& actions[0] matches ServerAction::Broadcast(ServerMessage::GameStart { total_questions })
        && total_questions == before.game.total_questions
    &&& actions[1] == ServerAction::Sleep(START_PAUSE_MS)
}

/// At clock reading `now` the timer starts the game by itself: not started,
/// in the lobby, and two or more players have been connected for
/// `AUTO_START_MS`.
pub open spec fn auto_starts(s: GameServer, now: u64) -> bool {
    &&& !s.game_started
    &&& s.game.state == GameState::Lobby
    &&& lobby_of(s.game.players@).len() >= 2
    &&& s.lobby_full_since matches Some(since) && elapsed_ms(since, now) >= AUTO_START_MS
}

/// At clock reading `now` the timer closes the open question: the game has
/// started, a question is open, and its time is over or everyone answered.
pub open spec fn closes_question(s: GameServer, now: u64) -> bool {
    let g = s.game;
    &&& s.game_started
    &&& g.state is Question
    &&& g.question_start_time is Some
    &&& (elapsed_ms(g.question_start_time->0, now) > QUESTION_TIME_MS || everyone_answered(
        g.players@,
    ))
}

/// Every field but the game's players is as in `other`.
pub open spec fn same_except_players(s: GameServer, other: GameServer) -> bool {
    &&& s.game.same_but_players(&other.game)
    &&& s.registered@ == other.registered@
    &&& s.game_started == other.game_started
    &&& s.pending == other.pending
    &&& s.lobby_full_since == other.lobby_full_since
}


/// What the server does with a message from a player who has joined.
#[derive(Debug, Clone, Copy, PartialEq, Eq, Structural)]
pub enum ClientInput {
    /// Pass the chosen option on to the game.
    Answer(u8),
    /// The player leaves.
    Leave,
    /// Nothing to do.
    Ignore,
}

/// The name a connection joins with; its first message must be `Join`, any
/// other first message gets the connection closed.
pub fn join_name(msg: ClientMessage) -> (name: Option<String>)
    ensures
        msg matches ClientMessage::Join { player_name } ==> name == Some(player_name),
        !(msg is Join) ==> name is None,
{
    match msg {
        ClientMessage::Join { player_name } => Some(player_name),
        _ => None,
    }
}

/// The id of a player who joined with `name` from remote port `port`: the
/// name, an underscore, and the port in decimal.
pub fn player_id_for(name: &str, port: u16) -> (id: String)
    ensures
        id@ == name@ + seq!['_'] + decimal(port as nat),
{
    let mut id = String::from_str(name);
    proof {
        reveal_strlit("_");
    }
    id.append("_");
    push_decimal(&mut id, port as u64);
    id
}

/// The greeting a player gets on joining.
pub fn welcome(player_id: String) -> (m: ServerMessage)
    ensures
        m matches ServerMessage::Welcome { player_id: p, server_version } && p == player_id
            && server_version@ == "1.0.0"@,
{
    ServerMessage::Welcome { player_id, server_version: String::from_str("1.0.0") }
}

/// How the server treats a message from a joined player: answers go to the
/// game, a disconnect ends the connection, anything else is ignored.
pub fn classify_client_message(msg: &ClientMessage) -> (input: ClientInput)
    ensures
        *msg matches ClientMessage::Answer { choice_index, .. } ==> input == ClientInput::Answer(
            choice_index,
        ),
        msg is Disconnect ==> input == ClientInput::Leave,
        (msg is Join || msg is Ready) ==> input == ClientInput::Ignore,
{
    match msg {
        ClientMessage::Answer { choice_index, .. } => ClientInput::Answer(*choice_index),
        ClientMessage::Disconnect => ClientInput::Leave,
        _ => ClientInput::Ignore,
    }
}

fn string_position(ids: &Vec<String>, id: &String) -> (r: Option<usize>)
    ensures
        r matches Some(i) ==> i < ids@.len() && ids@[i as int]@ == id@,
        r is None ==> !has_id(ids@, id@),
{
    let n = ids.len();
    for i in 0..n
        invariant
            n == ids@.len(),
            forall|j: int| 0 <= j < i ==> ids@[j]@ != id@,
    {
        if ids[i] == *id {
            return Some(i);
        }
    }
    None
}

fn question_message(number: u32, total: u32, q: &crate::questions::Question) -> (m: ServerMessage)
    ensures
        is_question_message(m, number, total, *q),
{
    let mut options: Vec<String> = Vec::new();
    let n = q.options.len();
    for i in 0..n
        invariant
            n == q.options@.len(),
            options@.len() == i,
            forall|j: int| 0 <= j < i ==> options@[j] == q.options@[j],
    {
        options.push(q.options[i].clone());
    }
    assert(options@ =~= q.options@);
    ServerMessage::Question {
        number,
        total,
        text: q.text.clone(),
        options,
        time_limit: TIME_LIMIT_SECS,
    }
}

proof fn lemma_lobby_within_players(ps: Seq<crate::game::Player>)
    ensures
        lobby_of(ps).len() <= ps.len(),
    decreases ps.len(),
{
    if ps.len() > 0 {
        lemma_lobby_within_players(ps.drop_last());
    }
}

impl GameServer {
    /// The invariant every step keeps.
    pub open spec fn wf(&self) -> bool {
        let g = self.game;
        let ready = g.current_question_idx < g.questions@.len();
        &&& g.wf()
        &&& ids_unique(self.registered@)
        &&& g.question_start_time is Some ==> g.questions@.len() > 0
        &&& (g.state matches GameState::Question(_) && g.question_start_time is Some) ==> ready
        &&& g.state matches GameState::Revealing(_) ==> ready
        &&& g.state == GameState::Break ==> ready
        &&& self.pending matches Pending::NextQuestion(_) ==> ready
        &&& self.pending matches Pending::AfterBreak(_) ==> ready
        &&& g.state matches GameState::Question(n) ==> n == (g.current_question_idx + 1) as u32
        &&& g.state matches GameState::Revealing(n) ==> n == (g.current_question_idx + 1) as u32
        &&& self.pending matches Pending::NextQuestion(q) ==> q == (g.current_question_idx
            + 1) as u32
        &&& self.pending matches Pending::AfterBreak(q) ==> q == g.current_question_idx as u32
    }

    /// A server in the lobby, for a game over `questions`.
    pub fn new(questions: Vec<crate::questions::Question>) -> (s: Self)
        ensures
            s.wf(),
            s.game.state == GameState::Lobby,
            s.game.players@.len() == 0,
            s.game.questions == questions,
            s.game.current_question_idx == 0,
            s.game.question_start_time is None,
            s.game.total_questions == questions@.len() as u32,
            s.registered@.len() == 0,
            !s.game_started,
            s.pending == Pending::Nothing,
            s.lobby_full_since is None,
    {
        GameServer {
            game: Game::new(questions),
            registered: Vec::new(),
            game_started: false,
            pending: Pending::Nothing,
            lobby_full_since: None,
        }
    }

    /// Whether the caller owes an `on_wake` report.
    pub fn awaiting_wake(&self) -> (r: bool)
        ensures
            r == (self.pending != Pending::Nothing),
    {
        self.pending != Pending::Nothing
    }

    /// A player asks to join at clock reading `now`: accepted in the lobby,
    /// where everyone is sent the new lobby, and the auto-start countdown
    /// begins once two players are connected; refused once the game has
    /// started.
    pub fn on_player_joined(&mut self, id: String, name: String, now: u64) -> (actions: Vec<
        ServerAction,
    >)
        requires
            old(self).wf(),
        ensures
            final(self).wf(),
            old(self).game.state == GameState::Lobby ==> {
                &&& final(self).game.same_but_players(&old(self).game)
                &&& has_player(old(self).game.players@, id@) ==> final(self).game.players@ == old(
                    self,
                ).game.players@.update(
                    player_index(old(self).game.players@, id@),
                    fresh_player(id, name),
                )
                &&& !has_player(old(self).game.players@, id@) ==> final(self).game.players@ == old(
                    self,
                ).game.players@.push(fresh_player(id, name))
                &&& has_id(old(self).registered@, id@) ==> final(self).registered@ == old(
                    self,
                ).registered@.update(id_position(old(self).registered@, id@), id)
                &&& !has_id(old(self).registered@, id@) ==> final(self).registered@ == old(
                    self,
                ).registered@.push(id)
                &&& final(self).game_started == old(self).game_started
                &&& final(self).pending == old(self).pending
                &&& final(self).lobby_full_since == (if old(self).lobby_full_since is None && lobby_of(
                    final(self).game.players@,
                ).len() >= 2 {
                    Some(now)
                } else {
                    old(self).lobby_full_since
                })
                &&& actions@.len() == 2
                &&& actions@[0] == ServerAction::Register(id)
                &&& actions@[1] matches ServerAction::Broadcast(m) && is_lobby_update(
                    m,
                    final(self).game,
                    final(self).registered@.len(),
                )
            },
            old(self).game.state != GameState::Lobby ==> {
                &&& final(self).game.players == old(self).game.players
                &&& same_except_players(*final(self), *old(self))
                &&& actions@.len() == 1
                &&& actions@[0] matches ServerAction::Reply(ServerMessage::Error { message })
                    && message@ == "Game already in progress"@
            },
    {
        let mut actions: Vec<ServerAction> = Vec::new();
        if self.game.state == GameState::Lobby {
            let ghost gid = id;
            let ghost old_reg = self.registered@;
            self.game.add_player(id.clone(), name);
            match string_position(&self.registered, &id) {
                Some(i) => {
                    proof {
                        let k = id_position(old_reg, gid@);
                        assert(0 <= k < old_reg.len() && old_reg[k]@ == gid@);
                        assert(k == i as int) by {
                            if k != i as int {
                                if k < i {
                                    assert(old_reg[k]@ != old_reg[i as int]@);
                                } else {
                                    assert(old_reg[i as int]@ != old_reg[k]@);
                                }
                            }
                        }
                    }
                    self.registered.set(i, id.clone());
                },
                None => {
                    self.registered.push(id.clone());
                },
            }
            proof {
                assert forall|a: int, b: int| 0 <= a < b < self.registered@.len() implies self.registered@[a]@
                    != self.registered@[b]@ by {
                    if b == old_reg.len() {
                        assert(self.registered@[a] == old_reg[a]);
                    }
                }
            }
            actions.push(ServerAction::Register(id));
            let players = self.game.get_lobby_players();
            if self.lobby_full_since.is_none() && players.len() >= 2 {
                self.lobby_full_since = Some(now);
            }
            let count = self.registered.len() as u32;
            actions.push(
                ServerAction::Broadcast(ServerMessage::LobbyUpdate { players, total_count: count }),
            );
        } else {
            let message = String::from_str("Game already in progress");
            actions.push(ServerAction::Reply(ServerMessage::Error { message }));
        }
        actions
    }

    /// A player's connection is gone: the player is marked as not connected
    /// and unregistered; in the lobby everyone is sent the new lobby. With
    /// fewer than two players connected the auto-start countdown stops.
    pub fn on_player_disconnected(&mut self, id: String) -> (actions: Vec<ServerAction>)
        requires
            old(self).wf(),
        ensures
            final(self).wf(),
            final(self).game.same_but_players(&old(self).game),
            final(self).game_started == old(self).game_started,
            final(self).pending == old(self).pending,
            final(self).lobby_full_since == (if lobby_of(final(self).game.players@).len() < 2 {
                None
            } else {
                old(self).lobby_full_since
            }),
            has_player(old(self).game.players@, id@) ==> final(self).game.players@ == old(
                self,
            ).game.players@.update(
                player_index(old(self).game.players@, id@),
                disconnected(old(self).game.players@[player_index(old(self).game.players@, id@)]),
            ),
            !has_player(old(self).game.players@, id@) ==> final(self).game.players@ == old(
                self,
            ).game.players@,
            has_id(old(self).registered@, id@) ==> final(self).registered@ == old(
                self,
            ).registered@.remove(id_position(old(self).registered@, id@)),
            !has_id(old(self).registered@, id@) ==> final(self).registered@ == old(self).registered@,
            actions@.len() >= 1,
            actions@[0] == ServerAction::Unregister(id),
            old(self).game.state == GameState::Lobby ==> actions@.len() == 2 && (
            actions@[1] matches ServerAction::Broadcast(m) && is_lobby_update(
                m,
                final(self).game,
                final(self).registered@.len(),
            )),
            old(self).game.state != GameState::Lobby ==> actions@.len() == 1,
    {
        self.game.remove_player(id.as_str());
        let ghost old_reg = self.registered@;
        match string_position(&self.registered, &id) {
            Some(i) => {
                proof {
                    let k = id_position(old_reg, id@);
                    assert(0 <= k < old_reg.len() && old_reg[k]@ == id@);
                    assert(k == i as int) by {
                        if k != i as int {
                            if k < i {
                                assert(old_reg[k]@ != old_reg[i as int]@);
                            } else {
                                assert(old_reg[i as int]@ != old_reg[k]@);
                            }
                        }
                    }
                }
                self.registered.remove(i);
                proof {
                    assert forall|a: int, b: int|
                        0 <= a < b < self.registered@.len() implies self.registered@[a]@
                        != self.registered@[b]@ by {
                        if a < i {
                            if b < i {
                                assert(self.registered@[b] == old_reg[b]);
                            } else {
                                assert(self.registered@[b] == old_reg[b + 1]);
                            }
                        } else {
                            assert(self.registered@[a] == old_reg[a + 1]);
                            assert(self.registered@[b] == old_reg[b + 1]);
                        }
                    }
                }
            },
            None => {},
        }
        if self.game.connected_count() < 2 {
            self.lobby_full_since = None;
        }
        let mut actions: Vec<ServerAction> = Vec::new();
        actions.push(ServerAction::Unregister(id));
        if self.game.state == GameState::Lobby {
            let players = self.game.get_lobby_players();
            let count = self.registered.len() as u32;
            actions.push(
                ServerAction::Broadcast(ServerMessage::LobbyUpdate { players, total_count: count }),
            );
        }
        actions
    }

    /// A player answers: recorded while a question is open, with the time
    /// left at clock reading `now`, unless refused as `Game::submit_answer`
    /// refuses. Returns whether the answer was recorded.
    pub fn on_player_answer(&mut self, id: &str, choice: u8, now: u64) -> (accepted: bool)
        requires
            old(self).wf(),
        ensures
            final(self).wf(),
            same_except_players(*final(self), *old(self)),
            accepted == (old(self).game.state is Question && has_player(old(self).game.players@, id@)
                && old(self).game.players@[player_index(
                old(self).game.players@,
                id@,
            )].current_answer is None && old(self).game.question_start_time is Some),
            accepted ==> final(self).game.players@ == old(self).game.players@.update(
                player_index(old(self).game.players@, id@),
                with_answer(
                    old(self).game.players@[player_index(old(self).game.players@, id@)],
                    choice,
                    remaining_ms(old(self).game.question_start_time->0, now),
                ),
            ),
            !accepted ==> final(self).game.players@ == old(self).game.players@,
    {
        if let GameState::Question(_) = self.game.state {
            self.game.submit_answer(id, choice, now)
        } else {
            false
        }
    }

    /// The host starts the game: with two or more players, question 1 is
    /// announced after a pause; with fewer, nothing happens.
    pub fn on_start_game(&mut self) -> (actions: Vec<ServerAction>)
        requires
            old(self).wf(),
        ensures
            final(self).wf(),
            old(self).game.players@.len() >= 2 ==> started_from(*final(self), *old(self), actions@),
            old(self).game.players@.len() < 2 ==> *final(self) == *old(self) && actions@.len() == 0,
    {
        if self.game.players.len() >= 2 {
            self.start()
        } else {
            Vec::new()
        }
    }

    /// Starts the game.
    fn start(&mut self) -> (actions: Vec<ServerAction>)
        requires
            old(self).wf(),
            old(self).game.players@.len() >= 2,
        ensures
            final(self).wf(),
            started_from(*final(self), *old(self), actions@),
    {
        let mut actions: Vec<ServerAction> = Vec::new();
        {
            self.game_started = true;
            self.game.start_game();
            actions.push(
                ServerAction::Broadcast(
                    ServerMessage::GameStart { total_questions: self.game.total_questions },
                ),
            );
            actions.push(ServerAction::Sleep(START_PAUSE_MS));
            self.pending = Pending::FirstQuestion;
        }
        actions
    }

    /// Opens the current question at `now` and announces it as `number`.
    fn open_question(&mut self, number: u32, now: u64) -> (actions: Vec<ServerAction>)
        requires
            old(self).wf(),
            old(self).game.current_question_idx < old(self).game.questions@.len(),
        ensures
            final(self).wf(),
            opened_at(final(self).game, old(self).game, now),
            final(self).registered == old(self).registered,
            final(self).lobby_full_since == old(self).lobby_full_since,
            final(self).game_started == old(self).game_started,
            final(self).pending == old(self).pending,
            actions@.len() == 1,
            actions@[0] matches ServerAction::Broadcast(m) && is_question_message(
                m,
                number,
                old(self).game.total_questions,
                old(self).game.questions@[old(self).game.current_question_idx as int],
            ),
    {
        let m = question_message(
            number,
            self.game.total_questions,
            &self.game.questions[self.game.current_question_idx],
        );
        self.game.start_question(now);
        let mut actions: Vec<ServerAction> = Vec::new();
        actions.push(ServerAction::Broadcast(m));
        actions
    }

    /// Whether a timer tick at clock reading `now` can score the open question
    /// without a score or streak leaving the range of `u32`; ticks that close
    /// nothing are always safe.
    pub fn tick_is_safe(&self, now: u64) -> (safe: bool)
        requires
            self.wf(),
        ensures
            safe == (closes_question(*self, now) ==> room_to_score(
                self.game.players@,
                self.game.questions@[self.game.current_question_idx as int].correct_index,
            )),
    {
        if !self.game_started {
            return true;
        }
        let open = match self.game.state {
            GameState::Question(_) => true,
            _ => false,
        };
        if !open {
            return true;
        }
        let start = match self.game.question_start_time {
            Some(start) => start,
            None => {
                return true;
            },
        };
        let elapsed = if now >= start {
            now - start
        } else {
            0
        };
        if !(elapsed > QUESTION_TIME_MS || self.game.all_answered()) {
            return true;
        }
        let correct = self.game.questions[self.game.current_question_idx].correct_index;
        let n = self.game.players.len();
        let ghost ps = self.game.players@;
        for i in 0..n
            invariant
                n == ps.len(),
                ps == self.game.players@,
                correct == self.game.questions@[self.game.current_question_idx as int].correct_index,
                forall|j: int| 0 <= j < i ==> #[trigger] fits_reveal(ps[j], correct),
                closes_question(*self, now),
        {
            let p = &self.game.players[i];
            if p.connected {
                match p.current_answer {
                    Some((choice, left)) => {
                        if choice == correct {
                            if p.streak == u32::MAX {
                                assert(!fits_reveal(ps[i as int], correct));
                                return false;
                            }
                            let earned = calculate_score(left, p.streak + 1);
                            if p.score > u32::MAX - earned {
                                assert(!fits_reveal(ps[i as int], correct));
                                return false;
                            }
                        }
                    },
                    None => {},
                }
            }
        }
        true
    }

    /// The 100 ms timer of a started game fires at clock reading `now`: an
    /// open question closes when its time is over or everyone has answered,
    /// and the results are announced; results on screen lead to a pause.
    pub fn on_tick(&mut self, now: u64) -> (actions: Vec<ServerAction>)
        requires
            old(self).wf(),
            closes_question(*old(self), now) ==> room_to_score(
                old(self).game.players@,
                old(self).game.questions@[old(self).game.current_question_idx as int].correct_index,
            ),
        ensures
            final(self).wf(),
            ({
                let g = old(self).game;
                let closes = closes_question(*old(self), now);
                let pauses = old(self).game_started && g.state is Revealing;
                let starts = auto_starts(*old(self), now);
                &&& closes ==> {
                    &&& scored(
                        Game { state: g.state, ..final(self).game },
                        g,
                    )
                    &&& final(self).game.state == GameState::Revealing(g.state->Question_0)
                    &&& final(self).lobby_full_since == old(self).lobby_full_since
                    &&& final(self).registered == old(self).registered
                    &&& final(self).game_started == old(self).game_started
                    &&& final(self).pending == old(self).pending
                    &&& actions@.len() == 1
                    &&& actions@[0] matches ServerAction::Broadcast(m) && is_results_message(
                        m,
                        g,
                        final(self).game,
                    )
                }
                &&& pauses ==> {
                    &&& final(self).game == g
                    &&& final(self).lobby_full_since == old(self).lobby_full_since
                    &&& final(self).registered == old(self).registered
                    &&& final(self).game_started == old(self).game_started
                    &&& final(self).pending == Pending::NextQuestion(g.state->Revealing_0)
                    &&& actions@.len() == 1
                    &&& actions@[0] == ServerAction::Sleep(REVEAL_PAUSE_MS)
                }
                &&& starts ==> started_from(*final(self), *old(self), actions@)
                &&& !closes && !pauses && !starts ==> *final(self) == *old(self) && actions@.len()
                    == 0
            }),
    {
        let mut actions: Vec<ServerAction> = Vec::new();
        if !self.game_started {
            if self.game.state == GameState::Lobby {
                if let Some(since) = self.lobby_full_since {
                    let waited = if now >= since {
                        now - since
                    } else {
                        0
                    };
                    if waited >= AUTO_START_MS && self.game.connected_count() >= 2 {
                        proof {
                            lemma_lobby_within_players(self.game.players@);
                        }
                        return self.start();
                    }
                }
            }
            return actions;
        }
        match self.game.state {
            GameState::Question(qnum) => {
                match self.game.question_start_time {
                    Some(start) => {
                        let elapsed = if now >= start {
                            now - start
                        } else {
                            0
                        };
                        if elapsed > QUESTION_TIME_MS || self.game.all_answered() {
                            let correct_index =
                                self.game.questions[self.game.current_question_idx].correct_index;
                            let player_results = self.game.calculate_results();
                            let leaderboard = self.game.get_leaderboard();
                            self.game.state = GameState::Revealing(qnum);
                            actions.push(
                                ServerAction::Broadcast(
                                    ServerMessage::QuestionResult {
                                        correct_index,
                                        player_results,
                                        leaderboard,
                                    },
                                ),
                            );
                        }
                    },
                    None => {},
                }
            },
            GameState::Revealing(qnum) => {
                self.pending = Pending::NextQuestion(qnum);
                actions.push(ServerAction::Sleep(REVEAL_PAUSE_MS));
            },
            _ => {},
        }
        actions
    }

    /// A pause is over at clock reading `now`; the server resumes with what
    /// was pending: opening question 1, moving past a revealed question
    /// (into a break, the next question, or the end of the game), or ending
    /// a break.
    pub fn on_wake(&mut self, now: u64) -> (actions: Vec<ServerAction>)
        requires
            old(self).wf(),
            old(self).pending matches Pending::AfterBreak(q) ==> q < u32::MAX,
        ensures
            final(self).wf(),
            final(self).registered == old(self).registered,
            final(self).game_started == old(self).game_started,
            final(self).lobby_full_since == old(self).lobby_full_since,
            ({
                let g = old(self).game;
                let ready = g.current_question_idx < g.questions@.len();
                match old(self).pending {
                    Pending::Nothing => *final(self) == *old(self) && actions@.len() == 0,
                    Pending::FirstQuestion => {
                        &&& final(self).pending == Pending::Nothing
                        &&& ready ==> opened_at(final(self).game, g, now) && actions@.len() == 1 && (
                        actions@[0] matches ServerAction::Broadcast(m) && is_question_message(
                            m,
                            1,
                            g.total_questions,
                            g.questions@[g.current_question_idx as int],
                        ))
                        &&& !ready ==> final(self).game == g && actions@.len() == 0
                    },
                    Pending::NextQuestion(q) => {
                        let a = advanced(g);
                        &&& a.state == GameState::Break ==> {
                            &&& final(self).game == a
                            &&& final(self).pending == Pending::AfterBreak(q)
                            &&& actions@.len() == 1
                            &&& actions@[0] == ServerAction::Sleep(BREAK_PAUSE_MS)
                        }
                        &&& a.state is Question ==> {
                            &&& opened_at(final(self).game, a, now)
                            &&& final(self).pending == Pending::Nothing
                            &&& actions@.len() == 1
                            &&& actions@[0] matches ServerAction::Broadcast(m) && is_question_message(
                                m,
                                a.state->Question_0,
                                g.total_questions,
                                g.questions@[a.current_question_idx as int],
                            )
                        }
                        &&& a.state == GameState::Ended ==> {
                            &&& final(self).game == a
                            &&& final(self).pending == Pending::Nothing
                            &&& actions@.len() == 3
                            &&& actions@[0] matches ServerAction::Broadcast(m) && is_game_end_message(
                                m,
                                a,
                            )
                            &&& actions@[1] == ServerAction::Sleep(END_PAUSE_MS)
                            &&& actions@[2] == ServerAction::Stop
                        }
                    },
                    Pending::AfterBreak(q) => {
                        let resumed = Game { state: GameState::Question(resume_number(q)), ..g };
                        &&& opened_at(final(self).game, resumed, now)
                        &&& final(self).pending == Pending::Nothing
                        &&& actions@.len() == 1
                        &&& actions@[0] matches ServerAction::Broadcast(m) && is_question_message(
                            m,
                            resume_number(q),
                            g.total_questions,
                            g.questions@[g.current_question_idx as int],
                        )
                        &&& final(self).game.state == GameState::Question(
                            (g.current_question_idx + 1) as u32,
                        )
                        &&& actions@[0] matches ServerAction::Broadcast(ServerMessage::Question { number, .. })
                            && number == (g.current_question_idx + 1) as u32
                    },
                }
            }),
    {
        match self.pending {
            Pending::Nothing => Vec::new(),
            Pending::FirstQuestion => {
                self.pending = Pending::Nothing;
                if self.game.current_question_idx < self.game.questions.len() {
                    self.open_question(1, now)
                } else {
                    Vec::new()
                }
            },
            Pending::NextQuestion(q) => {
                self.pending = Pending::Nothing;
                let count = self.game.questions.len();
                assert(self.game.current_question_idx < count);
                if self.game.advance_to_next_question() {
                    match self.game.state {
                        GameState::Break => {
                            self.pending = Pending::AfterBreak(q);
                            let mut actions: Vec<ServerAction> = Vec::new();
                            actions.push(ServerAction::Sleep(BREAK_PAUSE_MS));
                            actions
                        },
                        GameState::Question(next_num) => self.open_question(next_num, now),
                        _ => Vec::new(),
                    }
                } else {
                    let final_leaderboard = self.game.get_leaderboard();
                    let stats = self.game.get_game_stats();
                    let mut actions: Vec<ServerAction> = Vec::new();
                    actions.push(
                        ServerAction::Broadcast(ServerMessage::GameEnd { final_leaderboard, stats }),
                    );
                    actions.push(ServerAction::Sleep(END_PAUSE_MS));
                    actions.push(ServerAction::Stop);
                    actions
                }
            },
            Pending::AfterBreak(q) => {
                proof {
                    lemma_next_number(self.game.current_question_idx, q);
                }
                self.pending = Pending::Nothing;
                self.game.state = GameState::Question(q + 1);
                self.open_question(q + 1, now)
            },
        }
    }
}

} // verus!
