use vstd::prelude::*;
use vstd::string::*;

use crate::protocol::{GameStats, LeaderboardEntry, PlayerInfo, PlayerResult};
use crate::questions::Question;
use crate::scoring::{calculate_score, score_for, QUESTION_TIME_MS};
use crate::text::{chars_lt, lemma_chars_lt_asymmetric, lemma_chars_lt_transitive, str_less};

verus! {

/// A player known to the server; players who leave stay, marked as not
/// connected.
#[derive(Debug)]
pub struct Player {
    pub id: String,
    pub name: String,
    pub score: u32,
    pub streak: u32,
    pub connected: bool,
    /// The answer to the open question: (option index, milliseconds left).
    pub current_answer: Option<(u8, u64)>,
}

/// Phase of a game; question numbers start at 1.
#[derive(Debug, Clone, Copy, PartialEq, Eq, Structural)]
pub enum GameState {
    Lobby,
    Question(u32),
    Revealing(u32),
    Break,
    Ended,
}

/// A game in progress on the server.
pub struct Game {
    pub state: GameState,
    /// The players, in the order they first joined; ids are distinct.
    pub players: Vec<Player>,
    pub questions: Vec<Question>,
    pub current_question_idx: usize,
    /// Clock reading, in milliseconds, when the open question started.
    pub question_start_time: Option<u64>,
    pub total_questions: u32,
}

/// No two players share an id.
pub open spec fn ids_distinct(ps: Seq<Player>) -> bool {
    forall|i: int, j: int| 0 <= i < j < ps.len() ==> ps[i].id@ != ps[j].id@
}

/// No recorded answer claims more time left than a question has.
pub open spec fn answer_times_bounded(ps: Seq<Player>) -> bool {
    forall|i: int|
        0 <= i < ps.len() ==> (#[trigger] ps[i].current_answer matches Some((_, t)) ==> t
            <= QUESTION_TIME_MS)
}

/// Some player has the id `id`.
pub open spec fn has_player(ps: Seq<Player>, id: Seq<char>) -> bool {
    exists|i: int| 0 <= i < ps.len() && #[trigger] ps[i].id@ == id
}

/// The position of the player with id `id`.
pub open spec fn player_index(ps: Seq<Player>, id: Seq<char>) -> int {
    choose|i: int| 0 <= i < ps.len() && #[trigger] ps[i].id@ == id
}

/// A player who has just joined.
pub open spec fn fresh_player(id: String, name: String) -> Player {
    Player { id, name, score: 0, streak: 0, connected: true, current_answer: None }
}

/// The player with no answer recorded.
pub open spec fn without_answer(p: Player) -> Player {
    Player { current_answer: None, ..p }
}

/// The player with the answer `choice` recorded, given with `left`
/// milliseconds left.
pub open spec fn with_answer(p: Player, choice: u8, left: u64) -> Player {
    Player { current_answer: Some((choice, left)), ..p }
}

/// The player marked as no longer connected.
pub open spec fn disconnected(p: Player) -> Player {
    Player { connected: false, ..p }
}

/// Milliseconds left on a question started at `start` when the clock reads
/// `now`; a clock reading before the start counts as no time elapsed.
pub open spec fn remaining_ms(start: u64, now: u64) -> u64 {
    let elapsed: int = if now >= start { now - start } else { 0 };
    if elapsed >= QUESTION_TIME_MS {
        0
    } else {
        (QUESTION_TIME_MS - elapsed) as u64
    }
}

/// Milliseconds elapsed since `start` when the clock reads `now`.
pub open spec fn elapsed_ms(start: u64, now: u64) -> u64 {
    if now >= start {
        (now - start) as u64
    } else {
        0
    }
}

/// The player as shown in the lobby.
pub open spec fn info_of(p: Player) -> PlayerInfo {
    PlayerInfo { id: p.id, name: p.name, score: p.score, streak: p.streak }
}

/// The lobby view of the connected players, in order.
pub open spec fn lobby_of(ps: Seq<Player>) -> Seq<PlayerInfo>
    decreases ps.len(),
{
    if ps.len() == 0 {
        Seq::empty()
    } else if ps.last().connected {
        lobby_of(ps.drop_last()).push(info_of(ps.last()))
    } else {
        lobby_of(ps.drop_last())
    }
}

/// The phase that follows the question at 0-based position `idx`, when
/// `count` questions are in the game: the end after the last question, a
/// break before questions 5, 9, 13, ..., else the next question.
pub open spec fn phase_after(idx: int, count: int) -> GameState {
    let next_idx = idx + 1;
    if next_idx >= count {
        GameState::Ended
    } else {
        let next_number = (next_idx + 1) as u32;
        if next_number % 4 == 1 && next_number > 1 {
            GameState::Break
        } else {
            GameState::Question(next_number)
        }
    }
}


/// After the question numbered `idx + 1` comes the end when it was the last
/// one; otherwise a break when its number is a multiple of four, and else
/// the question numbered `idx + 2`.
pub proof fn lemma_breaks_every_four_questions(idx: int, count: int)
    requires
        0 <= idx,
        idx + 2 <= u32::MAX,
    ensures
        idx + 1 >= count ==> phase_after(idx, count) == GameState::Ended,
        idx + 1 < count && (idx + 1) % 4 == 0 ==> phase_after(idx, count) == GameState::Break,
        idx + 1 < count && (idx + 1) % 4 != 0 ==> phase_after(idx, count) == GameState::Question(
            (idx + 2) as u32,
        ),
{
}

/// At least one player is connected, and every connected player has
/// answered.
pub open spec fn everyone_answered(ps: Seq<Player>) -> bool {
    &&& exists|i: int| 0 <= i < ps.len() && #[trigger] ps[i].connected
    &&& forall|i: int| 0 <= i < ps.len() && #[trigger] ps[i].connected ==> ps[i].current_answer is Some
}

/// `after` is `before` with the current question opened at clock reading
/// `now`: the start time set and every answer cleared.
pub open spec fn opened_at(after: Game, before: Game, now: u64) -> bool {
    &&& after.state == before.state
    &&& after.questions == before.questions
    &&& after.current_question_idx == before.current_question_idx
    &&& after.total_questions == before.total_questions
    &&& after.question_start_time == Some(now)
    &&& after.players@.len() == before.players@.len()
    &&& forall|i: int|
        0 <= i < before.players@.len() ==> #[trigger] after.players@[i] == without_answer(
            before.players@[i],
        )
}

/// `after` is `before` with the current question scored: every player
/// revealed against its right option, nothing else changed.
pub open spec fn scored(after: Game, before: Game) -> bool {
    &&& after.same_but_players(&before)
    &&& after.players@.len() == before.players@.len()
    &&& forall|i: int|
        0 <= i < before.players@.len() ==> #[trigger] after.players@[i] == revealed(
            before.players@[i],
            before.questions@[before.current_question_idx as int].correct_index,
        )
}

/// The points a right answer given with `left` milliseconds left earns
/// player `p`: the answer itself counts in the streak, so the second right
/// answer in a row earns the +10% bonus and the third or later the +20%.
pub open spec fn points_for(p: Player, left: u64) -> int {
    score_for(left, (p.streak + 1) as u32)
}

/// The player once the open question is revealed with `correct` as the
/// right option: a connected player who answered right gains the score and
/// extends the streak; any other connected player loses the streak.
pub open spec fn revealed(p: Player, correct: u8) -> Player {
    if !p.connected {
        p
    } else {
        match p.current_answer {
            Some((choice, left)) => if choice == correct {
                Player {
                    score: (p.score + points_for(p, left)) as u32,
                    streak: (p.streak + 1) as u32,
                    ..p
                }
            } else {
                Player { streak: 0, ..p }
            },
            None => Player { streak: 0, ..p },
        }
    }
}

/// What a player is told about the question just revealed.
pub open spec fn result_of(p: Player, correct: u8) -> PlayerResult {
    match p.current_answer {
        Some((choice, left)) => PlayerResult {
            player_id: p.id,
            player_name: p.name,
            answered: true,
            correct: choice == correct,
            answer_time: Some((QUESTION_TIME_MS - left) as u64),
            points_earned: if choice == correct {
                points_for(p, left) as u32
            } else {
                0
            },
        },
        None => PlayerResult {
            player_id: p.id,
            player_name: p.name,
            answered: false,
            correct: false,
            answer_time: None,
            points_earned: 0,
        },
    }
}

/// The results of the connected players, in order.
pub open spec fn results_of(ps: Seq<Player>, correct: u8) -> Seq<PlayerResult>
    decreases ps.len(),
{
    if ps.len() == 0 {
        Seq::empty()
    } else if ps.last().connected {
        results_of(ps.drop_last(), correct).push(result_of(ps.last(), correct))
    } else {
        results_of(ps.drop_last(), correct)
    }
}

/// A player who scores on the question revealed with `correct` stays within
/// the range of `u32` in score and streak.
pub open spec fn fits_reveal(p: Player, correct: u8) -> bool {
    match p.current_answer {
        Some((choice, left)) => (p.connected && choice == correct) ==> p.score + points_for(p, left) <= u32::MAX && p.streak < u32::MAX,
        None => true,
    }
}

/// Every player who scores on the question revealed with `correct` stays
/// within the range of `u32`.
pub open spec fn room_to_score(ps: Seq<Player>, correct: u8) -> bool {
    forall|i: int| 0 <= i < ps.len() ==> #[trigger] fits_reveal(ps[i], correct)
}

/// The leaderboard line of a player, before ranking.
pub open spec fn entry_of(p: Player) -> LeaderboardEntry {
    LeaderboardEntry { rank: 0, player_id: p.id, player_name: p.name, score: p.score, streak: p.streak }
}

/// The unranked leaderboard lines of the connected players, in order.
pub open spec fn entries_of(ps: Seq<Player>) -> Seq<LeaderboardEntry>
    decreases ps.len(),
{
    if ps.len() == 0 {
        Seq::empty()
    } else if ps.last().connected {
        entries_of(ps.drop_last()).push(entry_of(ps.last()))
    } else {
        entries_of(ps.drop_last())
    }
}

/// `a` is listed above `b`: a higher score, or the same score and a name
/// that comes first alphabetically.
pub open spec fn ranks_above(a: LeaderboardEntry, b: LeaderboardEntry) -> bool {
    a.score > b.score || (a.score == b.score && chars_lt(a.player_name@, b.player_name@))
}

/// The line with its rank cleared.
pub open spec fn unranked(e: LeaderboardEntry) -> LeaderboardEntry {
    LeaderboardEntry { rank: 0, ..e }
}

/// The line with rank `rank`.
pub open spec fn with_rank(e: LeaderboardEntry, rank: u32) -> LeaderboardEntry {
    LeaderboardEntry { rank, ..e }
}

/// No line is listed below one it ranks above.
pub open spec fn in_rank_order(es: Seq<LeaderboardEntry>) -> bool {
    forall|i: int, j: int| 0 <= i < j < es.len() ==> !ranks_above(#[trigger] es[j], #[trigger] es[i])
}

/// `board` lists exactly the lines of `entries`, in rank order, ranked
/// 1, 2, 3, ... from the top.
pub open spec fn is_leaderboard_of(board: Seq<LeaderboardEntry>, entries: Seq<LeaderboardEntry>) -> bool {
    &&& board.len() == entries.len()
    &&& board.map_values(|e: LeaderboardEntry| unranked(e)).to_multiset() == entries.to_multiset()
    &&& in_rank_order(board)
    &&& forall|i: int| 0 <= i < board.len() ==> #[trigger] board[i].rank == (i + 1) as u32
}

/// Player `i` is the first connected player with the longest streak, and
/// that streak is positive.
pub open spec fn holds_longest_streak(ps: Seq<Player>, i: int) -> bool {
    &&& 0 <= i < ps.len()
    &&& ps[i].connected
    &&& ps[i].streak > 0
    &&& forall|j: int|
        0 <= j < ps.len() && #[trigger] ps[j].connected ==> ps[j].streak <= ps[i].streak
    &&& forall|j: int| 0 <= j < i && #[trigger] ps[j].connected ==> ps[j].streak < ps[i].streak
}

/// The names of the connected players whose streak equals `total`, in order.
pub open spec fn perfect_names(ps: Seq<Player>, total: u32) -> Seq<String>
    decreases ps.len(),
{
    if ps.len() == 0 {
        Seq::empty()
    } else if ps.last().connected && ps.last().streak == total {
        perfect_names(ps.drop_last(), total).push(ps.last().name)
    } else {
        perfect_names(ps.drop_last(), total)
    }
}

/// `stats` are the end-of-game statistics of players `ps` in a game of
/// `total` questions.
pub open spec fn stats_of(stats: GameStats, ps: Seq<Player>, total: u32) -> bool {
    &&& stats.fastest_answer is None
    &&& stats.perfect_score@ == perfect_names(ps, total)
    &&& stats.longest_streak is None <==> (forall|j: int|
        0 <= j < ps.len() && #[trigger] ps[j].connected ==> ps[j].streak == 0)
    &&& stats.longest_streak matches Some((name, streak)) ==> exists|i: int|
        holds_longest_streak(ps, i) && name == ps[i].name && streak == #[trigger] ps[i].streak
}

proof fn lemma_ranks_above_asymmetric(a: LeaderboardEntry, b: LeaderboardEntry)
    ensures
        !(ranks_above(a, b) && ranks_above(b, a)),
{
    lemma_chars_lt_asymmetric(a.player_name@, b.player_name@);
}

proof fn lemma_ranks_above_transitive(a: LeaderboardEntry, b: LeaderboardEntry, c: LeaderboardEntry)
    requires
        ranks_above(a, b),
        ranks_above(b, c),
    ensures
        ranks_above(a, c),
{
    if a.score == b.score && b.score == c.score {
        lemma_chars_lt_transitive(a.player_name@, b.player_name@, c.player_name@);
    }
}

fn entry_ranks_above(a: &LeaderboardEntry, b: &LeaderboardEntry) -> (r: bool)
    ensures
        r == ranks_above(*a, *b),
{
    a.score > b.score || (a.score == b.score && str_less(a.player_name.as_str(), b.player_name.as_str()))
}

/// Puts `e` into the rank-ordered `board`, below every line it does not rank
/// above.
fn insert_ranked(board: &mut Vec<LeaderboardEntry>, e: LeaderboardEntry)
    requires
        in_rank_order(old(board)@),
    ensures
        in_rank_order(final(board)@),
        final(board)@.to_multiset() == old(board)@.to_multiset().insert(e),
        final(board)@.len() == old(board)@.len() + 1,
{
    let n = board.len();
    let mut p: usize = 0;
    while p < n && !entry_ranks_above(&e, &board[p])
        invariant
            n == board@.len(),
            p <= n,
            forall|k: int| 0 <= k < p ==> !ranks_above(e, #[trigger] board@[k]),
        decreases n - p,
    {
        p = p + 1;
    }
    let ghost old_b = board@;
    board.insert(p, e);
    proof {
        broadcast use vstd::seq_lib::to_multiset_insert;
        assert(board@.to_multiset() == old_b.to_multiset().insert(e));
        assert forall|i: int, j: int| 0 <= i < j < board@.len() implies !ranks_above(
            #[trigger] board@[j],
            #[trigger] board@[i],
        ) by {
            if j < p {
                assert(board@[i] == old_b[i] && board@[j] == old_b[j]);
            } else if j == p {
                assert(board@[i] == old_b[i]);
            } else if i == p {
                // e sits at p and ranks above old_b[p]
                let q = j - 1;
                assert(board@[j] == old_b[q]);
                assert(ranks_above(e, old_b[p as int]));
                if q == p {
                    lemma_ranks_above_asymmetric(e, old_b[q]);
                } else {
                    if ranks_above(old_b[q], e) {
                        lemma_ranks_above_transitive(old_b[q], e, old_b[p as int]);
                        assert(!ranks_above(old_b[q], old_b[p as int]));
                    }
                }
            } else if i < p {
                assert(board@[i] == old_b[i] && board@[j] == old_b[j - 1]);
            } else {
                assert(board@[i] == old_b[i - 1] && board@[j] == old_b[j - 1]);
            }
        }
    }
}

fn elapsed_since(start: u64, now: u64) -> (e: u64)
    ensures
        e == elapsed_ms(start, now),
{
    if now >= start {
        now - start
    } else {
        0
    }
}

fn player_view(p: &Player) -> (r: PlayerInfo)
    ensures
        r == info_of(*p),
{
    PlayerInfo { id: p.id.clone(), name: p.name.clone(), score: p.score, streak: p.streak }
}

/// The player's recorded answer is `correct`.
pub open spec fn answered_right(p: Player, correct: u8) -> bool {
    match p.current_answer {
        Some((choice, _)) => choice == correct,
        None => false,
    }
}

/// A connected player's score grows by exactly the points their result
/// announces, and the points are those of the answer's time and the streak
/// before it when the answer is right, nothing otherwise.
pub proof fn lemma_points_match_score_gain(p: Player, correct: u8)
    requires
        p.connected,
        fits_reveal(p, correct),
    ensures
        revealed(p, correct).score == p.score + result_of(p, correct).points_earned,
        result_of(p, correct).points_earned == (match p.current_answer {
            Some((choice, left)) => if choice == correct {
                points_for(p, left)
            } else {
                0
            },
            None => 0,
        }),
{
    if let Some((_, left)) = p.current_answer {
        crate::scoring::lemma_score_bounds(left, (p.streak + 1) as u32);
    }
}

/// A right answer earns the base points plus the time bonus, raised by 10%
/// when the player's streak before it is one (its second in a row) and by
/// 20% when that streak is two or more, rounded down; the points never
/// fall as the earlier streak grows (below the largest `u32`), and the score
/// rises by them.
pub proof fn lemma_right_answer_points(p: Player, correct: u8, left: u64)
    requires
        p.connected,
        p.current_answer == Some((correct, left)),
        fits_reveal(p, correct),
    ensures
        ({
            let raw = 100 + crate::scoring::time_bonus(left);
            let earned = result_of(p, correct).points_earned as int;
            &&& p.streak == 0 ==> earned == raw
            &&& p.streak == 1 ==> earned == raw * 11 / 10
            &&& p.streak >= 2 ==> earned == raw * 12 / 10
            &&& left >= 15000 && p.streak >= 2 ==> earned == 180
            &&& revealed(p, correct).score == p.score + earned
            &&& revealed(p, correct).streak == p.streak + 1
        }),
        forall|longer: u32|
            p.streak <= longer < u32::MAX ==> result_of(Player { streak: longer, ..p }, correct).points_earned
                >= #[trigger] result_of(p, correct).points_earned,
{
    crate::scoring::lemma_score_bounds(left, (p.streak + 1) as u32);
    lemma_points_match_score_gain(p, correct);
    assert forall|longer: u32|
        p.streak <= longer < u32::MAX implies result_of(Player { streak: longer, ..p }, correct).points_earned
            >= #[trigger] result_of(p, correct).points_earned by {
        crate::scoring::lemma_score_bounds(left, (longer as int + 1) as u32);
        crate::scoring::lemma_score_monotone_in_streak(left, (p.streak + 1) as u32, (longer as int + 1) as u32);
    }
}

/// Wrong or missing answers cost nothing: the score stays, the streak
/// ends, and no points are announced.
pub proof fn lemma_wrong_answer_no_penalty(p: Player, correct: u8)
    requires
        p.connected,
        !answered_right(p, correct),
    ensures
        revealed(p, correct).score == p.score,
        revealed(p, correct).streak == 0,
        result_of(p, correct).points_earned == 0,
{
}

/// Scoring a question never lowers anyone's score, and a right answer
/// extends the streak by one.
pub proof fn lemma_scores_never_drop(p: Player, correct: u8)
    requires
        fits_reveal(p, correct),
    ensures
        revealed(p, correct).score >= p.score,
        (p.connected && answered_right(p, correct)) ==> revealed(
            p,
            correct,
        ).streak == p.streak + 1,
        revealed(p, correct).id == p.id,
        revealed(p, correct).name == p.name,
        revealed(p, correct).connected == p.connected,
{
    if let Some((_, left)) = p.current_answer {
        crate::scoring::lemma_score_bounds(left, (p.streak + 1) as u32);
    }
}

/// Once a player's answer is recorded, the same player cannot answer that
/// question again: a second submission is refused.
pub proof fn lemma_answer_only_once(ps: Seq<Player>, id: Seq<char>, choice: u8, left: u64)
    requires
        ids_distinct(ps),
        has_player(ps, id),
    ensures
        ({
            let after = ps.update(player_index(ps, id), with_answer(ps[player_index(ps, id)], choice, left));
            has_player(after, id) && after[player_index(after, id)].current_answer is Some
        }),
{
    let k = player_index(ps, id);
    let after = ps.update(k, with_answer(ps[k], choice, left));
    assert(after[k].id@ == id);
    let k2 = player_index(after, id);
    assert(k2 == k) by {
        if k2 != k {
            if k2 < k {
                assert(ps[k2].id@ != ps[k].id@);
            } else {
                assert(ps[k].id@ != ps[k2].id@);
            }
        }
    }
}

/// The time left on a question is never more than the question's time,
/// and never grows as the clock advances.
pub proof fn lemma_time_left_shrinks(start: u64, earlier: u64, later: u64)
    requires
        earlier <= later,
    ensures
        remaining_ms(start, later) <= remaining_ms(start, earlier) <= QUESTION_TIME_MS,
{
}

/// Down the leaderboard scores never rise, lines of equal score come in
/// alphabetical order of name, and the line at position `i` (from 0) has
/// rank `i + 1`.
pub proof fn lemma_leaderboard_order(board: Seq<LeaderboardEntry>, entries: Seq<LeaderboardEntry>)
    requires
        is_leaderboard_of(board, entries),
    ensures
        forall|i: int, j: int|
            0 <= i < j < board.len() ==> (#[trigger] board[i]).score >= (#[trigger] board[j]).score && (
            board[i].score == board[j].score ==> !chars_lt(board[j].player_name@, board[i].player_name@)),
        forall|i: int| 0 <= i < board.len() ==> #[trigger] board[i].rank == (i + 1) as u32,
{
    assert forall|i: int, j: int| 0 <= i < j < board.len() implies (#[trigger] board[i]).score
        >= (#[trigger] board[j]).score && (board[i].score == board[j].score ==> !chars_lt(
        board[j].player_name@,
        board[i].player_name@,
    )) by {
        assert(!ranks_above(board[j], board[i]));
    }
}

/// The leaderboard's top line has the highest score of all the lines it
/// ranks, and every listed line is one of them.
pub proof fn lemma_leader_has_top_score(board: Seq<LeaderboardEntry>, entries: Seq<LeaderboardEntry>)
    requires
        is_leaderboard_of(board, entries),
        board.len() > 0,
    ensures
        forall|i: int| 0 <= i < entries.len() ==> #[trigger] entries[i].score <= board[0].score,
{
    broadcast use vstd::seq_lib::to_multiset_contains;

    let shown = board.map_values(|e: LeaderboardEntry| unranked(e));
    assert forall|i: int| 0 <= i < entries.len() implies #[trigger] entries[i].score <= board[0].score by {
        let e = entries[i];
        assert(entries.contains(e));
        assert(entries.to_multiset().count(e) > 0);
        assert(shown.to_multiset().count(e) > 0);
        assert(shown.contains(e));
        let k = choose|k: int| 0 <= k < shown.len() && shown[k] == e;
        assert(unranked(board[k]) == e);
        if k > 0 {
            assert(!ranks_above(board[k], board[0]));
        }
    }
}

/// The connected players, in order.
pub open spec fn connected_of(ps: Seq<Player>) -> Seq<Player>
    decreases ps.len(),
{
    if ps.len() == 0 {
        Seq::empty()
    } else if ps.last().connected {
        connected_of(ps.drop_last()).push(ps.last())
    } else {
        connected_of(ps.drop_last())
    }
}

/// The total of the players' scores.
pub open spec fn total_score(ps: Seq<Player>) -> int
    decreases ps.len(),
{
    if ps.len() == 0 {
        0
    } else {
        total_score(ps.drop_last()) + ps.last().score
    }
}

/// The total of the points the results announce.
pub open spec fn total_points(rs: Seq<PlayerResult>) -> int
    decreases rs.len(),
{
    if rs.len() == 0 {
        0
    } else {
        total_points(rs.drop_last()) + rs.last().points_earned
    }
}

/// The connected players are exactly the players marked connected, each
/// once, in order; the results, leaderboard lines and lobby follow them.
pub proof fn lemma_connected_players(ps: Seq<Player>, correct: u8)
    ensures
        forall|k: int|
            0 <= k < connected_of(ps).len() ==> (#[trigger] connected_of(ps)[k]).connected && ps.contains(
                connected_of(ps)[k],
            ),
        forall|i: int|
            0 <= i < ps.len() && ps[i].connected ==> connected_of(ps).contains(#[trigger] ps[i]),
        ids_distinct(ps) ==> ids_distinct(connected_of(ps)),
        results_of(ps, correct) == connected_of(ps).map_values(|p: Player| result_of(p, correct)),
        entries_of(ps) == connected_of(ps).map_values(|p: Player| entry_of(p)),
        lobby_of(ps) == connected_of(ps).map_values(|p: Player| info_of(p)),
    decreases ps.len(),
{
    if ps.len() > 0 {
        let rest = ps.drop_last();
        lemma_connected_players(rest, correct);
        let co = connected_of(ps);
        let cr = connected_of(rest);
        assert forall|k: int| 0 <= k < co.len() implies (#[trigger] co[k]).connected && ps.contains(co[k]) by {
            if k < cr.len() {
                assert(co[k] == cr[k]);
                let j = choose|j: int| 0 <= j < rest.len() && rest[j] == cr[k];
                assert(ps[j] == rest[j]);
            } else {
                let n = ps.len() - 1;
                assert(co[k] == ps[n]);
            }
        }
        assert forall|i: int| 0 <= i < ps.len() && ps[i].connected implies co.contains(
            #[trigger] ps[i],
        ) by {
            if i < ps.len() - 1 {
                assert(ps[i] == rest[i]);
                assert(cr.contains(rest[i]));
                let k = choose|k: int| 0 <= k < cr.len() && cr[k] == rest[i];
                assert(co[k] == cr[k]);
            } else {
                assert(co[co.len() - 1] == ps[i]);
            }
        }
        if ids_distinct(ps) {
            assert(ids_distinct(rest));
            assert forall|a: int, b: int| 0 <= a < b < co.len() implies co[a].id@ != co[b].id@ by {
                if b < cr.len() {
                    assert(co[a] == cr[a] && co[b] == cr[b]);
                } else {
                    assert(co[a] == cr[a]);
                    assert(rest.contains(cr[a]));
                    let j = choose|j: int| 0 <= j < rest.len() && rest[j] == cr[a];
                    assert(ps[j] == rest[j]);
                    assert(co[b] == ps[ps.len() - 1]);
                }
            }
        }
        assert(results_of(ps, correct) =~= co.map_values(|p: Player| result_of(p, correct)));
        assert(entries_of(ps) =~= co.map_values(|p: Player| entry_of(p)));
        assert(lobby_of(ps) =~= co.map_values(|p: Player| info_of(p)));
    }
}

/// Revealing a question adds to the players' total score exactly the points
/// the results announce, and each result is consistent: a right answer was
/// given, earned 100 to 180 points, and carries its answer time; anything
/// else earned nothing.
pub proof fn lemma_results_add_up(before: Seq<Player>, after: Seq<Player>, correct: u8)
    requires
        after.len() == before.len(),
        forall|i: int| 0 <= i < before.len() ==> #[trigger] after[i] == revealed(before[i], correct),
        room_to_score(before, correct),
    ensures
        total_score(after) == total_score(before) + total_points(results_of(before, correct)),
        forall|k: int|
            0 <= k < results_of(before, correct).len() ==> {
                let r = #[trigger] results_of(before, correct)[k];
                &&& r.correct ==> r.answered
                &&& r.answer_time is Some <==> r.answered
                &&& (r.points_earned > 0) == r.correct
                &&& r.correct ==> 100 <= r.points_earned <= 180
            },
    decreases before.len(),
{
    lemma_connected_players(before, correct);
    if before.len() > 0 {
        let n = before.len() - 1;
        let b0 = before.drop_last();
        let a0 = after.drop_last();
        assert forall|i: int| 0 <= i < b0.len() implies #[trigger] a0[i] == revealed(b0[i], correct) by {
            assert(after[i] == revealed(before[i], correct));
        }
        assert forall|i: int| 0 <= i < b0.len() implies #[trigger] fits_reveal(b0[i], correct) by {
            assert(fits_reveal(before[i], correct));
        }
        lemma_results_add_up(b0, a0, correct);
        let p = before.last();
        assert(fits_reveal(before[n], correct));
        assert(after[n] == revealed(p, correct));
        assert(after.drop_last() == a0);
        assert(total_score(after) == total_score(a0) + after[n].score);
        assert(total_score(before) == total_score(b0) + p.score);
        if p.connected {
            lemma_points_match_score_gain(p, correct);
            let rs = results_of(before, correct);
            assert(rs == results_of(b0, correct).push(result_of(p, correct)));
            assert(rs.drop_last() =~= results_of(b0, correct));
            assert(total_points(rs) == total_points(results_of(b0, correct)) + result_of(p, correct).points_earned);
        } else {
            assert(results_of(before, correct) == results_of(b0, correct));
        }
    }
    assert forall|k: int| 0 <= k < results_of(before, correct).len() implies {
        let r = #[trigger] results_of(before, correct)[k];
        &&& r.correct ==> r.answered
        &&& r.answer_time is Some <==> r.answered
        &&& (r.points_earned > 0) == r.correct
        &&& r.correct ==> 100 <= r.points_earned <= 180
    } by {
        let co = connected_of(before);
        assert(co[k].connected && before.contains(co[k]));
        let i = choose|i: int| 0 <= i < before.len() && before[i] == co[k];
        assert(results_of(before, correct)[k] == result_of(before[i], correct));
        if let Some((_, left)) = before[i].current_answer {
            crate::scoring::lemma_score_bounds(left, (before[i].streak + 1) as u32);
        }
    }
}

/// Two sequences with the same multiset hold the same items.
proof fn lemma_same_items(a: Seq<LeaderboardEntry>, b: Seq<LeaderboardEntry>)
    requires
        a.to_multiset() == b.to_multiset(),
    ensures
        forall|e: LeaderboardEntry| #[trigger] a.contains(e) <==> b.contains(e),
{
    broadcast use vstd::seq_lib::to_multiset_contains;

    assert forall|e: LeaderboardEntry| #[trigger] a.contains(e) <==> b.contains(e) by {
        if a.contains(e) {
            assert(a.to_multiset().count(e) > 0);
        }
        if b.contains(e) {
            assert(b.to_multiset().count(e) > 0);
        }
    }
}

/// The unranked lines of the players, told apart by their ids.
proof fn lemma_entries_distinct(ps: Seq<Player>)
    requires
        ids_distinct(ps),
    ensures
        forall|x: int, y: int|
            0 <= x < entries_of(ps).len() && 0 <= y < entries_of(ps).len() && x != y
                ==> (#[trigger] entries_of(ps)[x]).player_id@ != (#[trigger] entries_of(ps)[y]).player_id@,
        entries_of(ps).no_duplicates(),
{
    lemma_connected_players(ps, 0);
    let co = connected_of(ps);
    let entries = entries_of(ps);
    assert forall|x: int, y: int|
        0 <= x < entries.len() && 0 <= y < entries.len() && x != y implies (#[trigger] entries[x]).player_id@
        != (#[trigger] entries[y]).player_id@ by {
        assert(entries[x] == entry_of(co[x]) && entries[y] == entry_of(co[y]));
        if x < y {
            assert(co[x].id@ != co[y].id@);
        } else {
            assert(co[y].id@ != co[x].id@);
        }
    }
}

/// `e` carries the id, name, score and streak of a connected player.
pub open spec fn line_of_player(e: LeaderboardEntry, ps: Seq<Player>) -> bool {
    exists|i: int| 0 <= i < ps.len() && ps[i].connected && shows_player(e, ps[i])
}

/// `e` carries the id, name, score and streak of `p`.
pub open spec fn shows_player(e: LeaderboardEntry, p: Player) -> bool {
    &&& e.player_id == p.id
    &&& e.player_name == p.name
    &&& e.score == p.score
    &&& e.streak == p.streak
}

/// The leaderboard of distinct players lists each connected player exactly
/// once, with that player's name, score and streak, and no one else.
pub proof fn lemma_leaderboard_lists_each_player_once(ps: Seq<Player>, board: Seq<LeaderboardEntry>)
    requires
        ids_distinct(ps),
        is_leaderboard_of(board, entries_of(ps)),
    ensures
        board.len() == connected_of(ps).len(),
        forall|k: int| 0 <= k < board.len() ==> #[trigger] line_of_player(board[k], ps),
        forall|i: int|
            #![trigger ps[i]]
            0 <= i < ps.len() && ps[i].connected ==> exists|k: int|
                #![trigger board[k]]
                0 <= k < board.len() && shows_player(board[k], ps[i]),
        forall|a: int, b: int|
            0 <= a < board.len() && 0 <= b < board.len() && a != b ==> (#[trigger] board[a]).player_id@
                != (#[trigger] board[b]).player_id@,
{
    lemma_connected_players(ps, 0);
    lemma_entries_distinct(ps);
    let co = connected_of(ps);
    let entries = entries_of(ps);
    let shown = board.map_values(|e: LeaderboardEntry| unranked(e));
    lemma_same_items(shown, entries);
    assert forall|k: int| 0 <= k < board.len() implies #[trigger] line_of_player(board[k], ps) by {
        assert(shown[k] == unranked(board[k]));
        assert(shown.contains(shown[k]));
        let x = choose|x: int| 0 <= x < entries.len() && entries[x] == shown[k];
        assert(entries[x] == entry_of(co[x]));
        assert(co[x].connected && ps.contains(co[x]));
        let i = choose|i: int| 0 <= i < ps.len() && ps[i] == co[x];
        assert(0 <= i < ps.len() && ps[i].connected && unranked(board[k]) == entry_of(ps[i]));
        assert(shows_player(board[k], ps[i]));
    }
    assert forall|i: int| #![trigger ps[i]] 0 <= i < ps.len() && ps[i].connected implies exists|k: int|
        #![trigger board[k]]
        0 <= k < board.len() && shows_player(board[k], ps[i]) by {
        assert(co.contains(ps[i]));
        let x = choose|x: int| 0 <= x < co.len() && co[x] == ps[i];
        assert(entries[x] == entry_of(ps[i]));
        assert(entries.contains(entries[x]));
        assert(shown.contains(entries[x]));
        let k = choose|k: int| 0 <= k < shown.len() && shown[k] == entries[x];
        assert(unranked(board[k]) == shown[k]);
        assert(0 <= k < board.len() && unranked(board[k]) == entry_of(ps[i]));
        assert(shows_player(board[k], ps[i]));
    }
    assert forall|a: int, b: int|
        0 <= a < board.len() && 0 <= b < board.len() && a != b implies (#[trigger] board[a]).player_id@
        != (#[trigger] board[b]).player_id@ by {
        if board[a].player_id@ == board[b].player_id@ {
            assert(shown[a] == unranked(board[a]) && shown[b] == unranked(board[b]));
            assert(shown.contains(shown[a]) && shown.contains(shown[b]));
            let x = choose|x: int| 0 <= x < entries.len() && entries[x] == shown[a];
            let y = choose|y: int| 0 <= y < entries.len() && entries[y] == shown[b];
            assert(entries[x].player_id@ == entries[y].player_id@);
            assert(x == y);
            assert(shown[a] == shown[b]);
            assert(shown.to_multiset() == entries.to_multiset());
            entries.lemma_multiset_has_no_duplicates();
            shown.lemma_multiset_has_no_duplicates_conv();
        }
    }
}

impl Game {
    /// The invariant every operation keeps.
    pub open spec fn wf(&self) -> bool {
        &&& ids_distinct(self.players@)
        &&& answer_times_bounded(self.players@)
        &&& self.total_questions == self.questions@.len() as u32
    }

    /// Everything but the players is as in `other`.
    pub open spec fn same_but_players(&self, other: &Game) -> bool {
        &&& self.state == other.state
        &&& self.questions == other.questions
        &&& self.current_question_idx == other.current_question_idx
        &&& self.question_start_time == other.question_start_time
        &&& self.total_questions == other.total_questions
    }

    /// A game in the lobby with no players.
    pub fn new(questions: Vec<Question>) -> (g: Self)
        ensures
            g.wf(),
            g.state == GameState::Lobby,
            g.players@.len() == 0,
            g.questions == questions,
            g.current_question_idx == 0,
            g.question_start_time.is_none(),
            g.total_questions == questions@.len() as u32,
    {
        let total = questions.len() as u32;
        Game {
            state: GameState::Lobby,
            players: Vec::new(),
            questions,
            current_question_idx: 0,
            question_start_time: None,
            total_questions: total,
        }
    }

    fn find_player(&self, id: &str) -> (r: Option<usize>)
        ensures
            r matches Some(i) ==> i < self.players@.len() && self.players@[i as int].id@ == id@,
            r is None ==> !has_player(self.players@, id@),
    {
        let key = String::from_str(id);
        let n = self.players.len();
        for i in 0..n
            invariant
                n == self.players@.len(),
                key@ == id@,
                forall|j: int| 0 <= j < i ==> self.players@[j].id@ != id@,
        {
            if self.players[i].id == key {
                return Some(i);
            }
        }
        None
    }

    /// Adds a player, or puts a fresh player in the place of the one with the
    /// same id.
    pub fn add_player(&mut self, id: String, name: String)
        requires
            old(self).wf(),
        ensures
            final(self).wf(),
            final(self).same_but_players(old(self)),
            has_player(old(self).players@, id@) ==> final(self).players@ == old(
                self,
            ).players@.update(player_index(old(self).players@, id@), fresh_player(id, name)),
            !has_player(old(self).players@, id@) ==> final(self).players@ == old(
                self,
            ).players@.push(fresh_player(id, name)),
    {
        let found = self.find_player(id.as_str());
        let ghost old_ps = self.players@;
        let ghost gid = id;
        let p = Player { id, name, score: 0, streak: 0, connected: true, current_answer: None };
        match found {
            Some(i) => {
                proof {
                    let k = player_index(old_ps, gid@);
                    assert(0 <= k < old_ps.len() && old_ps[k].id@ == gid@);
                    assert(k == i as int) by {
                        if k != i as int {
                            if k < i {
                                assert(old_ps[k].id@ != old_ps[i as int].id@);
                            } else {
                                assert(old_ps[i as int].id@ != old_ps[k].id@);
                            }
                        }
                    }
                }
                self.players.set(i, p);
            },
            None => {
                self.players.push(p);
            },
        }
    }

    /// Marks the player with id `id` as no longer connected, if there is one.
    pub fn remove_player(&mut self, id: &str)
        requires
            old(self).wf(),
        ensures
            final(self).wf(),
            final(self).same_but_players(old(self)),
            has_player(old(self).players@, id@) ==> final(self).players@ == old(
                self,
            ).players@.update(
                player_index(old(self).players@, id@),
                disconnected(old(self).players@[player_index(old(self).players@, id@)]),
            ),
            !has_player(old(self).players@, id@) ==> final(self).players@ == old(self).players@,
    {
        match self.find_player(id) {
            Some(i) => {
                let ghost old_ps = self.players@;
                proof {
                    let k = player_index(old_ps, id@);
                    assert(0 <= k < old_ps.len() && old_ps[k].id@ == id@);
                    assert(k == i as int) by {
                        if k != i as int {
                            if k < i {
                                assert(old_ps[k].id@ != old_ps[i as int].id@);
                            } else {
                                assert(old_ps[i as int].id@ != old_ps[k].id@);
                            }
                        }
                    }
                }
                self.players[i].connected = false;
                assert(self.players@ =~= old_ps.update(
                    i as int,
                    disconnected(old_ps[i as int]),
                ));
            },
            None => {},
        }
    }

    /// Starts the game at question 1 when at least two players have joined;
    /// otherwise does nothing.
    pub fn start_game(&mut self)
        requires
            old(self).wf(),
        ensures
            final(self).wf(),
            final(self).players == old(self).players,
            final(self).questions == old(self).questions,
            final(self).question_start_time == old(self).question_start_time,
            final(self).total_questions == old(self).total_questions,
            old(self).players@.len() >= 2 ==> final(self).state == GameState::Question(1)
                && final(self).current_question_idx == 0,
            old(self).players@.len() < 2 ==> final(self).state == old(self).state
                && final(self).current_question_idx == old(self).current_question_idx,
    {
        if self.players.len() >= 2 {
            self.state = GameState::Question(1);
            self.current_question_idx = 0;
        }
    }

    /// Opens the current question at clock reading `now`, clearing every
    /// player's answer.
    pub fn start_question(&mut self, now: u64)
        requires
            old(self).wf(),
        ensures
            final(self).wf(),
            opened_at(*final(self), *old(self), now),
    {
        self.question_start_time = Some(now);
        let n = self.players.len();
        let ghost old_ps = self.players@;
        for i in 0..n
            invariant
                n == old_ps.len(),
                self.players@.len() == n,
                forall|j: int|
                    0 <= j < i ==> #[trigger] self.players@[j] == without_answer(old_ps[j]),
                forall|j: int| i <= j < n ==> #[trigger] self.players@[j] == old_ps[j],
                self.state == old(self).state,
                self.questions == old(self).questions,
                self.current_question_idx == old(self).current_question_idx,
                self.total_questions == old(self).total_questions,
                self.question_start_time == Some(now),
        {
            self.players[i].current_answer = None;
        }
        proof {
            assert forall|i: int, j: int| 0 <= i < j < self.players@.len() implies self.players@[i].id@
                != self.players@[j].id@ by {
                assert(self.players@[i].id == old_ps[i].id);
                assert(self.players@[j].id == old_ps[j].id);
            }
            assert forall|i: int| 0 <= i < self.players@.len() implies (
            #[trigger] self.players@[i].current_answer matches Some((_, t)) ==> t
                <= QUESTION_TIME_MS) by {
                assert(self.players@[i].current_answer is None);
            }
        }
    }

    /// Records the answer `answer_idx` of player `player_id` at clock reading
    /// `now`, with the time then left on the question; refused when there is no
    /// such player, the player has already answered, or no question is open.
    pub fn submit_answer(&mut self, player_id: &str, answer_idx: u8, now: u64) -> (accepted: bool)
        requires
            old(self).wf(),
        ensures
            final(self).wf(),
            final(self).same_but_players(old(self)),
            accepted == (has_player(old(self).players@, player_id@) && old(self).players@[player_index(
                old(self).players@,
                player_id@,
            )].current_answer is None && old(self).question_start_time is Some),
            accepted ==> final(self).players@ == old(self).players@.update(
                player_index(old(self).players@, player_id@),
                with_answer(
                    old(self).players@[player_index(old(self).players@, player_id@)],
                    answer_idx,
                    remaining_ms(old(self).question_start_time->0, now),
                ),
            ),
            !accepted ==> final(self).players@ == old(self).players@,
    {
        let ghost old_ps = self.players@;
        match self.find_player(player_id) {
            Some(i) => {
                proof {
                    let k = player_index(old_ps, player_id@);
                    assert(0 <= k < old_ps.len() && old_ps[k].id@ == player_id@);
                    assert(k == i as int) by {
                        if k != i as int {
                            if k < i {
                                assert(old_ps[k].id@ != old_ps[i as int].id@);
                            } else {
                                assert(old_ps[i as int].id@ != old_ps[k].id@);
                            }
                        }
                    }
                }
                if self.players[i].current_answer.is_none() {
                    match self.question_start_time {
                        Some(start) => {
                            let elapsed = elapsed_since(start, now);
                            let left: u64 = if elapsed >= QUESTION_TIME_MS {
                                0
                            } else {
                                QUESTION_TIME_MS - elapsed
                            };
                            self.players[i].current_answer = Some((answer_idx, left));
                            assert(self.players@ =~= old_ps.update(
                                i as int,
                                with_answer(old_ps[i as int], answer_idx, remaining_ms(start, now)),
                            ));
                            proof {
                                assert forall|a: int, b: int|
                                    0 <= a < b < self.players@.len() implies self.players@[a].id@
                                    != self.players@[b].id@ by {
                                    assert(self.players@[a].id == old_ps[a].id);
                                    assert(self.players@[b].id == old_ps[b].id);
                                }
                                assert forall|a: int| 0 <= a < self.players@.len() implies (
                                #[trigger] self.players@[a].current_answer matches Some((_, t)) ==> t
                                    <= QUESTION_TIME_MS) by {
                                    if a != i {
                                        assert(self.players@[a] == old_ps[a]);
                                    }
                                }
                            }
                            return true;
                        },
                        None => {
                            return false;
                        },
                    }
                }
                false
            },
            None => false,
        }
    }

    /// Whether at least one player is connected and every connected player
    /// has answered.
    pub fn all_answered(&self) -> (r: bool)
        ensures
            r == everyone_answered(self.players@),
    {
        let n = self.players.len();
        let mut connected_count: usize = 0;
        let mut answered_count: usize = 0;
        for i in 0..n
            invariant
                n == self.players@.len(),
                answered_count <= connected_count <= i,
                (connected_count > 0) == (exists|j: int| 0 <= j < i && #[trigger] self.players@[j].connected),
                (answered_count == connected_count) == (forall|j: int|
                    0 <= j < i && #[trigger] self.players@[j].connected
                        ==> self.players@[j].current_answer is Some),
        {
            if self.players[i].connected {
                connected_count = connected_count + 1;
                if self.players[i].current_answer.is_some() {
                    answered_count = answered_count + 1;
                }
            }
        }
        connected_count > 0 && answered_count == connected_count
    }

    /// The question at the current position, if any.
    pub fn get_current_question(&self) -> (q: Option<&Question>)
        ensures
            self.current_question_idx < self.questions@.len() ==> q == Some(
                &self.questions@[self.current_question_idx as int],
            ),
            self.current_question_idx >= self.questions@.len() ==> q is None,
    {
        if self.current_question_idx < self.questions.len() {
            Some(&self.questions[self.current_question_idx])
        } else {
            None
        }
    }

    /// How many players are connected.
    pub fn connected_count(&self) -> (n: usize)
        ensures
            n == lobby_of(self.players@).len(),
    {
        let total = self.players.len();
        let mut n: usize = 0;
        for i in 0..total
            invariant
                total == self.players@.len(),
                n == lobby_of(self.players@.take(i as int)).len(),
                n <= i,
        {
            assert(self.players@.take(i + 1).drop_last() =~= self.players@.take(i as int));
            if self.players[i].connected {
                n = n + 1;
            }
        }
        assert(self.players@.take(total as int) =~= self.players@);
        n
    }

    /// The connected players, in joining order, as shown in the lobby.
    pub fn get_lobby_players(&self) -> (r: Vec<PlayerInfo>)
        ensures
            r@ == lobby_of(self.players@),
    {
        let n = self.players.len();
        let mut r: Vec<PlayerInfo> = Vec::new();
        for i in 0..n
            invariant
                n == self.players@.len(),
                r@ == lobby_of(self.players@.take(i as int)),
        {
            assert(self.players@.take(i + 1).drop_last() =~= self.players@.take(i as int));
            if self.players[i].connected {
                r.push(player_view(&self.players[i]));
            }
        }
        assert(self.players@.take(n as int) =~= self.players@);
        r
    }

    /// Moves past the current question: to the end after the last one, to a
    /// break before questions 5, 9, 13, ..., else to the next question.
    /// Returns whether a question remains.
    pub fn advance_to_next_question(&mut self) -> (more: bool)
        requires
            old(self).wf(),
            old(self).current_question_idx < usize::MAX,
        ensures
            final(self).wf(),
            final(self).players == old(self).players,
            final(self).questions == old(self).questions,
            final(self).question_start_time == old(self).question_start_time,
            final(self).total_questions == old(self).total_questions,
            final(self).current_question_idx == old(self).current_question_idx + 1,
            final(self).state == phase_after(
                old(self).current_question_idx as int,
                old(self).questions@.len() as int,
            ),
            more == (final(self).current_question_idx < final(self).questions@.len()),
    {
        self.current_question_idx = self.current_question_idx + 1;
        if self.current_question_idx >= self.questions.len() {
            self.state = GameState::Ended;
            false
        } else {
            let next_number = (self.current_question_idx + 1) as u32;
            if next_number % 4 == 1 && next_number > 1 {
                self.state = GameState::Break;
            } else {
                self.state = GameState::Question(next_number);
            }
            true
        }
    }

    /// Closes the current question: every connected player's answer is
    /// scored against the right option, and their results are returned in
    /// joining order. Players who are not connected are left as they are.
    pub fn calculate_results(&mut self) -> (results: Vec<PlayerResult>)
        requires
            old(self).wf(),
            old(self).current_question_idx < old(self).questions@.len(),
            room_to_score(
                old(self).players@,
                old(self).questions@[old(self).current_question_idx as int].correct_index,
            ),
        ensures
            final(self).wf(),
            scored(*final(self), *old(self)),
            results@ == results_of(
                old(self).players@,
                old(self).questions@[old(self).current_question_idx as int].correct_index,
            ),
    {
        let correct_idx = self.questions[self.current_question_idx].correct_index;
        let n = self.players.len();
        let ghost old_ps = self.players@;
        let mut results: Vec<PlayerResult> = Vec::new();
        for i in 0..n
            invariant
                n == old_ps.len(),
                self.players@.len() == n,
                old_ps == old(self).players@,
                correct_idx == old(self).questions@[old(self).current_question_idx as int].correct_index,
                answer_times_bounded(old_ps),
                room_to_score(old_ps, correct_idx),
                forall|j: int| 0 <= j < i ==> #[trigger] self.players@[j] == revealed(old_ps[j], correct_idx),
                forall|j: int| i <= j < n ==> #[trigger] self.players@[j] == old_ps[j],
                results@ == results_of(old_ps.take(i as int), correct_idx),
                self.state == old(self).state,
                self.questions == old(self).questions,
                self.current_question_idx == old(self).current_question_idx,
                self.total_questions == old(self).total_questions,
                self.question_start_time == old(self).question_start_time,
        {
            assert(old_ps.take(i + 1).drop_last() =~= old_ps.take(i as int));
            assert(self.players@[i as int] == old_ps[i as int]);
            if self.players[i].connected {
                let streak = self.players[i].streak;
                match self.players[i].current_answer {
                    Some((choice, left)) => {
                        assert(left <= QUESTION_TIME_MS);
                        assert(fits_reveal(old_ps[i as int], correct_idx));
                        let is_correct = choice == correct_idx;
                        let points: u32 = if is_correct {
                            let earned = calculate_score(left, streak + 1);
                            self.players[i].score = self.players[i].score + earned;
                            self.players[i].streak = streak + 1;
                            earned
                        } else {
                            self.players[i].streak = 0;
                            0
                        };
                        results.push(
                            PlayerResult {
                                player_id: self.players[i].id.clone(),
                                player_name: self.players[i].name.clone(),
                                answered: true,
                                correct: is_correct,
                                answer_time: Some(QUESTION_TIME_MS - left),
                                points_earned: points,
                            },
                        );
                    },
                    None => {
                        self.players[i].streak = 0;
                        results.push(
                            PlayerResult {
                                player_id: self.players[i].id.clone(),
                                player_name: self.players[i].name.clone(),
                                answered: false,
                                correct: false,
                                answer_time: None,
                                points_earned: 0,
                            },
                        );
                    },
                }
            }
            assert(self.players@[i as int] == revealed(old_ps[i as int], correct_idx));
        }
        proof {
            assert(old_ps.take(n as int) =~= old_ps);
            assert forall|a: int, b: int| 0 <= a < b < self.players@.len() implies self.players@[a].id@
                != self.players@[b].id@ by {
                assert(self.players@[a] == revealed(old_ps[a], correct_idx));
                assert(self.players@[b] == revealed(old_ps[b], correct_idx));
            }
            assert forall|a: int| 0 <= a < self.players@.len() implies (
            #[trigger] self.players@[a].current_answer matches Some((_, t)) ==> t
                <= QUESTION_TIME_MS) by {
                assert(self.players@[a] == revealed(old_ps[a], correct_idx));
            }
        }
        results
    }

    /// The connected players ranked by score, highest first, ties broken
    /// alphabetically by name; ranks count from 1.
    pub fn get_leaderboard(&self) -> (board: Vec<LeaderboardEntry>)
        ensures
            is_leaderboard_of(board@, entries_of(self.players@)),
    {
        let n = self.players.len();
        let mut sorted: Vec<LeaderboardEntry> = Vec::new();
        for i in 0..n
            invariant
                n == self.players@.len(),
                in_rank_order(sorted@),
                sorted@.to_multiset() == entries_of(self.players@.take(i as int)).to_multiset(),
                sorted@.len() == entries_of(self.players@.take(i as int)).len(),
                forall|k: int| 0 <= k < sorted@.len() ==> (#[trigger] sorted@[k]).rank == 0,
        {
            assert(self.players@.take(i + 1).drop_last() =~= self.players@.take(i as int));
            let p = &self.players[i];
            if p.connected {
                let e = LeaderboardEntry {
                    rank: 0,
                    player_id: p.id.clone(),
                    player_name: p.name.clone(),
                    score: p.score,
                    streak: p.streak,
                };
                let ghost before = sorted@;
                insert_ranked(&mut sorted, e);
                proof {
                    broadcast use vstd::seq_lib::to_multiset_build;
                    let prefix = entries_of(self.players@.take(i as int));
                    assert(prefix.push(e).to_multiset() == prefix.to_multiset().insert(e));
                    assert forall|k: int| 0 <= k < sorted@.len() implies (#[trigger] sorted@[k]).rank
                        == 0 by {
                        if sorted@[k].rank != 0 {
                            broadcast use vstd::seq_lib::to_multiset_contains;
                            assert(sorted@.contains(sorted@[k]));
                            assert(sorted@.to_multiset().count(sorted@[k]) > 0);
                            if sorted@[k] != e {
                                assert(before.to_multiset().count(sorted@[k]) > 0);
                                assert(before.contains(sorted@[k]));
                            }
                        }
                    }
                }
            }
        }
        assert(self.players@.take(n as int) =~= self.players@);
        let ghost unranked_board = sorted@;
        let m = sorted.len();
        for k in 0..m
            invariant
                m == sorted@.len(),
                m == unranked_board.len(),
                forall|j: int| 0 <= j < m ==> (#[trigger] unranked_board[j]).rank == 0,
                forall|j: int| 0 <= j < k ==> #[trigger] sorted@[j] == with_rank(unranked_board[j], (j + 1) as u32),
                forall|j: int| k <= j < m ==> #[trigger] sorted@[j] == unranked_board[j],
        {
            sorted[k].rank = (k + 1) as u32;
        }
        proof {
            assert(sorted@.map_values(|e: LeaderboardEntry| unranked(e)) =~= unranked_board);
            assert forall|i: int, j: int| 0 <= i < j < sorted@.len() implies !ranks_above(
                #[trigger] sorted@[j],
                #[trigger] sorted@[i],
            ) by {
                assert(!ranks_above(unranked_board[j], unranked_board[i]));
            }
        }
        sorted
    }

    /// End-of-game statistics over the connected players: the first player
    /// with the longest positive streak, and the players whose streak equals
    /// the number of questions.
    pub fn get_game_stats(&self) -> (stats: GameStats)
        ensures
            stats_of(stats, self.players@, self.total_questions),
    {
        let n = self.players.len();
        let ghost ps = self.players@;
        let mut best: Option<usize> = None;
        let mut perfect_score: Vec<String> = Vec::new();
        for i in 0..n
            invariant
                n == ps.len(),
                ps == self.players@,
                perfect_score@ == perfect_names(ps.take(i as int), self.total_questions),
                best is None ==> forall|j: int|
                    0 <= j < i && #[trigger] ps[j].connected ==> ps[j].streak == 0,
                best matches Some(b) ==> {
                    &&& b < i
                    &&& ps[b as int].connected
                    &&& ps[b as int].streak > 0
                    &&& forall|j: int|
                        0 <= j < i && #[trigger] ps[j].connected ==> ps[j].streak <= ps[b as int].streak
                    &&& forall|j: int|
                        0 <= j < b && #[trigger] ps[j].connected ==> ps[j].streak < ps[b as int].streak
                },
        {
            assert(ps.take(i + 1).drop_last() =~= ps.take(i as int));
            if self.players[i].connected {
                if self.players[i].streak == self.total_questions {
                    perfect_score.push(self.players[i].name.clone());
                }
                match best {
                    Some(b) => {
                        if self.players[i].streak > self.players[b].streak {
                            best = Some(i);
                        }
                    },
                    None => {
                        if self.players[i].streak > 0 {
                            best = Some(i);
                        }
                    },
                }
            }
        }
        assert(ps.take(n as int) =~= ps);
        let longest_streak = match best {
            Some(b) => {
                assert(holds_longest_streak(ps, b as int));
                Some((self.players[b].name.clone(), self.players[b].streak))
            },
            None => None,
        };
        GameStats { fastest_answer: None, longest_streak, perfect_score }
    }
}

} // verus!
