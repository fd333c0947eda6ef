use vstd::prelude::*;
use vstd::string::*;

use crate::client::{awaiting_answer, ClientData, ClientState};
use crate::protocol::{GameStats, LeaderboardEntry, PlayerResult};
use crate::text::{decimal, push_decimal};

verus! {

/// Colour of the countdown.
#[derive(Debug, Clone, Copy, PartialEq, Eq, Structural)]
pub enum TimerColor {
    Green,
    Yellow,
    Red,
}

/// How a leaderboard line is drawn.
#[derive(Debug, Clone, Copy, PartialEq, Eq, Structural)]
pub enum LineStyle {
    /// The viewer's own line.
    Own,
    /// One of the top three.
    Podium,
    Plain,
}

/// The hint at the bottom of the screen.
pub fn footer_hint(state: &ClientState) -> (hint: &'static str)
    ensures
        awaiting_answer(*state) ==> hint@ == "Press 1-4 to answer | ESC to quit"@,
        state is Lobby ==> hint@ == "Waiting for game to start... | ESC to quit"@,
        !awaiting_answer(*state) && !(state is Lobby) ==> hint@ == "ESC to quit"@,
{
    match state {
        ClientState::Question { answered: false, .. } => "Press 1-4 to answer | ESC to quit",
        ClientState::Lobby(_) => "Waiting for game to start... | ESC to quit",
        _ => "ESC to quit",
    }
}

/// The countdown is green with more than 10 s left, yellow with more than
/// 5 s, red otherwise.
pub fn timer_color(time_remaining_ms: u64) -> (c: TimerColor)
    ensures
        time_remaining_ms > 10000 ==> c == TimerColor::Green,
        5000 < time_remaining_ms <= 10000 ==> c == TimerColor::Yellow,
        time_remaining_ms <= 5000 ==> c == TimerColor::Red,
{
    if time_remaining_ms > 10000 {
        TimerColor::Green
    } else if time_remaining_ms > 5000 {
        TimerColor::Yellow
    } else {
        TimerColor::Red
    }
}

/// The medal beside a rank: gold, silver and bronze for the top three,
/// blank space otherwise.
pub open spec fn medal_text(rank: u32) -> Seq<char> {
    if rank == 1 {
        "🥇"@
    } else if rank == 2 {
        "🥈"@
    } else if rank == 3 {
        "🥉"@
    } else {
        "  "@
    }
}

/// The mark beside a result: a tick for a right answer, a cross for a
/// wrong one, a circled cross for no answer.
pub open spec fn symbol_text(correct: bool, answered: bool) -> Seq<char> {
    if correct {
        "✓"@
    } else if answered {
        "✗"@
    } else {
        "⊗"@
    }
}

/// The start of a line: an arrow on the viewer's own line.
pub open spec fn own_prefix(own: bool) -> Seq<char> {
    if own {
        "→ "@
    } else {
        "  "@
    }
}

/// The viewer, known by `me`, has the id `id`.
pub open spec fn owns(me: Option<String>, id: Seq<char>) -> bool {
    me matches Some(x) && x@ == id
}

/// The medal beside a rank.
pub fn medal(rank: u32) -> (m: &'static str)
    ensures
        m@ == medal_text(rank),
{
    if rank == 1 {
        "🥇"
    } else if rank == 2 {
        "🥈"
    } else if rank == 3 {
        "🥉"
    } else {
        "  "
    }
}

/// The mark beside a player's result.
pub fn result_symbol(correct: bool, answered: bool) -> (s: &'static str)
    ensures
        s@ == symbol_text(correct, answered),
{
    if correct {
        "✓"
    } else if answered {
        "✗"
    } else {
        "⊗"
    }
}

/// Whether a line belongs to the viewer.
pub fn is_own(my_player_id: &Option<String>, player_id: &String) -> (r: bool)
    ensures
        r == owns(*my_player_id, player_id@),
{
    match my_player_id {
        Some(id) => *id == *player_id,
        None => false,
    }
}

/// The viewer's own line stands out; otherwise the top three do.
pub fn entry_style(rank: u32, own: bool) -> (s: LineStyle)
    ensures
        own ==> s == LineStyle::Own,
        !own && rank <= 3 ==> s == LineStyle::Podium,
        !own && rank > 3 ==> s == LineStyle::Plain,
{
    if own {
        LineStyle::Own
    } else if rank <= 3 {
        LineStyle::Podium
    } else {
        LineStyle::Plain
    }
}

/// Whether option `i` is drawn as the player's pick.
pub fn option_selected(answered: bool, selected_index: Option<u8>, i: usize) -> (r: bool)
    ensures
        r == (answered && selected_index == Some(i as u8)),
{
    answered && selected_index == Some(i as u8)
}

/// The title bar: the player's name once the server has welcomed them.
pub fn header_title(client: &ClientData) -> (title: String)
    ensures
        client.player_id is Some ==> title@ == "🎮 Rust Rush Trivia - Player: "@
            + client.player_name@ + " "@,
        client.player_id is None ==> title@ == "🎮 Rust Rush Trivia - Connecting..."@,
{
    match &client.player_id {
        Some(_) => {
            let mut t = String::from_str("🎮 Rust Rush Trivia - Player: ");
            t.append(client.player_name.as_str());
            t.append(" ");
            t
        },
        None => String::from_str("🎮 Rust Rush Trivia - Connecting..."),
    }
}


fn own_prefix_str(own: bool) -> (s: &'static str)
    ensures
        s@ == own_prefix(own),
{
    if own {
        "→ "
    } else {
        "  "
    }
}

/// The heading of a question: its number and the number of questions.
pub fn question_heading(number: u32, total: u32) -> (s: String)
    ensures
        s@ == "Question "@ + decimal(number as nat) + " of "@ + decimal(total as nat),
{
    let mut s = String::from_str("Question ");
    push_decimal(&mut s, number as u64);
    s.append(" of ");
    push_decimal(&mut s, total as u64);
    s
}

/// An option as listed, numbered from 1 like the keys that pick it.
pub fn option_line(i: usize, option: &str) -> (s: String)
    requires
        i < usize::MAX,
    ensures
        s@ == decimal((i + 1) as nat) + ". "@ + option@,
{
    let mut s = String::new();
    push_decimal(&mut s, (i + 1) as u64);
    s.append(". ");
    s.append(option);
    s
}

/// The line naming the right option, numbered from 1.
pub fn correct_answer_line(correct_index: u8) -> (s: String)
    requires
        correct_index < 255,
    ensures
        s@ == "✓ Correct Answer: Option "@ + decimal((correct_index + 1) as nat),
{
    let mut s = String::from_str("✓ Correct Answer: Option ");
    push_decimal(&mut s, (correct_index + 1) as u64);
    s
}

/// A player's result: arrow on the viewer's own line, mark, name, and the
/// points earned when there are any.
pub fn result_line(r: &PlayerResult, my_player_id: &Option<String>) -> (s: String)
    ensures
        s@ == own_prefix(owns(*my_player_id, r.player_id@)) + symbol_text(r.correct, r.answered)
            + " "@ + r.player_name@ + (if r.points_earned > 0 {
            " (+"@ + decimal(r.points_earned as nat) + ")"@
        } else {
            Seq::empty()
        }),
{
    let own = is_own(my_player_id, &r.player_id);
    let mut s = String::from_str(own_prefix_str(own));
    s.append(result_symbol(r.correct, r.answered));
    s.append(" ");
    s.append(r.player_name.as_str());
    if r.points_earned > 0 {
        s.append(" (+");
        push_decimal(&mut s, r.points_earned as u64);
        s.append(")");
    }
    proof {
        if r.points_earned == 0 {
            assert(s@ =~= s@ + Seq::<char>::empty());
        }
    }
    s
}

/// A leaderboard line: arrow on the viewer's own line, medal, rank, name,
/// score, and the running streak when there is one.
pub fn leaderboard_line(e: &LeaderboardEntry, my_player_id: &Option<String>) -> (s: String)
    ensures
        s@ == own_prefix(owns(*my_player_id, e.player_id@)) + medal_text(e.rank) + " "@ + decimal(
            e.rank as nat,
        ) + ". "@ + e.player_name@ + " - "@ + decimal(e.score as nat) + " pts"@ + (if e.streak > 0 {
            " 🔥"@ + decimal(e.streak as nat)
        } else {
            Seq::empty()
        }),
{
    let own = is_own(my_player_id, &e.player_id);
    let mut s = String::from_str(own_prefix_str(own));
    s.append(medal(e.rank));
    s.append(" ");
    push_decimal(&mut s, e.rank as u64);
    s.append(". ");
    s.append(e.player_name.as_str());
    s.append(" - ");
    push_decimal(&mut s, e.score as u64);
    s.append(" pts");
    if e.streak > 0 {
        s.append(" 🔥");
        push_decimal(&mut s, e.streak as u64);
    }
    proof {
        if e.streak == 0 {
            assert(s@ =~= s@ + Seq::<char>::empty());
        }
    }
    s
}

/// A player in the lobby list.
pub fn lobby_line(name: &str) -> (s: String)
    ensures
        s@ == "👤 "@ + name@,
{
    let mut s = String::from_str("👤 ");
    s.append(name);
    s
}

/// The lobby's title, with the number of players shown.
pub fn lobby_title(count: usize) -> (s: String)
    ensures
        s@ == "Lobby - "@ + decimal(count as nat) + " Players Connected"@,
{
    let mut s = String::from_str("Lobby - ");
    push_decimal(&mut s, count as u64);
    s.append(" Players Connected");
    s
}

/// The texts joined with `sep` between neighbours.
pub open spec fn joined(texts: Seq<Seq<char>>, sep: Seq<char>) -> Seq<char>
    decreases texts.len(),
{
    if texts.len() == 0 {
        Seq::empty()
    } else if texts.len() == 1 {
        texts[0]
    } else {
        joined(texts.drop_last(), sep) + sep + texts.last()
    }
}

/// The total length of the texts.
pub open spec fn total_len(texts: Seq<Seq<char>>) -> int
    decreases texts.len(),
{
    if texts.len() == 0 {
        0
    } else {
        total_len(texts.drop_last()) + texts.last().len()
    }
}

/// Where the `i`-th text starts once the texts are joined with a separator
/// of `sep_len` characters: after the texts before it and one separator
/// after each of them.
pub open spec fn piece_start(texts: Seq<Seq<char>>, sep_len: int, i: int) -> int {
    total_len(texts.take(i)) + i * sep_len
}

/// Joining one or more texts gives exactly the texts, in order, with one
/// separator between each two neighbours and nothing else: its length is
/// the texts' total length plus one separator per gap, each text stands at
/// its place, and a separator stands right before every text but the first.
pub proof fn lemma_joined_layout(texts: Seq<Seq<char>>, sep: Seq<char>)
    requires
        texts.len() >= 1,
    ensures
        joined(texts, sep).len() == total_len(texts) + (texts.len() - 1) * sep.len(),
        forall|i: int|
            0 <= i < texts.len() ==> joined(texts, sep).subrange(
                #[trigger] piece_start(texts, sep.len() as int, i),
                piece_start(texts, sep.len() as int, i) + texts[i].len(),
            ) == texts[i],
        forall|i: int|
            0 < i < texts.len() ==> joined(texts, sep).subrange(
                #[trigger] piece_start(texts, sep.len() as int, i) - sep.len(),
                piece_start(texts, sep.len() as int, i),
            ) == sep,
    decreases texts.len(),
{
    let sl = sep.len() as int;
    if texts.len() == 1 {
        assert(texts.take(0) =~= Seq::<Seq<char>>::empty());
        assert(texts.drop_last() =~= Seq::<Seq<char>>::empty());
        assert(piece_start(texts, sl, 0) == 0);
        assert(joined(texts, sep).subrange(0, texts[0].len() as int) =~= texts[0]);
    } else {
        let n = texts.len() as int;
        let rest = texts.drop_last();
        lemma_joined_layout(rest, sep);
        let jr = joined(rest, sep);
        let j = joined(texts, sep);
        assert(j == jr + sep + texts.last());
        assert((n - 1) * sl == (n - 2) * sl + sl) by (nonlinear_arith);
        assert(texts.take(n - 1) =~= rest);
        assert(piece_start(texts, sl, n - 1) == jr.len() + sl);
        assert forall|i: int| 0 <= i < n implies j.subrange(
            #[trigger] piece_start(texts, sl, i),
            piece_start(texts, sl, i) + texts[i].len(),
        ) == texts[i] by {
            if i < n - 1 {
                let a = piece_start(rest, sl, i);
                assert(texts.take(i) =~= rest.take(i));
                lemma_piece_fits(rest, sl, i);
                assert((n - 2 - i) * sl >= 0) by (nonlinear_arith)
                    requires
                        n - 2 - i >= 0 && sl >= 0,
                ;
                assert(piece_start(texts, sl, i) == a && a + texts[i].len() <= jr.len());
                lemma_total_len_nonneg(rest.take(i));
                assert(i * sl >= 0) by (nonlinear_arith)
                    requires
                        i >= 0 && sl >= 0,
                ;
                assert(jr.subrange(a, a + rest[i].len()) == rest[i]);
                assert(j.subrange(a, a + texts[i].len()) =~= jr.subrange(a, a + rest[i].len()));
            } else {
                assert(j.subrange(jr.len() + sl, jr.len() + sl + texts[i].len()) =~= texts[i]);
            }
        }
        assert forall|i: int| 0 < i < n implies j.subrange(
            #[trigger] piece_start(texts, sl, i) - sl,
            piece_start(texts, sl, i),
        ) == sep by {
            if i < n - 1 {
                let a = piece_start(rest, sl, i);
                assert(texts.take(i) =~= rest.take(i));
                lemma_piece_fits(rest, sl, i);
                assert((n - 2 - i) * sl >= 0) by (nonlinear_arith)
                    requires
                        n - 2 - i >= 0 && sl >= 0,
                ;
                assert(piece_start(texts, sl, i) == a && a + texts[i].len() <= jr.len());
                lemma_total_len_nonneg(rest.take(i));
                assert(i * sl >= sl) by (nonlinear_arith)
                    requires
                        i >= 1 && sl >= 0,
                ;
                assert(jr.subrange(a - sl, a) == sep);
                assert(j.subrange(a - sl, a) =~= jr.subrange(a - sl, a));
            } else {
                assert(j.subrange(jr.len() as int, jr.len() + sl) =~= sep);
            }
        }
    }
}

/// A total length is never negative.
proof fn lemma_total_len_nonneg(texts: Seq<Seq<char>>)
    ensures
        total_len(texts) >= 0,
    decreases texts.len(),
{
    if texts.len() > 0 {
        lemma_total_len_nonneg(texts.drop_last());
    }
}

/// A text of the joined texts, and a separator after it, fit within the
/// joined text's length.
proof fn lemma_piece_fits(texts: Seq<Seq<char>>, sl: int, i: int)
    requires
        0 <= i < texts.len(),
        sl >= 0,
    ensures
        piece_start(texts, sl, i) + texts[i].len() + (texts.len() - 1 - i) * sl <= total_len(texts)
            + (texts.len() - 1) * sl,
    decreases texts.len(),
{
    let n = texts.len() as int;
    if i < n - 1 {
        let rest = texts.drop_last();
        assert(texts.take(i) =~= rest.take(i));
        lemma_piece_fits(rest, sl, i);
        assert((n - 1 - i) * sl == (n - 2 - i) * sl + sl) by (nonlinear_arith);
        assert((n - 1) * sl == (n - 2) * sl + sl) by (nonlinear_arith);
    } else {
        assert(texts.take(i) =~= texts.drop_last());
        assert((n - 1 - i) * sl == 0) by (nonlinear_arith)
            requires
                i == n - 1,
        ;
    }
}

/// The longest-streak line of the final screen, if there is a streak.
pub open spec fn longest_line(stats: GameStats) -> Seq<Seq<char>> {
    match stats.longest_streak {
        Some((name, streak)) => seq![
            "🔥 Longest Streak: "@ + name@ + " ("@ + decimal(streak as nat) + ")"@,
        ],
        None => Seq::empty(),
    }
}

/// The perfect-score line of the final screen, if anyone has one.
pub open spec fn perfect_line(stats: GameStats) -> Seq<Seq<char>> {
    if stats.perfect_score@.len() > 0 {
        seq!["⭐ Perfect Score: "@ + joined(stats.perfect_score@.map_values(|x: String| x@), ", "@)]
    } else {
        Seq::empty()
    }
}

/// The statistics lines of the final screen: the longest streak, if any,
/// then the players with a perfect score, if any.
pub fn stats_lines(stats: &GameStats) -> (lines: Vec<String>)
    ensures
        lines@.map_values(|x: String| x@) == longest_line(*stats) + perfect_line(*stats),
{
    let mut lines: Vec<String> = Vec::new();
    match &stats.longest_streak {
        Some((name, streak)) => {
            let mut s = String::from_str("🔥 Longest Streak: ");
            s.append(name.as_str());
            s.append(" (");
            push_decimal(&mut s, *streak as u64);
            s.append(")");
            lines.push(s);
        },
        None => {},
    }
    let ghost before = lines@;
    let n = stats.perfect_score.len();
    if n > 0 {
        let names = &stats.perfect_score;
        let ghost texts = names@.map_values(|x: String| x@);
        let mut s = String::from_str("⭐ Perfect Score: ");
        let ghost head = s@;
        for i in 0..n
            invariant
                n == names@.len(),
                texts == names@.map_values(|x: String| x@),
                s@ == head + joined(texts.take(i as int), ", "@),
        {
            proof {
                assert(texts.take(i + 1).drop_last() =~= texts.take(i as int));
                if i == 0 {
                    assert(texts.take(1) =~= seq![texts[0]]);
                    assert(joined(texts.take(0), ", "@) =~= Seq::<char>::empty());
                }
            }
            if i > 0 {
                s.append(", ");
            }
            s.append(names[i].as_str());
            proof {
                if i == 0 {
                    assert(s@ =~= head + joined(texts.take(1), ", "@));
                } else {
                    assert(s@ =~= head + joined(texts.take(i + 1), ", "@));
                }
            }
        }
        assert(texts.take(n as int) =~= texts);
        lines.push(s);
    }
    proof {
        assert(before.map_values(|x: String| x@) =~= longest_line(*stats));
        if n > 0 {
            assert(lines@.map_values(|x: String| x@) =~= before.map_values(|x: String| x@).push(
                lines@.last()@,
            ));
        } else {
            assert(lines@ == before);
        }
    }
    lines
}
} // verus!
