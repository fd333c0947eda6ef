# Rust Rush Trivia

A LAN multiplayer trivia game. The library under `src/` holds the game's
rules and state machines, each function with a contract proved by Verus:

- `scoring`: points for a correct answer (base, time bonus, streak bonus);
- `game`: players, questions, answers, scoring of a question, leaderboard,
  end-of-game statistics;
- `server`: the game server's decisions, one method per event (join, leave,
  answer, start, timer tick, end of a pause), returning the actions to carry
  out; plus the handling of a connection's messages;
- `client`: the client's state and its reactions to server messages and keys;
- `ui`: which hints, colours, medals and highlights the screen shows, and
  the text of its lines;
- `questions`: picking questions, and turning Open Trivia Database replies
  into playable questions;
- `framing`: the length-prefixed frames messages travel in;
- `text`: string ordering and decimal rendering.

Times are whole milliseconds read from a monotonic clock by the caller.

`app/` is the program around it: the TCP server and the terminal client
(`app server` hosts a game; without arguments it joins one), JSON on the
wire, file and HTTP loading of questions, and drawing with ratatui.
