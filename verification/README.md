# ji_chan

The 字ちゃん (Ji-chan) Discord bot of the Tegaki Tuesday handwriting
challenge, with its decisions verified by Verus.

- `src/` is the verified library: what each command answers, which lists
  hold a kanji, how a submission changes the challenge data and names its
  images, the per-server settings and where announcements go, the
  leaderboard, and the reading and writing of decimal numbers.
  `src/laws.rs` holds the properties that span several functions.
- `app/` is the bot around it: the Discord commands (serenity), the JSON
  files (serde_json), the HTTP requests (reqwest) and the environment.
- `tests/` runs the library on concrete values.
