//! Verified core of the 字ちゃん Discord bot: message texts, kanji list
//! lookups, submission bookkeeping, guild settings and the leaderboard.
pub mod text;
pub mod parse;
pub mod kanji;
pub mod random;
pub mod fullwidth;
pub mod submissions;
pub mod guilds;
pub mod json;
pub mod messages;
pub mod leaderboard;
pub mod laws;
