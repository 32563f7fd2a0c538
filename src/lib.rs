//! A chat bot's core: a generator of random police-emoji strings and a store of
//! per-day usage counters for users and chats.

mod clock;
pub mod handlers;
pub mod stat;
pub mod table;
pub mod util;
