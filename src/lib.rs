//! Support-thread bot core: guild discernment from direct messages and
//! grapheme-aware thread naming, with the reply texts of its commands.

pub mod ids;
pub mod text;
pub mod graphemes;
pub mod dm;
pub mod thread_name;
pub mod commands;
