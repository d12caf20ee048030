//! Building blocks of a Goldberg Steam Emulator settings generator: the
//! interpretation of Steam Web API answers, the language and interface
//! detection, and the text of every generated settings file.

pub mod achievements;
pub mod branches;
pub mod depots;
pub mod interfaces;
pub mod json;
pub mod language;
pub mod number;
pub mod settings;
pub mod steam;
pub mod text;
pub mod urls;
