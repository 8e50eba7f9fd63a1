pub mod types;
pub mod vocab;
pub mod lexer;
pub mod grammar;
pub mod number;
pub mod reducer;
pub mod parser;
pub mod laws;

pub use types::{ParseError, TimeClue, Weekday, ShortcutDay, Modifier, Quantifier, TokenKind, HMS, YMD};
pub use vocab::{weekday_from, shortcut_day_from, modifier_from, quantifier_from};
pub use parser::{TimeParser, parse_time_clue_from_str};
