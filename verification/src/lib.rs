//! Library for creating a typing game engine.
//!
//! Each function states what it does in its contract and is proved against it, except the
//! few that call the standard library's clock and string type or the operating system's
//! random source, whose contracts are taken on trust.
mod primitives;
mod utility;
mod text;
mod key_stroke;
mod spell;
mod dictionary;
pub mod chunk;
pub mod statistics;
pub mod typing_engine;
pub mod vocabulary;
pub mod vocabulary_parser;
pub mod query;
pub mod display_info;

pub use crate::utility::{is_displayable_ascii, is_hiragana, is_japanese_symbol};
pub use crate::primitives::{Duration, NonZeroUsize};
pub use crate::key_stroke::{KeyStrokeChar, KeyStrokeCharError, KeyStrokeString, KeyStrokeStringError, ActualKeyStroke, KeyStrokeHitMiss};
pub use crate::spell::{SpellString, SpellStringError};

pub use crate::display_info::DisplayInfo;
pub use crate::query::{QueryRequest, VocabularyOrder, VocabularyQuantifier, VocabularySeparator};
pub use crate::statistics::lap_statistics::LapInfo;
pub use crate::statistics::result::{TypingResult, TypingResultSummary};
pub use crate::statistics::skill_statistics::{EntitySkillStatistics, SkillStatistics};
pub use crate::statistics::statistics_counter::EntitySummaryStatistics;
pub use crate::statistics::LapRequest;
pub use crate::typing_engine::{TypingEngine, TypingEngineError, TypingEngineErrorKind};
pub use crate::vocabulary::{VocabularyEntry, VocabularySpellElement};
pub use crate::vocabulary_parser::{parse_vocabulary_entry, VocabularyParseError};
