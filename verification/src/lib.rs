//! Parser for object-storage key paths of the Cell Painting Gallery.
//!
//! A key such as
//! `cpg0000-jump-pilot/source_4/images/2020_11_04_CPJUMP1/illum/BR00116991/BR00116991_IllumHighZBF.npy`
//! is matched against a fixed PEG-style grammar.  On success the engine
//! produces a well-nested stream of start/end tokens, one pair per named
//! rule invocation, and the extractor turns that stream into a mapping
//! from rule name to the exact substring the rule consumed.  On failure
//! the engine reports the furthest position the match reached together
//! with the constructs that were expected there.

pub mod grammar;
pub mod engine;
pub mod extract;
pub mod laws;
pub mod locality;

pub use engine::KeyParser;
pub use engine::ParseError;
pub use engine::Token;
pub use extract::ParsedFields;
pub use extract::extract;
pub use extract::parse_prefix;
pub use grammar::Expected;
pub use grammar::Rule;
