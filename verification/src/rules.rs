//! Rule sets for documents.
pub mod lilypond_rules;
pub mod tex_rules;
