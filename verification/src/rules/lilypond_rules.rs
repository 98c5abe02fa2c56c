//! Rules for engraving LilyPond scores.
pub mod ly_file;
pub mod lytex_file;
