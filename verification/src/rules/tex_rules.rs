//! Rules for typesetting TeX documents.
pub mod pdf_file;
pub mod tex_file;
