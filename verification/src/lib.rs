//! Lexical front end for a small `.jasm`-style language: a single-pass
//! scanner from a raw byte buffer to a sequence of classified tokens with
//! 1-based line/column positions, or the first lexical error with a snippet
//! pointing at the offending location.

pub mod classify;
pub mod props;
pub mod render;
pub mod scan;
pub mod token;
