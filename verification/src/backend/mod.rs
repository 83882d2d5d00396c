//! Back ends: each lowers the resolved representation to a target language.

pub mod javascript;
