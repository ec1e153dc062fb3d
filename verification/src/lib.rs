//! Reading Delphi form files (DFM) and resolving component type aliases.
pub mod aliases;
pub mod map;
pub mod normalizer;
pub mod number;
pub mod parser;
pub mod text;
