//! The atoms of the objects that every program has.

pub mod eolang;
