//! The atoms of the package `org.eolang`.

pub mod array;
pub mod integer;
