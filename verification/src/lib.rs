//! A virtual machine for programs that are graphs of objects.
//!
//! A program is a graph of vertices and labelled edges. It is assembled from
//! a script ([`gmi`]), atoms are registered by name, and the engine
//! ([`universe`]) resolves a locator in the graph: it follows edges, makes
//! copies of objects when they are first looked into, calls atoms where a
//! vertex names one, and hands out the bytes that it finds.
//!
//! What each step of the engine makes of a graph is written down as
//! mathematics in [`rules`]; the operations of the universe are proved to do
//! exactly that, up to where an atom takes over. What follows from the rules
//! for every graph is proved in [`laws`] and in [`lifecycle`].

pub mod data;
pub mod failure;
pub mod gmi;
pub mod labels;
pub mod laws;
pub mod lifecycle;
pub mod org;
pub mod rules;
pub mod script;
pub mod scripts;
pub mod setup;
pub mod store;
pub mod text;
pub mod universe;
pub mod xmir;

pub use crate::universe::Atom;
pub use crate::universe::Universe;
