//! What can go wrong, in the graph store, in the engine and in the assembler.

use vstd::prelude::*;

verus! {

/// A failure of the graph store, of the engine or of the assembler.
#[derive(Debug)]
pub enum Failure {
    /// The vertex is not in the graph.
    MissingVertex(u32),
    /// The vertex is in the graph already.
    DuplicateVertex(u32),
    /// The vertex has an edge with this label already.
    DuplicateEdge(u32, String),
    /// An edge with this label at this vertex would break a rule of the graph.
    InvariantViolation(u32, String),
    /// No rule of dispatch gives this attribute at this vertex.
    UnresolvedAttribute(u32, String),
    /// No slot of this vertex can take this label.
    CannotTie(u32, String),
    /// The graph has no vertex at all.
    EmptyGraph,
    /// The vertex carries no datum.
    MissingDatum(u32),
    /// The dispatch went deeper than the bound allows.
    RecursionTooDeep,
    /// The vertex names an atom that nobody registered.
    AtomNotRegistered(u32, String),
    /// The atom that this vertex names has failed; its own failure is inside.
    Atom(u32, Box<Failure>),
    /// No identifier is left for a new vertex.
    OutOfIds,
    /// This step of a locator is no number where one is due.
    BadLocator(String),
    /// The instruction that starts at this line is malformed.
    ParseError(usize),
    /// The instruction that starts at this line has the wrong number of arguments.
    ArityMismatch(usize),
    /// The instruction that starts at this line holds a broken hexadecimal literal.
    BadHex(usize),
    /// The graph refused this instruction; the reason is inside.
    Instruction(String, Box<Failure>),
    /// The bytes do not make a value of the type asked for.
    BadData,
    /// Integer arithmetic left the range of the type.
    Overflow,
    /// An integer was to be divided by zero.
    DivisionByZero,
    /// A failure that an atom describes in its own words.
    Custom(String),
}

/// The mathematical value of a [`Failure`]: strings become sequences of characters.
pub enum Fault {
    MissingVertex(u32),
    DuplicateVertex(u32),
    DuplicateEdge(u32, Seq<char>),
    InvariantViolation(u32, Seq<char>),
    UnresolvedAttribute(u32, Seq<char>),
    CannotTie(u32, Seq<char>),
    EmptyGraph,
    MissingDatum(u32),
    RecursionTooDeep,
    AtomNotRegistered(u32, Seq<char>),
    Atom(u32, Box<Fault>),
    OutOfIds,
    BadLocator(Seq<char>),
    ParseError(usize),
    ArityMismatch(usize),
    BadHex(usize),
    Instruction(Seq<char>, Box<Fault>),
    BadData,
    Overflow,
    DivisionByZero,
    Custom(Seq<char>),
}

impl Failure {
    /// The mathematical value of this failure.
    pub open spec fn fault(&self) -> Fault
        decreases self,
    {
        match self {
            Failure::MissingVertex(v) => Fault::MissingVertex(*v),
            Failure::DuplicateVertex(v) => Fault::DuplicateVertex(*v),
            Failure::DuplicateEdge(v, a) => Fault::DuplicateEdge(*v, a@),
            Failure::InvariantViolation(v, a) => Fault::InvariantViolation(*v, a@),
            Failure::UnresolvedAttribute(v, a) => Fault::UnresolvedAttribute(*v, a@),
            Failure::CannotTie(v, a) => Fault::CannotTie(*v, a@),
            Failure::EmptyGraph => Fault::EmptyGraph,
            Failure::MissingDatum(v) => Fault::MissingDatum(*v),
            Failure::RecursionTooDeep => Fault::RecursionTooDeep,
            Failure::AtomNotRegistered(v, a) => Fault::AtomNotRegistered(*v, a@),
            Failure::Atom(v, inner) => Fault::Atom(*v, Box::new(inner.fault())),
            Failure::OutOfIds => Fault::OutOfIds,
            Failure::BadLocator(a) => Fault::BadLocator(a@),
            Failure::ParseError(n) => Fault::ParseError(*n),
            Failure::ArityMismatch(n) => Fault::ArityMismatch(*n),
            Failure::BadHex(n) => Fault::BadHex(*n),
            Failure::Instruction(t, inner) => Fault::Instruction(t@, Box::new(inner.fault())),
            Failure::BadData => Fault::BadData,
            Failure::Overflow => Fault::Overflow,
            Failure::DivisionByZero => Fault::DivisionByZero,
            Failure::Custom(t) => Fault::Custom(t@),
        }
    }
}

impl View for Failure {
    type V = Fault;

    open spec fn view(&self) -> Fault {
        self.fault()
    }
}

} // verus!
