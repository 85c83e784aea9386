//! The assembler: a script of instructions that builds a graph. `ADD(v)`
//! makes a vertex, `BIND(v1, v2, a)` binds an edge and `PUT(v, hex)` sets a
//! datum. A vertex is written as a number, with or without `ν` before it,
//! or as a variable, which begins with `$` and gets a new number when the
//! script first names it.

use crate::data::{hex_bytes, is_hex, undashed, Data};
use crate::failure::{Failure, Fault};
use crate::rules::Effect;
use crate::script::{
    index_of, instruction, is_space, read_instruction, seek, space, texts, trim, trim_range, Op,
};
use crate::store::{edges_of, first_kid, Edges, Graph};
use crate::text::{chars_of, decimal, is_decimal, parse_u32, same, string_of};
use crate::universe::Universe;
use vstd::prelude::*;
use vstd::string::StringExecFns;

verus! {

/// A script with the variables that it has named so far.
pub struct Gmi {
    /// The numbers of the variables, by name.
    vars: Vec<(String, u32)>,
    /// The text of the script.
    text: String,
    /// The vertex that stands in for vertex 0, where there is one.
    root: Option<u32>,
}

/// What an argument that names a vertex is.
pub enum Argument {
    /// A variable, by its name without the `$`.
    Variable(String),
    /// A vertex, by its number.
    Vertex(u32),
}

/// The mathematical value of an [`Argument`].
pub ghost enum Operand {
    Variable(Seq<char>),
    Vertex(u32),
}

impl View for Argument {
    type V = Operand;

    open spec fn view(&self) -> Operand {
        match self {
            Argument::Variable(name) => Operand::Variable(name@),
            Argument::Vertex(v) => Operand::Vertex(*v),
        }
    }
}

/// The graph that a script builds and the variables that it has named.
pub ghost struct Assembly {
    pub graph: Graph,
    pub vars: Edges,
}

/// The vertex that a number names, where the characters are a decimal
/// number that fits 32 bits.
pub open spec fn number(s: Seq<char>) -> Option<Operand> {
    if is_decimal(s) && decimal(s) <= u32::MAX {
        Some(Operand::Vertex(decimal(s) as u32))
    } else {
        None
    }
}

/// What an argument names: `$` and a name is a variable; a number, with or
/// without `ν` before it, is a vertex.
pub open spec fn operand(s: Seq<char>) -> Option<Operand> {
    if s.len() > 1 && s[0] == '$' {
        Some(Operand::Variable(s.subrange(1, s.len() as int)))
    } else if s.len() > 0 && s[0] == 'ν' {
        number(s.subrange(1, s.len() as int))
    } else {
        number(s)
    }
}

/// The least number above the numbers of all the variables.
pub open spec fn above(vars: Edges) -> nat
    decreases vars.len(),
{
    if vars.len() == 0 {
        0
    } else if above(vars.drop_last()) > vars.last().1 {
        above(vars.drop_last())
    } else {
        (vars.last().1 + 1) as nat
    }
}

/// How many new lines stand before a place.
pub open spec fn newlines(text: Seq<char>, pos: int) -> nat
    decreases pos,
{
    if pos <= 0 || pos > text.len() {
        0
    } else if text[pos - 1] == '\n' {
        newlines(text, pos - 1) + 1
    } else {
        newlines(text, pos - 1)
    }
}

/// The first place from `pos` on where an instruction begins: whitespace
/// is passed over, and so is a comment, from `#` to the end of its line.
pub open spec fn skip(text: Seq<char>, pos: int, comment: bool) -> int
    decreases text.len() - pos,
{
    if pos < 0 || pos >= text.len() {
        text.len() as int
    } else if comment {
        skip(text, pos + 1, text[pos] != '\n')
    } else if is_space(text[pos]) {
        skip(text, pos + 1, false)
    } else if text[pos] == '#' {
        skip(text, pos + 1, true)
    } else {
        pos
    }
}

/// The failure of an instruction, with the text of the instruction around it.
pub open spec fn refused(t: Seq<char>, f: Fault) -> Fault {
    Fault::Instruction(trim(t), Box::new(f))
}

impl Assembly {
    /// The number that the next new variable gets: the least above every
    /// vertex of the graph and above the number of every variable.
    pub open spec fn fresh(self) -> nat {
        if self.graph.top() > above(self.vars) {
            self.graph.top()
        } else {
            above(self.vars)
        }
    }

    /// The vertex that an argument names. Vertex 0 is the root that was
    /// set, where one was. A variable keeps the number it has, and a new
    /// one gets the next number, if there is one left.
    pub open spec fn resolve(self, root: Option<u32>, o: Operand) -> (Assembly, Option<u32>) {
        match o {
            Operand::Vertex(n) => (
                self,
                Some(
                    if n == 0 && root is Some {
                        root.unwrap()
                    } else {
                        n
                    },
                ),
            ),
            Operand::Variable(name) => match first_kid(self.vars, name) {
                Some(v) => (self, Some(v)),
                None => if self.fresh() > u32::MAX {
                    (self, None)
                } else {
                    (
                        Assembly {
                            graph: self.graph,
                            vars: self.vars.push((name, self.fresh() as u32)),
                        },
                        Some(self.fresh() as u32),
                    )
                },
            },
        }
    }

    /// `ADD(v)`: the vertex must not exist yet.
    pub open spec fn add(self, root: Option<u32>, t: Seq<char>, o: Operand) -> (
        Assembly,
        Option<Fault>,
    ) {
        let (a1, v) = self.resolve(root, o);
        match v {
            None => (a1, Some(refused(t, Fault::OutOfIds))),
            Some(v) => if a1.graph.has(v) {
                (a1, Some(refused(t, Fault::DuplicateVertex(v))))
            } else {
                (Assembly { graph: a1.graph.add(v), vars: a1.vars }, None)
            },
        }
    }

    /// `BIND(v1, v2, a)`: a new edge, as the graph binds one.
    pub open spec fn bind(
        self,
        root: Option<u32>,
        t: Seq<char>,
        o1: Operand,
        o2: Operand,
        a: Seq<char>,
    ) -> (Assembly, Option<Fault>) {
        let (a1, v1) = self.resolve(root, o1);
        match v1 {
            None => (a1, Some(refused(t, Fault::OutOfIds))),
            Some(v1) => {
                let (a2, v2) = a1.resolve(root, o2);
                match v2 {
                    None => (a2, Some(refused(t, Fault::OutOfIds))),
                    Some(v2) => match a2.graph.attach(v1, v2, a) {
                        Effect::Done(g) => (Assembly { graph: g, vars: a2.vars }, None),
                        Effect::Failed(g, f) => (
                            Assembly { graph: g, vars: a2.vars },
                            Some(refused(t, f)),
                        ),
                    },
                }
            },
        }
    }

    /// `PUT(v, hex)`: the datum of a vertex that exists.
    pub open spec fn put(self, root: Option<u32>, t: Seq<char>, o: Operand, bytes: Seq<u8>) -> (
        Assembly,
        Option<Fault>,
    ) {
        let (a1, v) = self.resolve(root, o);
        match v {
            None => (a1, Some(refused(t, Fault::OutOfIds))),
            Some(v) => if !a1.graph.has(v) {
                (a1, Some(refused(t, Fault::MissingVertex(v))))
            } else {
                (Assembly { graph: a1.graph.put(v, bytes), vars: a1.vars }, None)
            },
        }
    }

    /// What one instruction makes of the graph and the variables, and the
    /// failure it ends with, if it fails. `t` is its text up to the
    /// semicolon and `line` the line it begins on. A text that is no
    /// instruction, an argument that names no vertex where one is due, a
    /// wrong number of arguments and a datum that is not pairs of
    /// hexadecimal digits, with dashes between them or without, are reported
    /// with the line and change nothing. What the graph refuses is reported
    /// with the text of the instruction.
    pub open spec fn execute(self, root: Option<u32>, t: Seq<char>, line: usize) -> (
        Assembly,
        Option<Fault>,
    ) {
        match instruction(t) {
            None => (self, Some(Fault::ParseError(line))),
            Some((op, args)) => match op {
                Op::Add => if args.len() != 1 {
                    (self, Some(Fault::ArityMismatch(line)))
                } else if operand(args[0]) is None {
                    (self, Some(Fault::ParseError(line)))
                } else {
                    self.add(root, t, operand(args[0]).unwrap())
                },
                Op::Bind => if args.len() != 3 {
                    (self, Some(Fault::ArityMismatch(line)))
                } else if operand(args[0]) is None || operand(args[1]) is None {
                    (self, Some(Fault::ParseError(line)))
                } else {
                    self.bind(
                        root,
                        t,
                        operand(args[0]).unwrap(),
                        operand(args[1]).unwrap(),
                        args[2],
                    )
                },
                Op::Put => if args.len() != 2 {
                    (self, Some(Fault::ArityMismatch(line)))
                } else if operand(args[0]) is None {
                    (self, Some(Fault::ParseError(line)))
                } else if !is_hex(undashed(args[1])) || hex_bytes(undashed(args[1])).len() == 0 {
                    (self, Some(Fault::BadHex(line)))
                } else {
                    self.put(root, t, operand(args[0]).unwrap(), hex_bytes(undashed(args[1])))
                },
            },
        }
    }
}

/// What the script makes of the graph and the variables from a place on,
/// and how many instructions it has deployed at its end, `count` being
/// those deployed before. It ends with the first failure.
pub open spec fn deploy(
    state: Assembly,
    root: Option<u32>,
    text: Seq<char>,
    pos: int,
    count: nat,
) -> (Assembly, Result<nat, Fault>)
    decreases text.len() - pos,
    via deploy_decreases
{
    let s = skip(text, pos, false);
    if pos < 0 || s >= text.len() {
        (state, Ok(count))
    } else {
        let e = s + index_of(text.subrange(s, text.len() as int), ';');
        let line = (newlines(text, s) + 1) as usize;
        if e >= text.len() {
            (state, Err(Fault::ParseError(line)))
        } else {
            let (a1, f) = state.execute(root, text.subrange(s, e), line);
            match f {
                Some(f) => (a1, Err(f)),
                None => deploy(a1, root, text, e + 1, count + 1),
            }
        }
    }
}

#[via_fn]
proof fn deploy_decreases(state: Assembly, root: Option<u32>, text: Seq<char>, pos: int, count: nat) {
    if pos >= 0 {
        lemma_skip_bounds(text, pos, false);
    }
}

/// Passing over whitespace and comments does not go back.
pub proof fn lemma_skip_bounds(text: Seq<char>, pos: int, comment: bool)
    requires
        0 <= pos,
    ensures
        pos <= skip(text, pos, comment) || text.len() <= pos,
        skip(text, pos, comment) <= text.len(),
    decreases text.len() - pos,
{
    if pos < text.len() {
        if comment {
            lemma_skip_bounds(text, pos + 1, text[pos] != '\n');
        } else if is_space(text[pos]) {
            lemma_skip_bounds(text, pos + 1, false);
        } else if text[pos] == '#' {
            lemma_skip_bounds(text, pos + 1, true);
        }
    }
}

/// No more new lines stand before a place than characters.
pub proof fn lemma_newlines_bound(text: Seq<char>, pos: int)
    requires
        0 <= pos <= text.len(),
    ensures
        newlines(text, pos) <= pos,
    decreases pos,
{
    if pos > 0 {
        lemma_newlines_bound(text, pos - 1);
    }
}

/// The failure of an instruction, with the text of the instruction around it.
fn refuse(what: &str, cause: Failure) -> (r: Failure)
    ensures
        r@ == Fault::Instruction(what@, Box::new(cause@)),
{
    Failure::Instruction(String::from_str(what), Box::new(cause))
}

/// What an argument names.
pub fn read_operand(s: &str) -> (r: Option<Argument>)
    ensures
        match r {
            Some(o) => operand(s@) == Some(o@),
            None => operand(s@) is None,
        },
{
    let chars = chars_of(s);
    let n = chars.len();
    if n > 1 && chars[0] == '$' {
        return Some(Argument::Variable(string_of(&chars, 1, n)));
    }
    let from: usize = if n > 0 && chars[0] == 'ν' {
        1
    } else {
        0
    };
    assert(chars@.subrange(0, n as int) =~= chars@);
    match parse_u32(&chars, from, n) {
        Some(v) => Some(Argument::Vertex(v)),
        None => None,
    }
}

impl Gmi {
    /// The text of the script.
    pub closed spec fn text(&self) -> Seq<char> {
        self.text@
    }

    /// The variables that the script has named, with their numbers.
    pub closed spec fn vars(&self) -> Edges {
        edges_of(self.vars@)
    }

    /// The vertex that stands in for vertex 0, where there is one.
    pub closed spec fn root(&self) -> Option<u32> {
        self.root
    }

    /// A script of the given text, which has named no variable yet.
    pub fn from_string(text: String) -> (r: Result<Gmi, Failure>)
        ensures
            r matches Ok(gmi) && gmi.text() == text@ && gmi.vars() == Edges::empty() && gmi.root()
                is None,
    {
        let gmi = Gmi { text, vars: Vec::new(), root: None };
        assert(gmi.vars() =~= Edges::empty());
        Ok(gmi)
    }

    /// Makes `v0` stand in for vertex 0 wherever the script names vertex 0.
    pub fn set_root(&mut self, v0: u32)
        ensures
            final(self).root() == Some(v0),
            final(self).text() == old(self).text(),
            final(self).vars() == old(self).vars(),
    {
        self.root = Some(v0);
    }

    /// The number of a variable, if the script has named it.
    pub fn var(&self, name: &str) -> (r: Option<u32>)
        ensures
            r == first_kid(self.vars(), name@),
    {
        let ghost all = self.vars();
        let mut i: usize = 0;
        assert(all.subrange(0, all.len() as int) =~= all);
        while i < self.vars.len()
            invariant
                i <= self.vars.len(),
                all == edges_of(self.vars@),
                first_kid(all, name@) == first_kid(all.subrange(i as int, all.len() as int), name@),
            decreases self.vars.len() - i,
        {
            let ghost rest = all.subrange(i as int, all.len() as int);
            assert(rest[0] == (self.vars@[i as int].0@, self.vars@[i as int].1));
            if same(self.vars[i].0.as_str(), name) {
                return Some(self.vars[i].1);
            }
            assert(rest.drop_first() =~= all.subrange(i + 1, all.len() as int));
            i = i + 1;
        }
        None
    }

    /// The number that the next new variable gets, if there is one left.
    fn fresh<A>(&self, uni: &Universe<A>) -> (r: Option<u32>)
        ensures
            match r {
                Some(v) => (Assembly { graph: uni@, vars: self.vars() }).fresh() == v,
                None => (Assembly { graph: uni@, vars: self.vars() }).fresh() > u32::MAX,
            },
    {
        let ghost all = self.vars();
        let mut top: u64 = uni.top();
        let ghost t0 = top;
        let mut m: u64 = 0;
        let mut i: usize = 0;
        assert(all.subrange(0, 0) =~= Edges::empty());
        while i < self.vars.len()
            invariant
                i <= self.vars.len(),
                all == edges_of(self.vars@),
                m == above(all.subrange(0, i as int)),
                m <= u32::MAX + 1,
            decreases self.vars.len() - i,
        {
            proof {
                let upto = all.subrange(0, i + 1);
                assert(upto.drop_last() =~= all.subrange(0, i as int));
                assert(upto.last() == (self.vars@[i as int].0@, self.vars@[i as int].1));
            }
            if self.vars[i].1 as u64 + 1 > m {
                m = self.vars[i].1 as u64 + 1;
            }
            i = i + 1;
        }
        assert(all.subrange(0, all.len() as int) =~= all);
        if m > top {
            top = m;
        }
        if top > 0xffff_ffff {
            None
        } else {
            Some(top as u32)
        }
    }

    /// The vertex that an argument names.
    fn resolve<A>(&mut self, uni: &Universe<A>, o: &Argument) -> (r: Option<u32>)
        ensures
            final(self).text() == old(self).text(),
            final(self).root() == old(self).root(),
            (Assembly { graph: uni@, vars: old(self).vars() }).resolve(old(self).root(), o@) == (
                Assembly { graph: uni@, vars: final(self).vars() },
                r,
            ),
    {
        match o {
            Argument::Vertex(n) => {
                if *n == 0 {
                    match self.root {
                        Some(v0) => Some(v0),
                        None => Some(0),
                    }
                } else {
                    Some(*n)
                }
            },
            Argument::Variable(name) => {
                match self.var(name.as_str()) {
                    Some(v) => Some(v),
                    None => match self.fresh(uni) {
                        Some(v) => {
                            let ghost before = self.vars@;
                            self.vars.push((name.clone(), v));
                            assert(edges_of(self.vars@) =~= edges_of(before).push((name@, v)));
                            Some(v)
                        },
                        None => None,
                    },
                }
            },
        }
    }

    /// `ADD(v)`.
    fn add<A>(&mut self, uni: &mut Universe<A>, what: &str, o: &Argument) -> (r: Result<
        (),
        Failure,
    >)
        requires
            old(uni).inv(),
        ensures
            final(uni).inv(),
            final(uni).names() == old(uni).names(),
            final(uni).depth() == old(uni).depth(),
            old(uni)@.sound() ==> final(uni)@.sound(),
            final(self).text() == old(self).text(),
            final(self).root() == old(self).root(),
            forall|t: Seq<char>|
                trim(t) == what@ ==> (#[trigger] (Assembly {
                    graph: old(uni)@,
                    vars: old(self).vars(),
                }).add(old(self).root(), t, o@)) == (
                    Assembly { graph: final(uni)@, vars: final(self).vars() },
                    match r {
                        Ok(_) => None::<Fault>,
                        Err(e) => Some(e@),
                    },
                ),
    {
        let v = match self.resolve(uni, o) {
            Some(v) => v,
            None => {
                return Err(refuse(what, Failure::OutOfIds));
            },
        };
        match uni.add_at(v) {
            Ok(_) => Ok(()),
            Err(e) => Err(refuse(what, e)),
        }
    }

    /// `BIND(v1, v2, a)`.
    fn bind<A>(
        &mut self,
        uni: &mut Universe<A>,
        what: &str,
        o1: &Argument,
        o2: &Argument,
        a: &str,
    ) -> (r: Result<(), Failure>)
        requires
            old(uni).inv(),
        ensures
            final(uni).inv(),
            final(uni).names() == old(uni).names(),
            final(uni).depth() == old(uni).depth(),
            old(uni)@.sound() ==> final(uni)@.sound(),
            final(self).text() == old(self).text(),
            final(self).root() == old(self).root(),
            forall|t: Seq<char>|
                trim(t) == what@ ==> (#[trigger] (Assembly {
                    graph: old(uni)@,
                    vars: old(self).vars(),
                }).bind(old(self).root(), t, o1@, o2@, a@)) == (
                    Assembly { graph: final(uni)@, vars: final(self).vars() },
                    match r {
                        Ok(_) => None::<Fault>,
                        Err(e) => Some(e@),
                    },
                ),
    {
        let v1 = match self.resolve(uni, o1) {
            Some(v) => v,
            None => {
                return Err(refuse(what, Failure::OutOfIds));
            },
        };
        let v2 = match self.resolve(uni, o2) {
            Some(v) => v,
            None => {
                return Err(refuse(what, Failure::OutOfIds));
            },
        };
        match uni.bind(v1, v2, a) {
            Ok(_) => Ok(()),
            Err(e) => Err(refuse(what, e)),
        }
    }

    /// `PUT(v, hex)`.
    fn put<A>(&mut self, uni: &mut Universe<A>, what: &str, o: &Argument, d: &Data) -> (r: Result<
        (),
        Failure,
    >)
        requires
            old(uni).inv(),
        ensures
            final(uni).inv(),
            final(uni).names() == old(uni).names(),
            final(uni).depth() == old(uni).depth(),
            old(uni)@.sound() ==> final(uni)@.sound(),
            final(self).text() == old(self).text(),
            final(self).root() == old(self).root(),
            forall|t: Seq<char>|
                trim(t) == what@ ==> (#[trigger] (Assembly {
                    graph: old(uni)@,
                    vars: old(self).vars(),
                }).put(old(self).root(), t, o@, d@)) == (
                    Assembly { graph: final(uni)@, vars: final(self).vars() },
                    match r {
                        Ok(_) => None::<Fault>,
                        Err(e) => Some(e@),
                    },
                ),
    {
        let v = match self.resolve(uni, o) {
            Some(v) => v,
            None => {
                return Err(refuse(what, Failure::OutOfIds));
            },
        };
        match uni.put(v, d) {
            Ok(_) => Ok(()),
            Err(e) => Err(refuse(what, e)),
        }
    }

    /// Carries out the instruction that stands from `from` up to `to`,
    /// which begins on the given line.
    fn execute<A>(
        &mut self,
        uni: &mut Universe<A>,
        chars: &Vec<char>,
        from: usize,
        to: usize,
        line: usize,
    ) -> (r: Result<(), Failure>)
        requires
            old(uni).inv(),
            from <= to <= chars.len(),
        ensures
            final(uni).inv(),
            final(uni).names() == old(uni).names(),
            final(uni).depth() == old(uni).depth(),
            old(uni)@.sound() ==> final(uni)@.sound(),
            final(self).text() == old(self).text(),
            final(self).root() == old(self).root(),
            (Assembly { graph: old(uni)@, vars: old(self).vars() }).execute(
                old(self).root(),
                chars@.subrange(from as int, to as int),
                line,
            ) == (
                Assembly { graph: final(uni)@, vars: final(self).vars() },
                match r {
                    Ok(_) => None::<Fault>,
                    Err(e) => Some(e@),
                },
            ),
    {
        let ghost t = chars@.subrange(from as int, to as int);
        let (op, args) = match read_instruction(chars, from, to) {
            Some(parsed) => parsed,
            None => {
                return Err(Failure::ParseError(line));
            },
        };
        let ghost words = texts(args@);
        assert(words.len() == args@.len());
        let (a, b) = trim_range(chars, from, to);
        let what = string_of(chars, a, b);
        assert(what@ == trim(t));
        match op {
            Op::Add => {
                if args.len() != 1 {
                    return Err(Failure::ArityMismatch(line));
                }
                assert(words[0] == args@[0]@);
                let o = match read_operand(args[0].as_str()) {
                    Some(o) => o,
                    None => {
                        return Err(Failure::ParseError(line));
                    },
                };
                self.add(uni, what.as_str(), &o)
            },
            Op::Bind => {
                if args.len() != 3 {
                    return Err(Failure::ArityMismatch(line));
                }
                assert(words[0] == args@[0]@);
                assert(words[1] == args@[1]@);
                assert(words[2] == args@[2]@);
                let o1 = match read_operand(args[0].as_str()) {
                    Some(o) => o,
                    None => {
                        return Err(Failure::ParseError(line));
                    },
                };
                let o2 = match read_operand(args[1].as_str()) {
                    Some(o) => o,
                    None => {
                        return Err(Failure::ParseError(line));
                    },
                };
                self.bind(uni, what.as_str(), &o1, &o2, args[2].as_str())
            },
            Op::Put => {
                if args.len() != 2 {
                    return Err(Failure::ArityMismatch(line));
                }
                assert(words[0] == args@[0]@);
                assert(words[1] == args@[1]@);
                let o = match read_operand(args[0].as_str()) {
                    Some(o) => o,
                    None => {
                        return Err(Failure::ParseError(line));
                    },
                };
                let d = match Data::try_from_hex(args[1].as_str()) {
                    Some(d) => d,
                    None => {
                        return Err(Failure::BadHex(line));
                    },
                };
                if d.is_empty() {
                    return Err(Failure::BadHex(line));
                }
                self.put(uni, what.as_str(), &o, &d)
            },
        }
    }

    /// Deploys the script to a universe: carries out its instructions one
    /// after the other, up to the first that fails, and says how many it
    /// has carried out.
    pub fn deploy_to<A>(&mut self, uni: &mut Universe<A>) -> (r: Result<usize, Failure>)
        requires
            old(uni).inv(),
        ensures
            final(uni).inv(),
            final(uni).names() == old(uni).names(),
            final(uni).depth() == old(uni).depth(),
            old(uni)@.sound() ==> final(uni)@.sound(),
            final(self).text() == old(self).text(),
            final(self).root() == old(self).root(),
            deploy(
                Assembly { graph: old(uni)@, vars: old(self).vars() },
                old(self).root(),
                old(self).text(),
                0,
                0,
            ) == (
                Assembly { graph: final(uni)@, vars: final(self).vars() },
                match r {
                    Ok(n) => Ok::<nat, Fault>(n as nat),
                    Err(e) => Err::<nat, Fault>(e@),
                },
            ),
    {
        let chars = chars_of(self.text.as_str());
        let n = chars.len();
        let ghost start = Assembly { graph: uni@, vars: self.vars() };
        let ghost root = self.root();
        let mut pos: usize = 0;
        let mut lines: usize = 0;
        let mut total: usize = 0;
        loop
            invariant
                n == chars.len(),
                chars@ == old(self).text(),
                pos <= n,
                total <= pos,
                lines == newlines(chars@, pos as int),
                root == old(self).root(),
                start == (Assembly { graph: old(uni)@, vars: old(self).vars() }),
                uni.inv(),
                uni.names() == old(uni).names(),
                uni.depth() == old(uni).depth(),
                old(uni)@.sound() ==> uni@.sound(),
                self.text() == old(self).text(),
                self.root() == root,
                deploy(start, root, chars@, 0, 0) == deploy(
                    Assembly { graph: uni@, vars: self.vars() },
                    root,
                    chars@,
                    pos as int,
                    total as nat,
                ),
            decreases n - pos,
        {
            let mut s: usize = pos;
            let mut comment = false;
            while s < n && (comment || space(chars[s]) || chars[s] == '#')
                invariant
                    n == chars.len(),
                    pos <= s <= n,
                    lines == newlines(chars@, s as int),
                    skip(chars@, pos as int, false) == skip(chars@, s as int, comment),
                decreases n - s,
            {
                if chars[s] == '\n' {
                    proof {
                        lemma_newlines_bound(chars@, s as int);
                    }
                    lines = lines + 1;
                }
                if comment {
                    comment = chars[s] != '\n';
                } else if chars[s] == '#' {
                    comment = true;
                }
                s = s + 1;
            }
            if s >= n {
                return Ok(total);
            }
            proof {
                lemma_newlines_bound(chars@, s as int);
            }
            assert(skip(chars@, pos as int, false) == s);
            let line = lines + 1;
            let e = seek(&chars, s, n, ';');
            if e >= n {
                return Err(Failure::ParseError(line));
            }
            match self.execute(uni, &chars, s, e, line) {
                Ok(_) => {},
                Err(f) => {
                    return Err(f);
                },
            }
            let mut k: usize = s;
            while k <= e
                invariant
                    n == chars.len(),
                    s <= k <= e + 1,
                    e < n,
                    lines == newlines(chars@, k as int),
                decreases e + 1 - k,
            {
                if chars[k] == '\n' {
                    proof {
                        lemma_newlines_bound(chars@, k as int);
                    }
                    lines = lines + 1;
                }
                k = k + 1;
            }
            total = total + 1;
            pos = e + 1;
        }
    }
}

} // verus!
