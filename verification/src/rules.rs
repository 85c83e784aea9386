//! The rules of the graph and of dispatch, as mathematics: what a sound
//! graph is, and what each step of the engine makes of a graph.

use crate::failure::Fault;
use crate::labels::{
    beta, delta, epsilon, gamma, here, lambda, leads_back, phi, pi, psi, rho, root, root_ascii,
    sigma, xi,
};
use crate::store::{Edges, Graph};
use crate::text::{decimal, is_decimal};
use vstd::prelude::*;
use vstd::utf8::{decode_utf8, is_ascii_chars, valid_utf8};

verus! {

/// How deep dispatch may go.
pub const MAX_DEPTH: usize = 20;

/// What a step that looks for a vertex comes to.
pub ghost enum Outcome {
    /// The vertex is found, in this graph.
    Done(Graph, u32),
    /// The step has failed, and left this graph.
    Failed(Graph, Fault),
    /// The step has reached an atom, which decides the rest: the atom of
    /// this name is called at this vertex, with this graph.
    Native(Graph, u32, Seq<char>),
}

/// What a step that only changes the graph comes to.
pub ghost enum Effect {
    /// The step is done, and this is the graph.
    Done(Graph),
    /// The step has failed, and left this graph.
    Failed(Graph, Fault),
}

/// What reading a datum comes to.
pub ghost enum Reading {
    /// These bytes are found, in this graph.
    Bytes(Graph, Seq<u8>),
    /// The reading has failed, and left this graph.
    Failed(Graph, Fault),
    /// The reading has reached an atom, which decides the rest: the atom
    /// of this name is called at this vertex, with this graph.
    Native(Graph, u32, Seq<char>),
}

impl Graph {
    /// Whether the graph has no vertex.
    pub open spec fn is_empty(self) -> bool {
        forall|v: u32| !self.has(v)
    }

    /// The least number above every vertex.
    pub open spec fn top(self) -> nat {
        choose|t: nat| self.top_is(t)
    }

    /// Whether some number is above every vertex, as in every graph that a
    /// machine holds.
    pub open spec fn bounded(self) -> bool {
        exists|t: nat| self.top_is(t)
    }

    /// Whether the vertex has an edge with the label.
    pub open spec fn holds(self, v: u32, a: Seq<char>) -> bool {
        self.kid(v, a) is Some
    }

    /// Whether an edge labelled `a` from `v1` to `v2` would break a rule: a
    /// vertex has not both `π` and `φ`, nor both `λ` and `Δ`, and no edge
    /// that leads back arrives at the root.
    pub open spec fn forbids(self, v1: u32, v2: u32, a: Seq<char>) -> bool {
        ||| a == pi() && self.holds(v1, phi())
        ||| a == phi() && self.holds(v1, pi())
        ||| a == lambda() && self.holds(v1, delta())
        ||| a == delta() && self.holds(v1, lambda())
        ||| v2 == 0 && leads_back(a)
    }

    /// Whether the edges of the vertex keep the rules.
    pub open spec fn sound_at(self, v: u32) -> bool {
        &&& !(self.holds(v, pi()) && self.holds(v, phi()))
        &&& !(self.holds(v, lambda()) && self.holds(v, delta()))
        &&& forall|i: int|
            0 <= i < self.edges(v).len() ==> {
                &&& self.has(#[trigger] self.edges(v)[i].1)
                &&& !(self.edges(v)[i].1 == 0 && leads_back(self.edges(v)[i].0))
            }
    }

    /// Whether the graph keeps the rules: every edge arrives at a vertex that
    /// exists, no vertex has both `π` and `φ`, or both `λ` and `Δ`, and no
    /// edge that leads back arrives at the root.
    pub open spec fn sound(self) -> bool {
        forall|v: u32| self.has(v) ==> self.sound_at(v)
    }

    /// Whether the vertex is a nil: its one edge is `ρ`.
    pub open spec fn nil(self, v: u32) -> bool {
        self.edges(v).len() == 1 && self.edges(v)[0].0 == rho()
    }

    /// Binds an edge that may replace one with the same label, where both
    /// vertices exist and no rule forbids it.
    pub open spec fn link(self, v1: u32, v2: u32, a: Seq<char>) -> Effect {
        if !self.has(v1) {
            Effect::Failed(self, Fault::MissingVertex(v1))
        } else if !self.has(v2) {
            Effect::Failed(self, Fault::MissingVertex(v2))
        } else if self.forbids(v1, v2, a) {
            Effect::Failed(self, Fault::InvariantViolation(v1, a))
        } else {
            Effect::Done(self.bind(v1, v2, a))
        }
    }

    /// Binds a new edge, where both vertices exist, `v1` has no edge with
    /// the label yet and no rule forbids it.
    pub open spec fn attach(self, v1: u32, v2: u32, a: Seq<char>) -> Effect {
        if self.has(v1) && self.has(v2) && self.holds(v1, a) {
            Effect::Failed(self, Fault::DuplicateEdge(v1, a))
        } else {
            self.link(v1, v2, a)
        }
    }

    /// The label of the slot of `v` that an edge labelled `a` may fill, where
    /// `v` has that slot and a nil is in it.
    pub open spec fn tie_slot(self, v: u32, a: Seq<char>) -> Result<Seq<char>, Fault> {
        match self.kid(v, a) {
            Some(k) => if !self.has(k) {
                Err(Fault::MissingVertex(k))
            } else if self.nil(k) {
                Ok(a)
            } else {
                Err(Fault::CannotTie(v, a))
            },
            None => Err(Fault::CannotTie(v, a)),
        }
    }

    /// The label under which an edge labelled `a` is bound to `v`. `ρ` and
    /// `σ` stay. `Δ` stays where `v` has no `Δ`. A label whose slot holds a
    /// nil stays. `α` with a number stands for the slot of the ASCII label
    /// of that rank, counted from zero in the order of binding. Nothing else
    /// can be tied.
    pub open spec fn tie(self, v: u32, a: Seq<char>) -> Result<Seq<char>, Fault> {
        if a == rho() || a == sigma() {
            Ok(a)
        } else if a == delta() && !self.holds(v, a) {
            Ok(a)
        } else if self.holds(v, a) && !self.has(self.kid(v, a).unwrap()) {
            Err(Fault::MissingVertex(self.kid(v, a).unwrap()))
        } else if self.holds(v, a) && self.nil(self.kid(v, a).unwrap()) {
            Ok(a)
        } else if a.len() > 0 && a[0] == 'α' {
            let tail = a.subrange(1, a.len() as int);
            let slots = ascii_labels(self.edges(v));
            if !self.has(v) {
                Err(Fault::MissingVertex(v))
            } else if is_decimal(tail) && decimal(tail) <= u32::MAX && decimal(tail) < slots.len() {
                self.tie_slot(v, slots[decimal(tail) as int])
            } else {
                Err(Fault::CannotTie(v, a))
            }
        } else {
            Err(Fault::CannotTie(v, a))
        }
    }

    /// Binds to `v1` what an edge labelled `a` to `v2` becomes when it is
    /// pushed down from a copy.
    pub open spec fn down(self, v1: u32, v2: u32, a: Seq<char>) -> Effect {
        match self.tie(v1, a) {
            Ok(a1) => self.link(v1, v2, a1),
            Err(f) => Effect::Failed(self, f),
        }
    }

    /// Binds to `v1` what an edge labelled `a` to `v2` becomes when it is
    /// pulled up from an exemplar: the edge itself for `λ`, `Δ`, `ρ` and for
    /// a nil, and else an edge to a new vertex, the trampoline, which leads
    /// back to `v1` by `ρ` and `ψ` and is a copy of `v2` by `π`.
    pub open spec fn up(self, v1: u32, v2: u32, a: Seq<char>) -> Effect {
        if a == lambda() || a == delta() || a == rho() {
            self.link(v1, v2, a)
        } else if !self.has(v2) {
            Effect::Failed(self, Fault::MissingVertex(v2))
        } else if self.nil(v2) {
            self.link(v1, v2, a)
        } else if self.top() > u32::MAX {
            Effect::Failed(self, Fault::OutOfIds)
        } else {
            let t = self.top() as u32;
            then_link(
                then_link(then_link(self.add(t).link(v1, t, a), t, v1, rho()), t, v1, psi()),
                t,
                v2,
                pi(),
            )
        }
    }

    /// Pulls up to `nv` the first `n` of the edges, but `σ`, `β` and `π`.
    pub open spec fn pull_upto(self, nv: u32, kids: Edges, n: nat) -> Effect
        decreases n,
    {
        if n == 0 {
            Effect::Done(self)
        } else {
            match self.pull_upto(nv, kids, (n - 1) as nat) {
                Effect::Done(g) => {
                    let a = kids[n - 1].0;
                    if a == sigma() || a == beta() || a == pi() {
                        Effect::Done(g)
                    } else {
                        g.up(nv, kids[n - 1].1, a)
                    }
                },
                Effect::Failed(g, f) => Effect::Failed(g, f),
            }
        }
    }

    /// Pulls up to `nv` the edges of `v`, but `σ`, `β` and `π`.
    pub open spec fn pull(self, nv: u32, v: u32) -> Effect {
        if !self.has(v) {
            Effect::Failed(self, Fault::MissingVertex(v))
        } else {
            self.pull_upto(nv, self.edges(v), self.edges(v).len())
        }
    }

    /// Pushes down to `nv` the first `n` of the edges, but `π` and `ψ`.
    pub open spec fn push_upto(self, nv: u32, kids: Edges, n: nat) -> Effect
        decreases n,
    {
        if n == 0 {
            Effect::Done(self)
        } else {
            match self.push_upto(nv, kids, (n - 1) as nat) {
                Effect::Done(g) => {
                    let a = kids[n - 1].0;
                    if a == pi() || a == psi() {
                        Effect::Done(g)
                    } else {
                        g.down(nv, kids[n - 1].1, a)
                    }
                },
                Effect::Failed(g, f) => Effect::Failed(g, f),
            }
        }
    }

    /// The label under which the edge of rank `i` is bound when the edges
    /// are pushed down to `nv`, one after the other.
    pub open spec fn tied(self, nv: u32, kids: Edges, i: nat) -> Seq<char> {
        match self.push_upto(nv, kids, i) {
            Effect::Done(g) => match g.tie(nv, kids[i as int].0) {
                Ok(label) => label,
                Err(_) => kids[i as int].0,
            },
            Effect::Failed(_, _) => kids[i as int].0,
        }
    }

    /// Pushes down to `nv` the edges of `v`, but `π` and `ψ`.
    pub open spec fn push(self, nv: u32, v: u32) -> Effect {
        if !self.has(v) {
            Effect::Failed(self, Fault::MissingVertex(v))
        } else {
            self.push_upto(nv, self.edges(v), self.edges(v).len())
        }
    }

    /// Makes a new vertex that has what `v1` has, pulled up, and on top of
    /// it what `v2` has, pushed down.
    pub open spec fn apply(self, v1: u32, v2: u32, depth: nat) -> Outcome {
        if depth >= MAX_DEPTH {
            Outcome::Failed(self, Fault::RecursionTooDeep)
        } else if self.top() > u32::MAX {
            Outcome::Failed(self, Fault::OutOfIds)
        } else {
            let nv = self.top() as u32;
            match self.add(nv).pull(nv, v1) {
                Effect::Done(g) => match g.push(nv, v2) {
                    Effect::Done(g2) => Outcome::Done(g2, nv),
                    Effect::Failed(g2, f) => Outcome::Failed(g2, f),
                },
                Effect::Failed(g, f) => Outcome::Failed(g, f),
            }
        }
    }

    /// Dynamic dispatch: the vertex at which an attribute of `v` is looked
    /// for. `ψ` at `v` sets the context. `ε` is followed; `ξ` stands for the
    /// context; `β` names an attribute by the first edge of its target; `π`
    /// makes a copy of what the exemplar dispatches to; else it is `v`.
    pub open spec fn dd(self, atoms: Set<Seq<char>>, v: u32, ctx: u32, depth: nat) -> Outcome
        decreases MAX_DEPTH - depth, 1int,
    {
        let ctx2 = match self.kid(v, psi()) {
            Some(p) => p,
            None => ctx,
        };
        if depth >= MAX_DEPTH {
            Outcome::Failed(self, Fault::RecursionTooDeep)
        } else if self.holds(v, epsilon()) {
            self.dd(atoms, self.kid(v, epsilon()).unwrap(), ctx2, depth + 1)
        } else if self.holds(v, xi()) {
            self.dd(atoms, ctx2, ctx2, depth + 1)
        } else if self.holds(v, beta()) {
            let b = self.kid(v, beta()).unwrap();
            if !self.has(b) || self.edges(b).len() == 0 {
                Outcome::Failed(self, Fault::MissingVertex(b))
            } else {
                match self.fnd(atoms, self.edges(b)[0].1, self.edges(b)[0].0, ctx2, depth + 1) {
                    Outcome::Done(g, nv) => g.dd(atoms, nv, ctx2, depth + 1),
                    other => other,
                }
            }
        } else if self.holds(v, pi()) {
            match self.dd(atoms, self.kid(v, pi()).unwrap(), ctx2, depth + 1) {
                Outcome::Done(g, nv) => g.apply(nv, v, depth + 1),
                other => other,
            }
        } else {
            Outcome::Done(self, v)
        }
    }

    /// Path find: the vertex that the attribute `a` of `v` is. An edge of
    /// `v` with that label gives it. Else `λ` hands over to an atom, `φ`
    /// looks at its target, and `γ` does so too and binds what it finds to
    /// `v` under `a`.
    pub open spec fn pf(self, atoms: Set<Seq<char>>, v: u32, a: Seq<char>, ctx: u32, depth: nat)
        -> Outcome
        decreases MAX_DEPTH - depth, 1int,
    {
        if depth >= MAX_DEPTH {
            Outcome::Failed(self, Fault::RecursionTooDeep)
        } else if self.holds(v, a) {
            Outcome::Done(self, self.kid(v, a).unwrap())
        } else if self.holds(v, lambda()) {
            let lv = self.kid(v, lambda()).unwrap();
            if !self.has(lv) {
                Outcome::Failed(self, Fault::MissingVertex(lv))
            } else if !valid_utf8(self.datum(lv)) {
                Outcome::Failed(self, Fault::BadData)
            } else if !atoms.contains(decode_utf8(self.datum(lv))) {
                Outcome::Failed(self, Fault::AtomNotRegistered(v, decode_utf8(self.datum(lv))))
            } else {
                Outcome::Native(self, v, decode_utf8(self.datum(lv)))
            }
        } else if self.holds(v, phi()) {
            self.fnd(atoms, self.kid(v, phi()).unwrap(), a, ctx, depth + 1)
        } else if self.holds(v, gamma()) {
            match self.fnd(atoms, self.kid(v, gamma()).unwrap(), a, ctx, depth + 1) {
                Outcome::Done(g, t) => match g.link(v, t, a) {
                    Effect::Done(g2) => Outcome::Done(g2, t),
                    Effect::Failed(g2, f) => Outcome::Failed(g2, f),
                },
                other => other,
            }
        } else {
            Outcome::Failed(self, Fault::UnresolvedAttribute(v, a))
        }
    }

    /// The vertex that the attribute `a` of `v` is: dynamic dispatch on `v`,
    /// then path find from where it ends.
    pub open spec fn fnd(self, atoms: Set<Seq<char>>, v: u32, a: Seq<char>, ctx: u32, depth: nat)
        -> Outcome
        decreases MAX_DEPTH - depth, 0int,
    {
        if depth >= MAX_DEPTH {
            Outcome::Failed(self, Fault::RecursionTooDeep)
        } else {
            match self.dd(atoms, v, ctx, depth + 1) {
                Outcome::Done(g, v1) => g.pf(atoms, v1, a, ctx, depth + 1),
                other => other,
            }
        }
    }

    /// The vertex under `at` that the label leads to: the one that is
    /// there, or else a new one, bound under the label.
    pub open spec fn descend(self, at: u32, p: Seq<char>) -> Outcome {
        if self.holds(at, p) {
            Outcome::Done(self, self.kid(at, p).unwrap())
        } else if self.top() > u32::MAX {
            Outcome::Failed(self, Fault::OutOfIds)
        } else {
            match self.add(self.top() as u32).attach(at, self.top() as u32, p) {
                Effect::Done(g) => Outcome::Done(g, self.top() as u32),
                Effect::Failed(g, f) => Outcome::Failed(g, f),
            }
        }
    }

    /// A vertex with a datum of its own: a new vertex with an edge `Δ` to
    /// one more new vertex, which carries the bytes.
    pub open spec fn carry(self, bytes: Seq<u8>) -> Outcome {
        if self.top() + 1 > u32::MAX {
            Outcome::Failed(self, Fault::OutOfIds)
        } else {
            let v = self.top() as u32;
            let d = (self.top() + 1) as u32;
            match self.add(v).add(d).put(d, bytes).attach(v, d, delta()) {
                Effect::Done(g) => Outcome::Done(g, v),
                Effect::Failed(g, f) => Outcome::Failed(g, f),
            }
        }
    }

    /// Makes `v` name an atom: a new vertex carries the name in UTF-8, and
    /// `λ` leads to it from `v`.
    pub open spec fn name_atom(self, v: u32, name: Seq<char>) -> Effect {
        if self.top() > u32::MAX {
            Effect::Failed(self, Fault::OutOfIds)
        } else {
            self.add(self.top() as u32).put(self.top() as u32, vstd::utf8::encode_utf8(name)).attach(
                v,
                self.top() as u32,
                lambda(),
            )
        }
    }

    /// A jump to a vertex, which has to exist.
    pub open spec fn jump(self, v: u32) -> Outcome {
        if self.has(v) {
            Outcome::Done(self, v)
        } else {
            Outcome::Failed(self, Fault::MissingVertex(v))
        }
    }

    /// One step of a locator from `v`. `Φ` and `Q` go to the root. `ν` with
    /// a number goes to that vertex. `ξ` and `$` stay. Else an edge of `v`
    /// with that label is followed, and where there is none the attribute is
    /// resolved by dispatch.
    pub open spec fn step(self, atoms: Set<Seq<char>>, v: u32, k: Seq<char>, depth: nat) -> Outcome {
        if k == root() || k == root_ascii() {
            self.jump(0)
        } else if k.len() > 0 && k[0] == 'ν' {
            let tail = k.subrange(1, k.len() as int);
            if is_decimal(tail) && decimal(tail) <= u32::MAX {
                self.jump(decimal(tail) as u32)
            } else {
                Outcome::Failed(self, Fault::BadLocator(k))
            }
        } else if k == xi() || k == here() {
            Outcome::Done(self, v)
        } else if self.holds(v, k) {
            Outcome::Done(self, self.kid(v, k).unwrap())
        } else if !self.has(v) {
            Outcome::Failed(self, Fault::MissingVertex(v))
        } else {
            self.fnd(atoms, v, k, 0, depth)
        }
    }

    /// Resolves a locator from the root.
    pub open spec fn find(self, atoms: Set<Seq<char>>, loc: Seq<char>, depth: nat) -> Outcome {
        if self.is_empty() {
            Outcome::Failed(self, Fault::EmptyGraph)
        } else {
            walk(atoms, Outcome::Done(self, 0), tokens(loc), depth)
        }
    }

    /// The bytes at the vertex, which has to exist and to carry a datum.
    pub open spec fn read(self, v: u32) -> Reading {
        if !self.has(v) {
            Reading::Failed(self, Fault::MissingVertex(v))
        } else if self.datum(v).len() == 0 {
            Reading::Failed(self, Fault::MissingDatum(v))
        } else {
            Reading::Bytes(self, self.datum(v))
        }
    }

    /// The bytes that a locator stands for: those of the vertex that the
    /// locator, with `Δ` as one more step, resolves to.
    pub open spec fn dataize(self, atoms: Set<Seq<char>>, loc: Seq<char>, depth: nat) -> Reading {
        match self.find(atoms, loc + seq!['.', 'Δ'], depth) {
            Outcome::Done(g, v) => g.read(v),
            Outcome::Failed(g, f) => Reading::Failed(g, f),
            Outcome::Native(g, v, name) => Reading::Native(g, v, name),
        }
    }
}

/// Goes on with a link where what came before is done.
pub open spec fn then_link(e: Effect, v1: u32, v2: u32, a: Seq<char>) -> Effect {
    match e {
        Effect::Done(g) => g.link(v1, v2, a),
        Effect::Failed(g, f) => Effect::Failed(g, f),
    }
}

/// The labels among the edges that are made of ASCII alone, in their order.
pub open spec fn ascii_labels(edges: Edges) -> Seq<Seq<char>> {
    edges.map_values(|e: (Seq<char>, u32)| e.0).filter(|a: Seq<char>| is_ascii_chars(a))
}

/// Where the last dot stands; -1 where there is none.
pub open spec fn last_dot(s: Seq<char>) -> int
    decreases s.len(),
{
    if s.len() == 0 {
        -1
    } else if s.last() == '.' {
        s.len() - 1
    } else {
        last_dot(s.drop_last())
    }
}

/// The steps of a locator: what stands between its dots, but where nothing
/// stands between two of them.
pub open spec fn tokens(s: Seq<char>) -> Seq<Seq<char>>
    decreases s.len(),
    via tokens_decreases
{
    if s.len() == 0 {
        Seq::empty()
    } else {
        let i = last_dot(s);
        let tail = s.subrange(i + 1, s.len() as int);
        let head = if i < 0 {
            Seq::empty()
        } else {
            s.subrange(0, i)
        };
        if tail.len() == 0 {
            tokens(head)
        } else {
            tokens(head).push(tail)
        }
    }
}

#[via_fn]
proof fn tokens_decreases(s: Seq<char>) {
    lemma_last_dot_bounds(s);
}

/// The last dot stands inside the sequence, and no dot follows it.
pub proof fn lemma_last_dot_bounds(s: Seq<char>)
    ensures
        -1 <= last_dot(s) < s.len(),
        last_dot(s) >= 0 ==> s[last_dot(s)] == '.',
        forall|j: int| last_dot(s) < j < s.len() ==> s[j] != '.',
    decreases s.len(),
{
    if s.len() > 0 && s.last() != '.' {
        lemma_last_dot_bounds(s.drop_last());
        assert forall|j: int| last_dot(s) < j < s.len() implies s[j] != '.' by {
            if j < s.len() - 1 {
                assert(s.drop_last()[j] == s[j]);
            }
        }
    }
}

/// Goes down from vertex to vertex by the labels, one after the other, and
/// makes the vertices that are not there.
pub open spec fn mount(start: Outcome, parts: Seq<Seq<char>>) -> Outcome
    decreases parts.len(),
{
    if parts.len() == 0 {
        start
    } else {
        match mount(start, parts.drop_last()) {
            Outcome::Done(g, v) => g.descend(v, parts.last()),
            other => other,
        }
    }
}

/// Takes the steps one after the other, as long as each is done.
pub open spec fn walk(atoms: Set<Seq<char>>, start: Outcome, steps: Seq<Seq<char>>, depth: nat)
    -> Outcome
    decreases steps.len(),
{
    if steps.len() == 0 {
        start
    } else {
        match walk(atoms, start, steps.drop_last(), depth) {
            Outcome::Done(g, v) => g.step(atoms, v, steps.last(), depth),
            other => other,
        }
    }
}


/// Only one number is the least above every vertex.
pub proof fn lemma_top_unique(g: Graph, t1: nat, t2: nat)
    requires
        g.top_is(t1),
        g.top_is(t2),
    ensures
        t1 == t2,
        g.top() == t1,
{
    if t1 < t2 {
        assert(g.has((t2 - 1) as u32));
    }
    if t2 < t1 {
        assert(g.has((t1 - 1) as u32));
    }
    let t = g.top();
    if t < t1 {
        assert(g.has((t1 - 1) as u32));
    }
    if t1 < t {
        assert(g.has((t - 1) as u32));
    }
}

/// A new vertex keeps a sound graph sound, and is no nil.
pub proof fn lemma_add_sound(g: Graph, v: u32)
    requires
        g.sound(),
    ensures
        g.add(v).sound(),
{
    let h = g.add(v);
    assert forall|w: u32| h.has(w) implies h.sound_at(w) by {
        if g.has(w) {
            assert(g.sound_at(w));
            assert(h.edges(w) == g.edges(w));
            assert forall|i: int| 0 <= i < h.edges(w).len() implies h.has(
                #[trigger] h.edges(w)[i].1,
            ) by {
                assert(g.has(g.edges(w)[i].1));
            }
        } else {
            assert(h.edges(w) =~= Seq::empty());
        }
    }
}

/// A datum keeps a sound graph sound.
pub proof fn lemma_put_sound(g: Graph, v: u32, bytes: Seq<u8>)
    requires
        g.sound(),
    ensures
        g.put(v, bytes).sound(),
{
    let h = g.put(v, bytes);
    assert forall|w: u32| h.has(w) implies h.sound_at(w) by {
        assert(g.sound_at(w));
        assert(h.edges(w) == g.edges(w));
        assert forall|i: int| 0 <= i < h.edges(w).len() implies h.has(
            #[trigger] h.edges(w)[i].1,
        ) by {
            assert(g.has(g.edges(w)[i].1));
        }
    }
}

/// An edge between two vertices that exist, which no rule forbids, keeps a
/// sound graph sound.
pub proof fn lemma_bind_sound(g: Graph, v1: u32, v2: u32, a: Seq<char>)
    requires
        g.sound(),
        g.has(v1),
        g.has(v2),
        !g.forbids(v1, v2, a),
    ensures
        g.bind(v1, v2, a).sound(),
{
    let h = g.bind(v1, v2, a);
    crate::store::lemma_rebound(g.edges(v1), a, v2);
    assert forall|w: u32| h.has(w) implies h.sound_at(w) by {
        assert(g.sound_at(w));
        if w == v1 {
            assert(h.edges(w) == crate::store::rebound(g.edges(v1), a, v2));
            assert forall|i: int| 0 <= i < h.edges(w).len() implies {
                &&& h.has(#[trigger] h.edges(w)[i].1)
                &&& !(h.edges(w)[i].1 == 0 && leads_back(h.edges(w)[i].0))
            } by {
                let e = h.edges(w)[i];
                if e != (a, v2) {
                    let j = choose|j: int| 0 <= j < g.edges(v1).len() && g.edges(v1)[j] == e;
                    assert(g.has(g.edges(v1)[j].1));
                }
            }
            lemma_labels_differ();
        } else {
            assert(h.edges(w) == g.edges(w));
            assert forall|i: int| 0 <= i < h.edges(w).len() implies h.has(
                #[trigger] h.edges(w)[i].1,
            ) by {
                assert(g.has(g.edges(w)[i].1));
            }
        }
    }
}

/// The labels with a fixed meaning differ from one another.
pub proof fn lemma_labels_differ()
    ensures
        pi() != phi(),
        lambda() != delta(),
{
    assert(pi()[0] != phi()[0]);
    assert(lambda()[0] != delta()[0]);
}


/// Once pulling up has failed, it stays failed, with the same graph.
pub proof fn lemma_pull_fails(g: Graph, nv: u32, kids: Edges, n: nat, m: nat)
    requires
        n <= m,
        g.pull_upto(nv, kids, n) is Failed,
    ensures
        g.pull_upto(nv, kids, m) == g.pull_upto(nv, kids, n),
    decreases m,
{
    if n < m {
        lemma_pull_fails(g, nv, kids, n, (m - 1) as nat);
    }
}

/// Once pushing down has failed, it stays failed, with the same graph.
pub proof fn lemma_push_fails(g: Graph, nv: u32, kids: Edges, n: nat, m: nat)
    requires
        n <= m,
        g.push_upto(nv, kids, n) is Failed,
    ensures
        g.push_upto(nv, kids, m) == g.push_upto(nv, kids, n),
    decreases m,
{
    if n < m {
        lemma_push_fails(g, nv, kids, n, (m - 1) as nat);
    }
}


/// A dot at the end of a locator adds no step.
pub proof fn lemma_tokens_dot(s: Seq<char>, j: int)
    requires
        0 <= j < s.len(),
        s[j] == '.',
    ensures
        tokens(s.subrange(0, j + 1)) == tokens(s.subrange(0, j)),
{
    let p = s.subrange(0, j + 1);
    assert(p.last() == '.');
    assert(last_dot(p) == j);
    assert(p.subrange(j + 1, p.len() as int) =~= Seq::<char>::empty());
    assert(p.subrange(0, j) =~= s.subrange(0, j));
}

/// What stands between two dots, or before the first one, is one more step.
pub proof fn lemma_tokens_extend(s: Seq<char>, i: int, j: int)
    requires
        0 <= i < j <= s.len(),
        i == 0 || s[i - 1] == '.',
        forall|x: int| i <= x < j ==> s[x] != '.',
    ensures
        tokens(s.subrange(0, j)) == tokens(s.subrange(0, i)).push(s.subrange(i, j)),
{
    let p = s.subrange(0, j);
    lemma_last_dot_bounds(p);
    let d = last_dot(p);
    if d >= i {
        assert(p[d] == s[d]);
    }
    if i > 0 && d < i - 1 {
        assert(p[i - 1] == '.');
    }
    assert(d == i - 1);
    assert(p.subrange(i, p.len() as int) =~= s.subrange(i, j));
    if i > 0 {
        assert(p.subrange(0, i - 1) =~= s.subrange(0, i - 1));
        lemma_tokens_dot(s, i - 1);
    } else {
        assert(s.subrange(0, 0) =~= Seq::<char>::empty());
    }
}

/// A walk of one more step is the walk before it, and then that step.
pub proof fn lemma_walk_push(
    atoms: Set<Seq<char>>,
    start: Outcome,
    steps: Seq<Seq<char>>,
    k: Seq<char>,
    depth: nat,
)
    ensures
        walk(atoms, start, steps.push(k), depth) == match walk(atoms, start, steps, depth) {
            Outcome::Done(g, v) => g.step(atoms, v, k, depth),
            other => other,
        },
{
    assert(steps.push(k).drop_last() =~= steps);
}

/// A walk that has failed, or has reached an atom, stays where it is
/// whatever steps follow.
pub proof fn lemma_walk_more(
    atoms: Set<Seq<char>>,
    start: Outcome,
    steps: Seq<Seq<char>>,
    n: int,
    depth: nat,
)
    requires
        0 <= n <= steps.len(),
        !(walk(atoms, start, steps.subrange(0, n), depth) is Done),
    ensures
        walk(atoms, start, steps, depth) == walk(atoms, start, steps.subrange(0, n), depth),
    decreases steps.len(),
{
    if n == steps.len() {
        assert(steps.subrange(0, n) =~= steps);
    } else {
        assert(steps.drop_last().subrange(0, n) =~= steps.subrange(0, n));
        lemma_walk_more(atoms, start, steps.drop_last(), n, depth);
    }
}

} // verus!
