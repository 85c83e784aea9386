//! The universe: a graph, the atoms registered by name, and the depth that
//! dispatch has reached. This file holds the operations on the graph.

use crate::data::Data;
use crate::failure::{Failure, Fault};
use crate::rules::{
    lemma_add_sound, lemma_bind_sound, lemma_put_sound, lemma_top_unique, Effect, Outcome,
    Reading, MAX_DEPTH,
};
use crate::store::{
    edges_of, model, sodg_add, sodg_alerts, sodg_alerts_off, sodg_bind, sodg_data, sodg_empty,
    sodg_ids, sodg_is_empty, sodg_kid, sodg_kids, sodg_put, sodg_slice, sodg_sliced, Graph,
};
use crate::text::same;
use sodg::Sodg;
use vstd::prelude::*;
use vstd::string::StringExecFns;

mod check;
mod dispatch;
pub mod locate;
mod resolve;

verus! {

/// A native function that the engine calls where a vertex names it by `λ`.
/// It gets the universe and the vertex that dispatch stands at, and gives
/// the vertex that stands for its result.
pub trait Atom: Sized {
    /// Runs the atom. It may read and change the universe by the operations
    /// of the universe, all of which keep a sound graph sound.
    fn call(&self, uni: &mut Universe<Self>, v: u32) -> (r: Result<u32, Failure>)
        requires
            old(uni).inv(),
        ensures
            final(uni).inv(),
            old(uni)@.sound() ==> final(uni)@.sound(),
    ;
}

/// An atom that does nothing but fail.
#[derive(Clone, Copy, Debug)]
pub struct NotImplementedYet;

impl Atom for NotImplementedYet {
    fn call(&self, uni: &mut Universe<Self>, v: u32) -> (r: Result<u32, Failure>)
        ensures
            *final(uni) == *old(uni),
            r matches Err(e) && e@ == Fault::Custom("Not implemented yet"@),
    {
        Err(Failure::Custom(String::from_str("Not implemented yet")))
    }
}

/// The first atom under a name in a list of names and atoms.
pub open spec fn first_atom<A>(atoms: Seq<(String, A)>, name: Seq<char>) -> Option<A>
    decreases atoms.len(),
{
    if atoms.len() == 0 {
        None
    } else if atoms[0].0@ == name {
        Some(atoms[0].1)
    } else {
        first_atom(atoms.drop_first(), name)
    }
}

/// Where no entry of a list has a name, the list has no atom under it.
pub proof fn lemma_first_atom_none<A>(atoms: Seq<(String, A)>, name: Seq<char>)
    requires
        forall|j: int| 0 <= j < atoms.len() ==> (#[trigger] atoms[j]).0@ != name,
    ensures
        first_atom(atoms, name) is None,
    decreases atoms.len(),
{
    if atoms.len() > 0 {
        assert forall|j: int| 0 <= j < atoms.drop_first().len() implies (
        #[trigger] atoms.drop_first()[j]).0@ != name by {
            assert(atoms.drop_first()[j] == atoms[j + 1]);
        }
        lemma_first_atom_none(atoms.drop_first(), name);
    }
}

/// An atom under a name at the end of a list is the first under that name
/// where the list had none.
pub proof fn lemma_first_atom_push<A>(atoms: Seq<(String, A)>, entry: (String, A), name: Seq<char>)
    ensures
        first_atom(atoms.push(entry), name) == if first_atom(atoms, name) is Some {
            first_atom(atoms, name)
        } else if entry.0@ == name {
            Some(entry.1)
        } else {
            None
        },
    decreases atoms.len(),
{
    if atoms.len() > 0 {
        lemma_first_atom_push(atoms.drop_first(), entry, name);
        assert(atoms.push(entry).drop_first() =~= atoms.drop_first().push(entry));
    } else {
        assert(atoms.push(entry).drop_first() =~= atoms);
    }
}

/// The first atom under a name where the entry at a place is replaced,
/// before which no entry has the name of the new one.
pub proof fn lemma_first_atom_update<A>(
    atoms: Seq<(String, A)>,
    i: int,
    entry: (String, A),
    name: Seq<char>,
)
    requires
        0 <= i < atoms.len(),
        atoms[i].0@ == entry.0@,
        forall|j: int| 0 <= j < i ==> (#[trigger] atoms[j]).0@ != entry.0@,
    ensures
        first_atom(atoms.update(i, entry), name) == if name == entry.0@ {
            Some(entry.1)
        } else {
            first_atom(atoms, name)
        },
    decreases atoms.len(),
{
    let after = atoms.update(i, entry);
    if i == 0 {
        assert(after.drop_first() =~= atoms.drop_first());
    } else {
        assert(after.drop_first() =~= atoms.drop_first().update(i - 1, entry));
        assert forall|j: int| 0 <= j < i - 1 implies (#[trigger] atoms.drop_first()[j]).0@
            != entry.0@ by {
            assert(atoms.drop_first()[j] == atoms[j + 1]);
        }
        lemma_first_atom_update(atoms.drop_first(), i - 1, entry, name);
        assert(atoms[0].0@ != entry.0@);
    }
}

/// A graph with the atoms that its vertices may name.
pub struct Universe<A> {
    /// The graph.
    g: Sodg,
    /// The atoms, each under its name; no name twice.
    atoms: Vec<(String, A)>,
    /// How deep dispatch stands.
    depth: usize,
}

impl<A> View for Universe<A> {
    type V = Graph;

    closed spec fn view(&self) -> Graph {
        model(self.g)
    }
}

impl<A> Universe<A> {
    /// What every universe keeps: the alerts of its graph are off, so that
    /// the graph does what it is told, and the depth is within the bound.
    pub closed spec fn inv(&self) -> bool {
        &&& !sodg_alerts(self.g)
        &&& self.depth <= MAX_DEPTH
    }

    /// How deep dispatch stands.
    pub closed spec fn depth(&self) -> nat {
        self.depth as nat
    }

    /// The atom that is registered under a name, if there is one.
    pub closed spec fn atom_of(&self, name: Seq<char>) -> Option<A> {
        first_atom(self.atoms@, name)
    }

    /// The names under which atoms are registered.
    pub closed spec fn names(&self) -> Set<Seq<char>> {
        Set::new(|n: Seq<char>| first_atom(self.atoms@, n) is Some)
    }

    /// A name is registered exactly where an atom is registered under it.
    pub proof fn lemma_names(&self, name: Seq<char>)
        ensures
            self.names().contains(name) == (self.atom_of(name) is Some),
    {
    }

    /// A universe without vertices and without atoms.
    pub fn empty() -> (r: Self)
        ensures
            r.inv(),
            r@ == Graph::empty(),
            r@.bounded(),
            r@.top() == 0,
            r.names() == Set::<Seq<char>>::empty(),
            r.depth() == 0,
    {
        let r = Universe { g: sodg_empty(), atoms: Vec::new(), depth: 0 };
        assert(r.names() =~= Set::<Seq<char>>::empty());
        proof {
            assert(r@.top_is(0));
            lemma_top_unique(r@, 0, 0);
        }
        r
    }

    /// A universe of the vertices, edges and data of a graph, without atoms.
    /// The alerts of the graph are switched off: the universe itself refuses
    /// what would break a rule.
    pub fn from_graph(g: Sodg) -> (r: Self)
        ensures
            r.inv(),
            r@ == model(g),
            r.names() == Set::<Seq<char>>::empty(),
            r.depth() == 0,
    {
        let mut g = g;
        sodg_alerts_off(&mut g);
        let r = Universe { g, atoms: Vec::new(), depth: 0 };
        assert(r.names() =~= Set::<Seq<char>>::empty());
        r
    }

    /// The graph of the universe.
    pub fn graph(&self) -> (g: &Sodg)
        ensures
            model(*g) == self@,
    {
        &self.g
    }

    /// The part of the graph that can be reached from the vertex that a
    /// locator of numbers and labels leads to: its vertices, each with the
    /// edges that arrive at a vertex of the part, and with its datum. An
    /// edge is followed unless its label begins with `ρ` or `σ`.
    pub fn slice(&self, loc: &str) -> (r: Result<Sodg, Failure>)
        ensures
            match r {
                Ok(part) => sodg_sliced(self@.vertices, loc@) == Some(model(part).vertices),
                Err(e) => sodg_sliced(self@.vertices, loc@) is None && e@ == Fault::BadLocator(
                    loc@,
                ),
            },
    {
        match sodg_slice(&self.g, loc) {
            Some(part) => Ok(part),
            None => Err(Failure::BadLocator(String::from_str(loc))),
        }
    }

    /// How deep dispatch stands.
    pub fn level(&self) -> (d: usize)
        ensures
            d == self.depth(),
    {
        self.depth
    }

    /// Registers an atom under a name; an atom that had the name is replaced.
    pub fn register(&mut self, name: &str, a: A)
        ensures
            final(self).atom_of(name@) == Some(a),
            forall|n: Seq<char>| n != name@ ==> final(self).atom_of(n) == old(self).atom_of(n),
            final(self).names() == old(self).names().insert(name@),
            final(self)@ == old(self)@,
            final(self).depth() == old(self).depth(),
            old(self).inv() ==> final(self).inv(),
    {
        let ghost before = self.atoms@;
        let mut i: usize = 0;
        let mut found: Option<usize> = None;
        while i < self.atoms.len()
            invariant_except_break
                found is None,
                forall|j: int| 0 <= j < i ==> (#[trigger] before[j]).0@ != name@,
            invariant
                i <= self.atoms.len(),
                *self == *old(self),
                before == self.atoms@,
            ensures
                *self == *old(self),
                before == self.atoms@,
                match found {
                    Some(k) => k < before.len() && before[k as int].0@ == name@ && forall|j: int|
                        0 <= j < k ==> (#[trigger] before[j]).0@ != name@,
                    None => forall|j: int|
                        0 <= j < before.len() ==> (#[trigger] before[j]).0@ != name@,
                },
            decreases self.atoms.len() - i,
        {
            if same(self.atoms[i].0.as_str(), name) {
                found = Some(i);
                break ;
            }
            i = i + 1;
        }
        let entry = (String::from_str(name), a);
        match found {
            Some(k) => {
                self.atoms[k] = entry;
                assert(self.atoms@ =~= before.update(k as int, entry));
            },
            None => {
                self.atoms.push(entry);
            },
        }
        proof {
            assert forall|n: Seq<char>| true implies #[trigger] self.atom_of(n) == if n == name@ {
                Some(a)
            } else {
                old(self).atom_of(n)
            } by {
                match found {
                    Some(k) => {
                        lemma_first_atom_update(before, k as int, entry, n);
                    },
                    None => {
                        lemma_first_atom_push(before, entry, n);
                        lemma_first_atom_none(before, name@);
                    },
                }
            }
            assert forall|n: Seq<char>|
                self.names().contains(n) == old(self).names().insert(name@).contains(n) by {
                assert(self.atom_of(n) == if n == name@ {
                    Some(a)
                } else {
                    old(self).atom_of(n)
                });
            }
            assert(self.names() =~= old(self).names().insert(name@));
        }
    }

    /// Whether the graph has no vertex.
    pub fn is_empty(&self) -> (r: bool)
        ensures
            r == self@.is_empty(),
    {
        sodg_is_empty(&self.g)
    }

    /// The vertices of the graph, each once, in no stated order.
    pub fn ids(&self) -> (r: Vec<u32>)
        ensures
            r@.no_duplicates(),
            forall|v: u32| r@.contains(v) <==> self@.has(v),
    {
        sodg_ids(&self.g)
    }

    /// How many vertices the graph has.
    pub fn len(&self) -> (r: usize)
        ensures
            self@.vertices.dom().finite(),
            r == self@.vertices.dom().len(),
    {
        let ids = sodg_ids(&self.g);
        proof {
            ids@.unique_seq_to_set();
            assert(ids@.to_set() =~= self@.vertices.dom());
        }
        ids.len()
    }

    /// Whether the vertex exists.
    pub fn has(&self, v: u32) -> (r: bool)
        ensures
            r == self@.has(v),
    {
        sodg_kids(&self.g, v).is_some()
    }

    /// The vertex that the edge labelled `a` leads to from `v`, if there is one.
    pub fn kid(&self, v: u32, a: &str) -> (r: Option<u32>)
        ensures
            r == self@.kid(v, a@),
    {
        sodg_kid(&self.g, v, a)
    }

    /// The vertex that the edge labelled `k` leads to from `v`, if there is one.
    pub fn edge(&self, v: u32, k: &str) -> (r: Option<u32>)
        ensures
            r == self@.kid(v, k@),
    {
        sodg_kid(&self.g, v, k)
    }

    /// The edges that leave a vertex, in the order in which they were bound.
    pub fn kids(&self, v: u32) -> (r: Result<Vec<(String, u32)>, Failure>)
        ensures
            match r {
                Ok(kids) => self@.has(v) && edges_of(kids@) == self@.edges(v),
                Err(e) => !self@.has(v) && e@ == Fault::MissingVertex(v),
            },
    {
        match sodg_kids(&self.g, v) {
            Some(kids) => Ok(kids),
            None => Err(Failure::MissingVertex(v)),
        }
    }

    /// The least number above every vertex.
    pub fn top(&self) -> (t: u64)
        ensures
            t == self@.top(),
            self@.top_is(t as nat),
            self@.bounded(),
    {
        let ids = sodg_ids(&self.g);
        let mut t: u64 = 0;
        let mut i: usize = 0;
        while i < ids.len()
            invariant
                i <= ids.len(),
                t <= u32::MAX + 1,
                forall|j: int| 0 <= j < i ==> (#[trigger] ids@[j]) < t,
                t == 0 || exists|j: int| 0 <= j < i && #[trigger] ids@[j] == t - 1,
            decreases ids.len() - i,
        {
            if ids[i] as u64 + 1 > t {
                t = ids[i] as u64 + 1;
            }
            i = i + 1;
        }
        proof {
            assert forall|v: u32| self@.has(v) implies (v as nat) < t by {
                assert(ids@.contains(v));
                let j = choose|j: int| 0 <= j < ids@.len() && ids@[j] == v;
                assert(ids@[j] < t);
            }
            if t != 0 {
                let j = choose|j: int| 0 <= j < i && #[trigger] ids@[j] == t - 1;
                assert(ids@.contains(ids@[j]));
            }
            assert(self@.top_is(t as nat));
            lemma_top_unique(self@, t as nat, t as nat);
        }
        t
    }

    /// Adds a vertex under the least number above every vertex, where that
    /// number is one that a vertex can have.
    pub fn try_add(&mut self) -> (r: Result<u32, Failure>)
        requires
            old(self).inv(),
        ensures
            final(self).inv(),
            final(self).names() == old(self).names(),
            final(self).depth() == old(self).depth(),
            old(self)@.sound() ==> final(self)@.sound(),
            final(self)@.bounded(),
            match r {
                Ok(v) => old(self)@.top() == v && final(self)@ == old(self)@.add(v)
                    && final(self)@.top() == v + 1,
                Err(e) => old(self)@.top() > u32::MAX && e@ == Fault::OutOfIds && final(self)@
                    == old(self)@,
            },
    {
        let t = self.top();
        if t > 0xffff_ffff {
            return Err(Failure::OutOfIds);
        }
        let v = t as u32;
        proof {
            if self@.sound() {
                lemma_add_sound(self@, v);
            }
            crate::laws::lemma_add_top(self@);
        }
        let _ = sodg_add(&mut self.g, v);
        Ok(v)
    }

    /// Adds a vertex and gives its number, which is the least above every
    /// vertex there was.
    pub fn add(&mut self) -> (v: u32)
        requires
            old(self).inv(),
            old(self)@.top() <= u32::MAX,
        ensures
            final(self).inv(),
            final(self).names() == old(self).names(),
            final(self).depth() == old(self).depth(),
            old(self)@.sound() ==> final(self)@.sound(),
            v == old(self)@.top(),
            final(self)@ == old(self)@.add(v),
            final(self)@.bounded(),
            final(self)@.top() == v + 1,
    {
        match self.try_add() {
            Ok(v) => v,
            Err(_) => 0,
        }
    }

    /// Adds a vertex under a given number, which no vertex may have yet.
    pub fn add_at(&mut self, v: u32) -> (r: Result<(), Failure>)
        requires
            old(self).inv(),
        ensures
            final(self).inv(),
            final(self).names() == old(self).names(),
            final(self).depth() == old(self).depth(),
            old(self)@.sound() ==> final(self)@.sound(),
            old(self)@.bounded() ==> final(self)@.bounded(),
            r is Ok && old(self)@.bounded() ==> final(self)@.top() == if old(self)@.top() > v {
                old(self)@.top()
            } else {
                (v + 1) as nat
            },
            match r {
                Ok(_) => !old(self)@.has(v) && final(self)@ == old(self)@.add(v),
                Err(e) => old(self)@.has(v) && e@ == Fault::DuplicateVertex(v) && final(self)@
                    == old(self)@,
            },
    {
        proof {
            if self@.bounded() {
                crate::laws::lemma_add_at_top(self@, v);
            }
        }
        if self.has(v) {
            return Err(Failure::DuplicateVertex(v));
        }
        proof {
            if self@.sound() {
                lemma_add_sound(self@, v);
            }
        }
        let _ = sodg_add(&mut self.g, v);
        Ok(())
    }

    /// Whether an edge labelled `a` from `v1` to `v2` would break a rule.
    pub fn forbids(&self, v1: u32, v2: u32, a: &str) -> (r: bool)
        ensures
            r == self@.forbids(v1, v2, a@),
    {
        (same(a, crate::labels::pi_str()) && self.kid(v1, crate::labels::phi_str()).is_some())
            || (same(a, crate::labels::phi_str()) && self.kid(v1, crate::labels::pi_str()).is_some())
            || (same(a, crate::labels::lambda_str()) && self.kid(
            v1,
            crate::labels::delta_str(),
        ).is_some()) || (same(a, crate::labels::delta_str()) && self.kid(
            v1,
            crate::labels::lambda_str(),
        ).is_some()) || (v2 == 0 && (same(a, crate::labels::rho_str()) || same(
            a,
            crate::labels::sigma_str(),
        ) || same(a, crate::labels::psi_str())))
    }

    /// Binds an edge that may replace one with the same label.
    pub fn link(&mut self, v1: u32, v2: u32, a: &str) -> (r: Result<(), Failure>)
        requires
            old(self).inv(),
        ensures
            final(self).inv(),
            final(self).names() == old(self).names(),
            final(self).depth() == old(self).depth(),
            old(self)@.sound() ==> final(self)@.sound(),
            old(self)@.bounded() ==> final(self)@.bounded(),
            old(self)@.bounded() ==> final(self)@.top() == old(self)@.top(),
            match r {
                Ok(_) => old(self)@.link(v1, v2, a@) == Effect::Done(final(self)@),
                Err(e) => old(self)@.link(v1, v2, a@) == Effect::Failed(final(self)@, e@),
            },
    {
        proof {
            crate::laws::lemma_link_frame(self@, v1, v2, a@, if v1 == 0 {
                1u32
            } else {
                0u32
            });
        }
        if !self.has(v1) {
            return Err(Failure::MissingVertex(v1));
        }
        if !self.has(v2) {
            return Err(Failure::MissingVertex(v2));
        }
        if self.forbids(v1, v2, a) {
            return Err(Failure::InvariantViolation(v1, String::from_str(a)));
        }
        proof {
            if self@.sound() {
                lemma_bind_sound(self@, v1, v2, a@);
            }
        }
        let _ = sodg_bind(&mut self.g, v1, v2, a);
        Ok(())
    }

    /// Binds a new edge labelled `a` from `v1` to `v2`. Both vertices have
    /// to exist, `v1` may have no edge with that label yet, and the edge may
    /// break no rule. Where it fails, the graph stays as it is.
    pub fn bind(&mut self, v1: u32, v2: u32, a: &str) -> (r: Result<(), Failure>)
        requires
            old(self).inv(),
        ensures
            final(self).inv(),
            final(self).names() == old(self).names(),
            final(self).depth() == old(self).depth(),
            old(self)@.sound() ==> final(self)@.sound(),
            old(self)@.bounded() ==> final(self)@.bounded(),
            old(self)@.bounded() ==> final(self)@.top() == old(self)@.top(),
            match r {
                Ok(_) => old(self)@.attach(v1, v2, a@) == Effect::Done(final(self)@),
                Err(e) => old(self)@.attach(v1, v2, a@) == Effect::Failed(final(self)@, e@)
                    && final(self)@ == old(self)@,
            },
    {
        if self.has(v1) && self.has(v2) && self.kid(v1, a).is_some() {
            return Err(Failure::DuplicateEdge(v1, String::from_str(a)));
        }
        self.link(v1, v2, a)
    }

    /// Sets the datum of a vertex, in place of the one it had.
    pub fn put(&mut self, v: u32, d: &Data) -> (r: Result<(), Failure>)
        requires
            old(self).inv(),
        ensures
            final(self).inv(),
            final(self).names() == old(self).names(),
            final(self).depth() == old(self).depth(),
            old(self)@.sound() ==> final(self)@.sound(),
            old(self)@.bounded() ==> final(self)@.bounded(),
            old(self)@.bounded() ==> final(self)@.top() == old(self)@.top(),
            match r {
                Ok(_) => old(self)@.has(v) && final(self)@ == old(self)@.put(v, d@),
                Err(e) => !old(self)@.has(v) && e@ == Fault::MissingVertex(v) && final(self)@
                    == old(self)@,
            },
    {
        proof {
            if self@.sound() {
                lemma_put_sound(self@, v, d@);
            }
            if self@.bounded() {
                crate::laws::lemma_put_top(self@, v, d@);
            }
        }
        let bytes = d.as_bytes();
        if sodg_put(&mut self.g, v, &bytes) {
            Ok(())
        } else {
            Err(Failure::MissingVertex(v))
        }
    }

    /// Makes a vertex name an atom: binds `λ` from it to a new vertex that
    /// carries the name.
    pub fn atom(&mut self, v: u32, name: &str) -> (r: Result<(), Failure>)
        requires
            old(self).inv(),
        ensures
            final(self).obeys(old(self), old(self)@.name_atom(v, name@), r),
    {
        let l = match self.try_add() {
            Ok(l) => l,
            Err(e) => {
                return Err(e);
            },
        };
        match self.put(l, &Data::from_str(name)) {
            Ok(_) => {},
            Err(e) => {
                return Err(e);
            },
        }
        self.bind(v, l, crate::labels::lambda_str())
    }

    /// The datum of a vertex, which has to exist and to carry one.
    pub fn data(&mut self, v: u32) -> (r: Result<Data, Failure>)
        ensures
            final(self)@ == old(self)@,
            final(self).names() == old(self).names(),
            final(self).depth() == old(self).depth(),
            old(self).inv() ==> final(self).inv(),
            match r {
                Ok(d) => old(self)@.read(v) == Reading::Bytes(old(self)@, d@),
                Err(e) => old(self)@.read(v) == Reading::Failed(old(self)@, e@),
            },
    {
        match sodg_data(&mut self.g, v) {
            Some(bytes) => {
                if bytes.len() == 0 {
                    Err(Failure::MissingDatum(v))
                } else {
                    Ok(Data::from_bytes(bytes))
                }
            },
            None => Err(Failure::MissingVertex(v)),
        }
    }
}

impl<A> Universe<A> {
    /// Whether this universe, with the result `r`, is what a step that only
    /// changes the graph makes of the universe `before`, given what the
    /// rules say the step comes to.
    pub open spec fn obeys(&self, before: &Self, e: Effect, r: Result<(), Failure>) -> bool {
        &&& self.inv()
        &&& self.names() == before.names()
        &&& self.depth() == before.depth()
        &&& before@.sound() ==> self@.sound()
        &&& before@.bounded() ==> self@.bounded()
        &&& match e {
            Effect::Done(g) => r is Ok && self@ == g,
            Effect::Failed(g, f) => (r matches Err(e) && e@ == f) && self@ == g,
        }
    }

    /// Whether this universe, with the result `r`, is what a step that
    /// looks for a vertex makes of the universe `before`, given what the
    /// rules say the step comes to. Where an atom decides, only the rules of
    /// the graph are known to hold.
    pub open spec fn follows(&self, before: &Self, o: Outcome, r: Result<u32, Failure>) -> bool {
        &&& self.inv()
        &&& before@.sound() ==> self@.sound()
        &&& r is Ok ==> self.depth() == before.depth()
        &&& match o {
            Outcome::Done(g, v) => (r matches Ok(x) && x == v) && self@ == g && self.names()
                == before.names(),
            Outcome::Failed(g, f) => (r matches Err(e) && e@ == f) && self@ == g && self.names()
                == before.names(),
            Outcome::Native(_, _, _) => true,
        }
    }

    /// Whether this universe, with the result `r`, is what reading a datum
    /// makes of the universe `before`, given what the rules say the reading
    /// comes to. Where an atom decides, only the rules of the graph are
    /// known to hold.
    pub open spec fn yields(&self, before: &Self, rd: Reading, r: Result<Data, Failure>) -> bool {
        &&& self.inv()
        &&& before@.sound() ==> self@.sound()
        &&& self.depth() == before.depth()
        &&& match rd {
            Reading::Bytes(g, bytes) => (r matches Ok(d) && d@ == bytes) && self@ == g
                && self.names() == before.names(),
            Reading::Failed(g, f) => (r matches Err(e) && e@ == f) && self@ == g && self.names()
                == before.names(),
            Reading::Native(_, _, _) => true,
        }
    }

    /// One level deeper, where the bound allows it.
    pub(crate) fn enter(&mut self) -> (r: Result<(), Failure>)
        requires
            old(self).inv(),
        ensures
            final(self).inv(),
            final(self)@ == old(self)@,
            final(self).names() == old(self).names(),
            match r {
                Ok(_) => old(self).depth() < MAX_DEPTH && final(self).depth() == old(self).depth()
                    + 1,
                Err(e) => old(self).depth() >= MAX_DEPTH && e@ == Fault::RecursionTooDeep
                    && final(self).depth() == old(self).depth(),
            },
    {
        if self.depth >= MAX_DEPTH {
            Err(Failure::RecursionTooDeep)
        } else {
            self.depth = self.depth + 1;
            Ok(())
        }
    }

    /// One level back.
    pub(crate) fn leave(&mut self)
        requires
            old(self).inv(),
            old(self).depth() > 0,
        ensures
            final(self).inv(),
            final(self)@ == old(self)@,
            final(self).names() == old(self).names(),
            final(self).depth() == old(self).depth() - 1,
    {
        self.depth = self.depth - 1;
    }

    /// Sets the level that dispatch stands at.
    pub(crate) fn settle(&mut self, depth: usize)
        requires
            old(self).inv(),
            depth <= MAX_DEPTH,
        ensures
            final(self).inv(),
            final(self)@ == old(self)@,
            final(self).names() == old(self).names(),
            final(self).depth() == depth,
    {
        self.depth = depth;
    }
}

impl<A: Copy> Universe<A> {
    /// The atom registered under a name, if there is one.
    pub fn registered(&self, name: &str) -> (r: Option<A>)
        ensures
            r == self.atom_of(name@),
    {
        let ghost all = self.atoms@;
        let mut i: usize = 0;
        assert(all.subrange(0, all.len() as int) =~= all);
        while i < self.atoms.len()
            invariant
                i <= self.atoms.len(),
                all == self.atoms@,
                first_atom(all, name@) == first_atom(all.subrange(i as int, all.len() as int), name@),
            decreases self.atoms.len() - i,
        {
            let ghost rest = all.subrange(i as int, all.len() as int);
            assert(rest[0] == all[i as int]);
            if same(self.atoms[i].0.as_str(), name) {
                return Some(self.atoms[i].1);
            }
            assert(rest.drop_first() =~= all.subrange(i + 1, all.len() as int));
            i = i + 1;
        }
        None
    }
}

} // verus!
