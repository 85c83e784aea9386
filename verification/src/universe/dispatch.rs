//! The steps of dispatch: how an attribute of a vertex is resolved, and how
//! a copy of an object is made when it is first looked into.

use crate::failure::{Failure, Fault};
use crate::labels::{
    beta_str, delta_str, lambda_str, pi_str, psi_str, rho_str, sigma_str,
};
use crate::rules::{ascii_labels, Effect};
use crate::store::{edges_of, Edges};
use crate::text::{chars_of, parse_u32, same};
use crate::universe::Universe;
use vstd::prelude::*;
use vstd::string::StringExecFns;
use vstd::string::StringExecFnsIsAscii;

verus! {

impl<A> Universe<A> {
    /// Whether the vertex is a nil: its one edge is `ρ`.
    pub fn nil(&self, v: u32) -> (r: Result<bool, Failure>)
        ensures
            match r {
                Ok(b) => self@.has(v) && b == self@.nil(v),
                Err(e) => !self@.has(v) && e@ == Fault::MissingVertex(v),
            },
    {
        let kids = self.kids(v)?;
        assert(edges_of(kids@).len() == kids@.len());
        if kids.len() == 1 {
            assert(edges_of(kids@)[0] == (kids@[0].0@, kids@[0].1));
            Ok(same(kids[0].0.as_str(), rho_str()))
        } else {
            Ok(false)
        }
    }

    /// The label of the slot of `v` that an edge labelled `a` may fill, where
    /// `v` has that slot and a nil is in it.
    pub fn tie_slot(&self, v: u32, a: &str) -> (r: Result<String, Failure>)
        ensures
            match r {
                Ok(s) => self@.tie_slot(v, a@) == Ok::<Seq<char>, Fault>(s@),
                Err(e) => self@.tie_slot(v, a@) == Err::<Seq<char>, Fault>(e@),
            },
    {
        match self.kid(v, a) {
            Some(k) => match self.nil(k) {
                Ok(true) => Ok(String::from_str(a)),
                Ok(false) => Err(Failure::CannotTie(v, String::from_str(a))),
                Err(e) => Err(e),
            },
            None => Err(Failure::CannotTie(v, String::from_str(a))),
        }
    }

    /// The ASCII label of the given rank among the edges of `v`, counted
    /// from zero in the order of binding.
    pub fn slot(&self, v: u32, rank: u32) -> (r: Result<Option<String>, Failure>)
        ensures
            match r {
                Ok(Some(s)) => self@.has(v) && rank < ascii_labels(self@.edges(v)).len() && s@
                    == ascii_labels(self@.edges(v))[rank as int],
                Ok(None) => self@.has(v) && rank >= ascii_labels(self@.edges(v)).len(),
                Err(e) => !self@.has(v) && e@ == Fault::MissingVertex(v),
            },
    {
        let kids = self.kids(v)?;
        let ghost edges: Edges = self@.edges(v);
        let mut found: Option<usize> = None;
        let mut count: u64 = 0;
        let mut i: usize = 0;
        while i < kids.len()
            invariant
                i <= kids.len(),
                edges == edges_of(kids@),
                count == ascii_labels(edges.subrange(0, i as int)).len(),
                count <= i,
                match found {
                    Some(j) => j < i && count > rank && kids@[j as int].0@ == ascii_labels(
                        edges.subrange(0, i as int),
                    )[rank as int],
                    None => count <= rank,
                },
            decreases kids.len() - i,
        {
            proof {
                let upto = edges.subrange(0, i + 1);
                let labels = upto.map_values(|e: (Seq<char>, u32)| e.0);
                assert(labels.drop_last() =~= edges.subrange(0, i as int).map_values(
                    |e: (Seq<char>, u32)| e.0,
                ));
                assert(labels.last() == kids@[i as int].0@);
                reveal(Seq::filter);
            }
            if kids[i].0.is_ascii() {
                if count == rank as u64 {
                    found = Some(i);
                }
                count = count + 1;
            }
            i = i + 1;
        }
        assert(edges.subrange(0, kids.len() as int) =~= edges);
        match found {
            Some(j) => Ok(Some(kids[j].0.clone())),
            None => Ok(None),
        }
    }

    /// The label under which an edge labelled `a` is bound to `v` when it is
    /// pushed down from a copy.
    pub fn tie(&self, v: u32, a: &str) -> (r: Result<String, Failure>)
        ensures
            match r {
                Ok(s) => self@.tie(v, a@) == Ok::<Seq<char>, Fault>(s@),
                Err(e) => self@.tie(v, a@) == Err::<Seq<char>, Fault>(e@),
            },
    {
        if same(a, rho_str()) || same(a, sigma_str()) {
            return Ok(String::from_str(a));
        }
        let kid = self.kid(v, a);
        if same(a, delta_str()) && kid.is_none() {
            return Ok(String::from_str(a));
        }
        if let Some(k) = kid {
            match self.nil(k) {
                Ok(true) => {
                    return Ok(String::from_str(a));
                },
                Ok(false) => {},
                Err(e) => {
                    return Err(e);
                },
            }
        }
        let chars = chars_of(a);
        if chars.len() > 0 && chars[0] == 'α' {
            if !self.has(v) {
                return Err(Failure::MissingVertex(v));
            }
            match parse_u32(&chars, 1, chars.len()) {
                Some(rank) => match self.slot(v, rank) {
                    Ok(Some(label)) => self.tie_slot(v, label.as_str()),
                    Ok(None) => Err(Failure::CannotTie(v, String::from_str(a))),
                    Err(e) => Err(e),
                },
                None => Err(Failure::CannotTie(v, String::from_str(a))),
            }
        } else {
            Err(Failure::CannotTie(v, String::from_str(a)))
        }
    }

    /// Binds to `v1` what an edge labelled `a` to `v2` becomes when it is
    /// pushed down from a copy.
    pub fn down(&mut self, v1: u32, v2: u32, a: &str) -> (r: Result<(), Failure>)
        requires
            old(self).inv(),
        ensures
            final(self).obeys(old(self), old(self)@.down(v1, v2, a@), r),
    {
        match self.tie(v1, a) {
            Ok(label) => self.link(v1, v2, label.as_str()),
            Err(e) => Err(e),
        }
    }

    /// Binds to `v1` what an edge labelled `a` to `v2` becomes when it is
    /// pulled up from an exemplar.
    pub fn up(&mut self, v1: u32, v2: u32, a: &str) -> (r: Result<(), Failure>)
        requires
            old(self).inv(),
        ensures
            final(self).obeys(old(self), old(self)@.up(v1, v2, a@), r),
    {
        if same(a, lambda_str()) || same(a, delta_str()) || same(a, rho_str()) {
            return self.link(v1, v2, a);
        }
        match self.nil(v2) {
            Ok(true) => {
                return self.link(v1, v2, a);
            },
            Ok(false) => {},
            Err(e) => {
                return Err(e);
            },
        }
        let t = match self.try_add() {
            Ok(t) => t,
            Err(e) => {
                return Err(e);
            },
        };
        match self.link(v1, t, a) {
            Ok(_) => {},
            Err(e) => {
                return Err(e);
            },
        }
        match self.link(t, v1, rho_str()) {
            Ok(_) => {},
            Err(e) => {
                return Err(e);
            },
        }
        match self.link(t, v1, psi_str()) {
            Ok(_) => {},
            Err(e) => {
                return Err(e);
            },
        }
        self.link(t, v2, pi_str())
    }

    /// Pulls up to `nv` the edges of `v`, but `σ`, `β` and `π`.
    pub fn pull(&mut self, nv: u32, v: u32) -> (r: Result<(), Failure>)
        requires
            old(self).inv(),
        ensures
            final(self).obeys(old(self), old(self)@.pull(nv, v), r),
    {
        let kids = match self.kids(v) {
            Ok(kids) => kids,
            Err(e) => {
                return Err(e);
            },
        };
        let ghost edges: Edges = self@.edges(v);
        let mut i: usize = 0;
        while i < kids.len()
            invariant
                i <= kids.len(),
                edges == edges_of(kids@),
                edges == old(self)@.edges(v),
                old(self)@.has(v),
                self.inv(),
                self.names() == old(self).names(),
                self.depth() == old(self).depth(),
                old(self)@.sound() ==> self@.sound(),
                old(self)@.bounded() ==> self@.bounded(),
                old(self)@.pull_upto(nv, edges, i as nat) == Effect::Done(self@),
            decreases kids.len() - i,
        {
            let a = kids[i].0.as_str();
            let k = kids[i].1;
            assert(edges[i as int] == (a@, k));
            if !(same(a, sigma_str()) || same(a, beta_str()) || same(a, pi_str())) {
                match self.up(nv, k, a) {
                    Ok(_) => {},
                    Err(e) => {
                        proof {
                            crate::rules::lemma_pull_fails(
                                old(self)@,
                                nv,
                                edges,
                                (i + 1) as nat,
                                kids.len() as nat,
                            );
                        }
                        return Err(e);
                    },
                }
            }
            i = i + 1;
        }
        Ok(())
    }

    /// Pushes down to `nv` the edges of `v`, but `π` and `ψ`.
    pub fn push(&mut self, nv: u32, v: u32) -> (r: Result<(), Failure>)
        requires
            old(self).inv(),
        ensures
            final(self).obeys(old(self), old(self)@.push(nv, v), r),
    {
        let kids = match self.kids(v) {
            Ok(kids) => kids,
            Err(e) => {
                return Err(e);
            },
        };
        let ghost edges: Edges = self@.edges(v);
        let mut i: usize = 0;
        while i < kids.len()
            invariant
                i <= kids.len(),
                edges == edges_of(kids@),
                edges == old(self)@.edges(v),
                old(self)@.has(v),
                self.inv(),
                self.names() == old(self).names(),
                self.depth() == old(self).depth(),
                old(self)@.sound() ==> self@.sound(),
                old(self)@.bounded() ==> self@.bounded(),
                old(self)@.push_upto(nv, edges, i as nat) == Effect::Done(self@),
            decreases kids.len() - i,
        {
            let a = kids[i].0.as_str();
            let k = kids[i].1;
            assert(edges[i as int] == (a@, k));
            if !(same(a, pi_str()) || same(a, psi_str())) {
                match self.down(nv, k, a) {
                    Ok(_) => {},
                    Err(e) => {
                        proof {
                            crate::rules::lemma_push_fails(
                                old(self)@,
                                nv,
                                edges,
                                (i + 1) as nat,
                                kids.len() as nat,
                            );
                        }
                        return Err(e);
                    },
                }
            }
            i = i + 1;
        }
        Ok(())
    }

    /// Makes a new vertex that has what `v1` has, pulled up, and on top of
    /// it what `v2` has, pushed down.
    pub fn apply(&mut self, v1: u32, v2: u32) -> (r: Result<u32, Failure>)
        requires
            old(self).inv(),
        ensures
            final(self).follows(old(self), old(self)@.apply(v1, v2, old(self).depth()), r),
    {
        match self.enter() {
            Ok(_) => {},
            Err(e) => {
                return Err(e);
            },
        }
        let nv = match self.try_add() {
            Ok(nv) => nv,
            Err(e) => {
                return Err(e);
            },
        };
        match self.pull(nv, v1) {
            Ok(_) => {},
            Err(e) => {
                return Err(e);
            },
        }
        match self.push(nv, v2) {
            Ok(_) => {},
            Err(e) => {
                return Err(e);
            },
        }
        self.leave();
        Ok(nv)
    }
}

} // verus!
