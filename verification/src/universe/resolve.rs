//! The three steps that call one another: dynamic dispatch, path find, and
//! the two in a row.

use crate::data::Data;
use crate::failure::Failure;
use crate::labels::{beta_str, epsilon_str, gamma_str, lambda_str, phi_str, pi_str, psi_str, xi_str};
use crate::rules::MAX_DEPTH;
use crate::store::{edges_of, sodg_data};
use crate::universe::{Atom, Universe};
use vstd::prelude::*;

verus! {

impl<A: Atom + Copy> Universe<A> {
    /// The vertex that the attribute `a` of `v` is: dynamic dispatch on `v`,
    /// then path find from where it ends.
    pub fn fnd(&mut self, v: u32, a: &str, ctx: u32) -> (r: Result<u32, Failure>)
        requires
            old(self).inv(),
        ensures
            final(self).follows(
                old(self),
                old(self)@.fnd(old(self).names(), v, a@, ctx, old(self).depth()),
                r,
            ),
        decreases MAX_DEPTH - old(self).depth(),
    {
        match self.enter() {
            Ok(_) => {},
            Err(e) => {
                return Err(e);
            },
        }
        let v1 = match self.dd(v, ctx) {
            Ok(v1) => v1,
            Err(e) => {
                return Err(e);
            },
        };
        let to = match self.pf(v1, a, ctx) {
            Ok(to) => to,
            Err(e) => {
                return Err(e);
            },
        };
        self.leave();
        Ok(to)
    }

    /// Path find: the vertex that the attribute `a` of `v` is.
    pub fn pf(&mut self, v: u32, a: &str, ctx: u32) -> (r: Result<u32, Failure>)
        requires
            old(self).inv(),
        ensures
            final(self).follows(
                old(self),
                old(self)@.pf(old(self).names(), v, a@, ctx, old(self).depth()),
                r,
            ),
        decreases MAX_DEPTH - old(self).depth(),
    {
        match self.enter() {
            Ok(_) => {},
            Err(e) => {
                return Err(e);
            },
        }
        if let Some(to) = self.kid(v, a) {
            self.leave();
            return Ok(to);
        }
        if let Some(lv) = self.kid(v, lambda_str()) {
            let bytes = match sodg_data(&mut self.g, lv) {
                Some(bytes) => bytes,
                None => {
                    return Err(Failure::MissingVertex(lv));
                },
            };
            let name = match Data::from_bytes(bytes).as_string() {
                Ok(name) => name,
                Err(_) => {
                    return Err(Failure::BadData);
                },
            };
            let atom = match self.registered(name.as_str()) {
                Some(atom) => atom,
                None => {
                    return Err(Failure::AtomNotRegistered(v, name));
                },
            };
            let level = self.depth;
            assert(old(self)@.pf(old(self).names(), v, a@, ctx, old(self).depth())
                == crate::rules::Outcome::Native(self@, v, name@)) by {
                old(self).lemma_names(name@);
            }
            let to = match atom.call(self, v) {
                Ok(to) => to,
                Err(e) => {
                    return Err(Failure::Atom(v, Box::new(e)));
                },
            };
            self.settle(level);
            let r = match self.fnd(to, a, ctx) {
                Ok(r) => r,
                Err(e) => {
                    return Err(e);
                },
            };
            self.leave();
            return Ok(r);
        }
        if let Some(to) = self.kid(v, phi_str()) {
            let r = match self.fnd(to, a, ctx) {
                Ok(r) => r,
                Err(e) => {
                    return Err(e);
                },
            };
            self.leave();
            return Ok(r);
        }
        if let Some(to) = self.kid(v, gamma_str()) {
            let t = match self.fnd(to, a, ctx) {
                Ok(t) => t,
                Err(e) => {
                    return Err(e);
                },
            };
            match self.link(v, t, a) {
                Ok(_) => {},
                Err(e) => {
                    return Err(e);
                },
            }
            self.leave();
            return Ok(t);
        }
        Err(Failure::UnresolvedAttribute(v, a.to_owned()))
    }

    /// Dynamic dispatch: the vertex at which an attribute of `v` is looked for.
    pub fn dd(&mut self, v: u32, ctx: u32) -> (r: Result<u32, Failure>)
        requires
            old(self).inv(),
        ensures
            final(self).follows(
                old(self),
                old(self)@.dd(old(self).names(), v, ctx, old(self).depth()),
                r,
            ),
        decreases MAX_DEPTH - old(self).depth(),
    {
        match self.enter() {
            Ok(_) => {},
            Err(e) => {
                return Err(e);
            },
        }
        let ctx2 = match self.kid(v, psi_str()) {
            Some(p) => p,
            None => ctx,
        };
        if let Some(to) = self.kid(v, epsilon_str()) {
            let r = match self.dd(to, ctx2) {
                Ok(r) => r,
                Err(e) => {
                    return Err(e);
                },
            };
            self.leave();
            return Ok(r);
        }
        if self.kid(v, xi_str()).is_some() {
            let r = match self.dd(ctx2, ctx2) {
                Ok(r) => r,
                Err(e) => {
                    return Err(e);
                },
            };
            self.leave();
            return Ok(r);
        }
        if let Some(b) = self.kid(v, beta_str()) {
            let kids = match self.kids(b) {
                Ok(kids) => kids,
                Err(e) => {
                    return Err(e);
                },
            };
            assert(edges_of(kids@).len() == kids@.len());
            if kids.len() == 0 {
                return Err(Failure::MissingVertex(b));
            }
            assert(edges_of(kids@)[0] == (kids@[0].0@, kids@[0].1));
            let nv = match self.fnd(kids[0].1, kids[0].0.as_str(), ctx2) {
                Ok(nv) => nv,
                Err(e) => {
                    return Err(e);
                },
            };
            let r = match self.dd(nv, ctx2) {
                Ok(r) => r,
                Err(e) => {
                    return Err(e);
                },
            };
            self.leave();
            return Ok(r);
        }
        if let Some(to) = self.kid(v, pi_str()) {
            let nv = match self.dd(to, ctx2) {
                Ok(nv) => nv,
                Err(e) => {
                    return Err(e);
                },
            };
            let r = match self.apply(nv, v) {
                Ok(r) => r,
                Err(e) => {
                    return Err(e);
                },
            };
            self.leave();
            return Ok(r);
        }
        self.leave();
        Ok(v)
    }
}

} // verus!
