//! Packages: a script is deployed under the vertex of its package, which
//! hangs below the root by the names of the package, one edge for each.

use crate::failure::{Failure, Fault};
use crate::gmi::{deploy, Assembly, Gmi};
use crate::rules::{mount, tokens, Outcome};
use crate::script::texts;
use crate::store::Edges;
use crate::universe::locate::steps;
use crate::universe::Universe;
use vstd::prelude::*;

verus! {

/// A failed step of going down stays failed whatever labels follow.
pub proof fn lemma_mount_more(start: Outcome, parts: Seq<Seq<char>>, n: int)
    requires
        0 <= n <= parts.len(),
        !(mount(start, parts.subrange(0, n)) is Done),
    ensures
        mount(start, parts) == mount(start, parts.subrange(0, n)),
    decreases parts.len(),
{
    if n == parts.len() {
        assert(parts.subrange(0, n) =~= parts);
    } else {
        assert(parts.drop_last().subrange(0, n) =~= parts.subrange(0, n));
        lemma_mount_more(start, parts.drop_last(), n);
    }
}

impl<A> Universe<A> {
    /// The vertex under `at` that the label leads to: the one that is
    /// there, or else a new one, bound under the label.
    pub fn descend(&mut self, at: u32, p: &str) -> (r: Result<u32, Failure>)
        requires
            old(self).inv(),
        ensures
            final(self).follows(old(self), old(self)@.descend(at, p@), r),
            final(self).depth() == old(self).depth(),
            final(self).names() == old(self).names(),
    {
        if let Some(v) = self.kid(at, p) {
            return Ok(v);
        }
        let v = match self.try_add() {
            Ok(v) => v,
            Err(e) => {
                return Err(e);
            },
        };
        match self.bind(at, v, p) {
            Ok(_) => Ok(v),
            Err(e) => Err(e),
        }
    }

    /// The vertex of a package, whose names stand between dots: from the
    /// root down by one edge for each name, made where it is not there.
    pub fn mount(&mut self, pkg: &str) -> (r: Result<u32, Failure>)
        requires
            old(self).inv(),
        ensures
            final(self).follows(old(self), mount(Outcome::Done(old(self)@, 0), tokens(pkg@)), r),
            final(self).depth() == old(self).depth(),
            final(self).names() == old(self).names(),
    {
        let parts = steps(pkg);
        let ghost all = tokens(pkg@);
        let ghost start = Outcome::Done(self@, 0);
        let mut v: u32 = 0;
        let mut i: usize = 0;
        assert(all.subrange(0, 0) =~= Seq::<Seq<char>>::empty());
        while i < parts.len()
            invariant
                i <= parts.len(),
                all == texts(parts@),
                all == tokens(pkg@),
                start == Outcome::Done(old(self)@, 0),
                self.inv(),
                self.depth() == old(self).depth(),
                self.names() == old(self).names(),
                old(self)@.sound() ==> self@.sound(),
                mount(start, all.subrange(0, i as int)) == Outcome::Done(self@, v),
            decreases parts.len() - i,
        {
            proof {
                assert(all[i as int] == parts@[i as int]@);
                assert(all.subrange(0, i + 1).drop_last() =~= all.subrange(0, i as int));
            }
            match self.descend(v, parts[i].as_str()) {
                Ok(x) => {
                    v = x;
                },
                Err(e) => {
                    proof {
                        lemma_mount_more(start, all, i + 1);
                    }
                    return Err(e);
                },
            }
            i = i + 1;
        }
        assert(all.subrange(0, parts.len() as int) =~= all);
        Ok(v)
    }

    /// Deploys the script of a package: the vertex of the package stands in
    /// for vertex 0 of the script. Gives the number of instructions deployed.
    pub fn lay(&mut self, pkg: &str, script: String) -> (r: Result<usize, Failure>)
        requires
            old(self).inv(),
        ensures
            final(self).inv(),
            final(self).depth() == old(self).depth(),
            final(self).names() == old(self).names(),
            old(self)@.sound() ==> final(self)@.sound(),
            match mount(Outcome::Done(old(self)@, 0), tokens(pkg@)) {
                Outcome::Done(g, v) => deploy(
                    Assembly { graph: g, vars: Edges::empty() },
                    Some(v),
                    script@,
                    0,
                    0,
                ).0.graph == final(self)@ && match r {
                    Ok(n) => deploy(
                        Assembly { graph: g, vars: Edges::empty() },
                        Some(v),
                        script@,
                        0,
                        0,
                    ).1 == Ok::<nat, Fault>(n as nat),
                    Err(e) => deploy(
                        Assembly { graph: g, vars: Edges::empty() },
                        Some(v),
                        script@,
                        0,
                        0,
                    ).1 == Err::<nat, Fault>(e@),
                },
                Outcome::Failed(g, f) => (r matches Err(e) && e@ == f) && final(self)@ == g,
                Outcome::Native(_, _, _) => true,
            },
    {
        let root = match self.mount(pkg) {
            Ok(v) => v,
            Err(e) => {
                return Err(e);
            },
        };
        let mut gmi = match Gmi::from_string(script) {
            Ok(gmi) => gmi,
            Err(e) => {
                return Err(e);
            },
        };
        gmi.set_root(root);
        gmi.deploy_to(self)
    }
}

} // verus!
