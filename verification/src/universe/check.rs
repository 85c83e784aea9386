//! The check of a whole graph against its rules.

use crate::labels::{
    delta_str, lambda_str, leads_back, phi_str, pi_str, psi_str, rho_str, sigma_str,
};
use crate::store::{edges_of, sodg_ids};
use crate::text::same;
use crate::universe::Universe;
use vstd::prelude::*;

verus! {

impl<A> Universe<A> {
    /// Whether the edges of the vertex keep the rules of the graph.
    pub fn sound_at(&self, v: u32) -> (r: bool)
        ensures
            r == self@.sound_at(v),
    {
        if self.kid(v, pi_str()).is_some() && self.kid(v, phi_str()).is_some() {
            return false;
        }
        if self.kid(v, lambda_str()).is_some() && self.kid(v, delta_str()).is_some() {
            return false;
        }
        let kids = match self.kids(v) {
            Ok(kids) => kids,
            Err(_) => {
                return true;
            },
        };
        let mut i: usize = 0;
        while i < kids.len()
            invariant
                i <= kids.len(),
                edges_of(kids@) == self@.edges(v),
                forall|j: int|
                    0 <= j < i ==> {
                        &&& self@.has(#[trigger] self@.edges(v)[j].1)
                        &&& !(self@.edges(v)[j].1 == 0 && leads_back(self@.edges(v)[j].0))
                    },
            decreases kids.len() - i,
        {
            let a = kids[i].0.as_str();
            let k = kids[i].1;
            assert(edges_of(kids@)[i as int] == (a@, k));
            if !self.has(k) {
                assert(!self@.has(self@.edges(v)[i as int].1));
                return false;
            }
            if k == 0 && (same(a, rho_str()) || same(a, sigma_str()) || same(a, psi_str())) {
                assert(self@.edges(v)[i as int].1 == 0 && leads_back(self@.edges(v)[i as int].0));
                assert(self@.has(self@.edges(v)[i as int].1));
                return false;
            }
            i = i + 1;
        }
        true
    }

    /// The vertices whose edges break a rule of the graph, each once. There
    /// is none exactly where the graph is sound.
    pub fn inconsistencies(&self) -> (r: Vec<u32>)
        ensures
            r@.no_duplicates(),
            forall|v: u32| r@.contains(v) <==> self@.has(v) && !self@.sound_at(v),
            r@.len() == 0 <==> self@.sound(),
    {
        let ids = sodg_ids(&self.g);
        let mut out: Vec<u32> = Vec::new();
        let mut i: usize = 0;
        while i < ids.len()
            invariant
                i <= ids.len(),
                ids@.no_duplicates(),
                forall|v: u32| ids@.contains(v) <==> self@.has(v),
                out@.no_duplicates(),
                forall|v: u32|
                    out@.contains(v) <==> (exists|j: int| 0 <= j < i && ids@[j] == v)
                        && !self@.sound_at(v),
            decreases ids.len() - i,
        {
            let v = ids[i];
            let ghost before = out@;
            if !self.sound_at(v) {
                out.push(v);
                proof {
                    assert forall|w: u32| out@.contains(w) implies (exists|j: int|
                        0 <= j < i + 1 && ids@[j] == w) && !self@.sound_at(w) by {
                        let k = choose|k: int| 0 <= k < out@.len() && out@[k] == w;
                        if k < before.len() {
                            assert(before.contains(w));
                            let j = choose|j: int| 0 <= j < i && ids@[j] == w;
                            assert(0 <= j < i + 1 && ids@[j] == w);
                        } else {
                            assert(ids@[i as int] == w);
                        }
                    }
                    assert forall|w: u32|
                        (exists|j: int| 0 <= j < i + 1 && ids@[j] == w) && !self@.sound_at(
                            w,
                        ) implies out@.contains(w) by {
                        let j = choose|j: int| 0 <= j < i + 1 && ids@[j] == w;
                        if j < i {
                            assert(before.contains(w));
                            let k = choose|k: int| 0 <= k < before.len() && before[k] == w;
                            assert(out@[k] == w);
                        } else {
                            assert(out@[before.len() as int] == w);
                        }
                    }
                    assert(out@.no_duplicates()) by {
                        if before.contains(v) {
                            let j = choose|j: int| 0 <= j < i && ids@[j] == v;
                            assert(ids@[j] == ids@[i as int]);
                        }
                        assert forall|a: int, b: int|
                            0 <= a < out@.len() && 0 <= b < out@.len() && a != b implies out@[a]
                            != out@[b] by {
                            if a == before.len() {
                                assert(before[b] == out@[b]);
                                assert(before.contains(before[b]));
                            } else if b == before.len() {
                                assert(before[a] == out@[a]);
                                assert(before.contains(before[a]));
                            } else {
                                assert(before[a] == out@[a] && before[b] == out@[b]);
                            }
                        }
                    }
                }
            } else {
                proof {
                    assert forall|w: u32|
                        (exists|j: int| 0 <= j < i + 1 && ids@[j] == w) && !self@.sound_at(
                            w,
                        ) implies out@.contains(w) by {
                        let j = choose|j: int| 0 <= j < i + 1 && ids@[j] == w;
                        assert(j < i);
                    }
                }
            }
            i = i + 1;
        }
        proof {
            assert forall|v: u32| out@.contains(v) <==> self@.has(v) && !self@.sound_at(v) by {
                if out@.contains(v) {
                    let j = choose|j: int| 0 <= j < i && ids@[j] == v;
                    assert(ids@.contains(v));
                }
                if self@.has(v) && !self@.sound_at(v) {
                    assert(ids@.contains(v));
                    let j = choose|j: int| 0 <= j < ids@.len() && ids@[j] == v;
                    assert(0 <= j < i && ids@[j] == v);
                }
            }
            if out@.len() > 0 {
                assert(out@.contains(out@[0]));
            }
            if !self@.sound() {
                let v = choose|v: u32| self@.has(v) && !self@.sound_at(v);
                assert(out@.contains(v));
            }
        }
        out
    }
}

} // verus!
