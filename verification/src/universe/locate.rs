//! Locators: how a dotted path is walked from the root, and how the bytes
//! at its end are read.

use crate::data::Data;
use crate::failure::Failure;
use crate::labels::{here_str, root_ascii_str, root_str, xi_str};
use crate::rules::{
    lemma_tokens_dot, lemma_tokens_extend, lemma_walk_more, lemma_walk_push, tokens, walk,
    Outcome,
};
use crate::script::texts;
use crate::text::{chars_of, parse_u32, same, string_of};
use crate::universe::{Atom, Universe};
use vstd::prelude::*;
use vstd::string::StringExecFns;

verus! {

/// The steps of a locator: what stands between its dots, but where nothing
/// stands between two of them.
pub fn steps(loc: &str) -> (r: Vec<String>)
    ensures
        texts(r@) == tokens(loc@),
{
    let chars = chars_of(loc);
    let n = chars.len();
    let mut out: Vec<String> = Vec::new();
    let mut i: usize = 0;
    assert(chars@.subrange(0, 0) =~= Seq::<char>::empty());
    assert(texts(out@) =~= tokens(chars@.subrange(0, 0)));
    while i < n
        invariant
            n == chars.len(),
            chars@ == loc@,
            i <= n,
            i == 0 || i == n || chars@[i - 1] == '.',
            texts(out@) == tokens(chars@.subrange(0, i as int)),
        decreases n - i,
    {
        let mut j: usize = i;
        while j < n && chars[j] != '.'
            invariant
                n == chars.len(),
                i <= j <= n,
                forall|x: int| i <= x < j ==> chars@[x] != '.',
            decreases n - j,
        {
            j = j + 1;
        }
        if j > i {
            let ghost before = out@;
            out.push(string_of(&chars, i, j));
            proof {
                lemma_tokens_extend(chars@, i as int, j as int);
                assert(texts(out@) =~= texts(before).push(chars@.subrange(i as int, j as int)));
            }
        }
        if j < n {
            proof {
                lemma_tokens_dot(chars@, j as int);
            }
            i = j + 1;
        } else {
            i = n;
        }
    }
    assert(chars@.subrange(0, n as int) =~= chars@);
    out
}

impl<A: Atom + Copy> Universe<A> {
    /// A jump to a vertex, which has to exist.
    fn jump(&self, v: u32) -> (r: Result<u32, Failure>)
        ensures
            match r {
                Ok(x) => self@.jump(v) == Outcome::Done(self@, x),
                Err(e) => self@.jump(v) == Outcome::Failed(self@, e@),
            },
    {
        if self.has(v) {
            Ok(v)
        } else {
            Err(Failure::MissingVertex(v))
        }
    }

    /// One step of a locator from `v`.
    pub fn step(&mut self, v: u32, k: &str) -> (r: Result<u32, Failure>)
        requires
            old(self).inv(),
        ensures
            final(self).follows(
                old(self),
                old(self)@.step(old(self).names(), v, k@, old(self).depth()),
                r,
            ),
    {
        if same(k, root_str()) || same(k, root_ascii_str()) {
            return self.jump(0);
        }
        let chars = chars_of(k);
        if chars.len() > 0 && chars[0] == 'ν' {
            return match parse_u32(&chars, 1, chars.len()) {
                Some(n) => self.jump(n),
                None => Err(Failure::BadLocator(String::from_str(k))),
            };
        }
        if same(k, xi_str()) || same(k, here_str()) {
            return Ok(v);
        }
        if let Some(to) = self.kid(v, k) {
            return Ok(to);
        }
        if !self.has(v) {
            return Err(Failure::MissingVertex(v));
        }
        self.fnd(v, k, 0)
    }

    /// Resolves a locator from the root. The steps of the locator stand
    /// between its dots and are taken from left to right. The depth of
    /// dispatch is the same after the call as before it.
    pub fn find(&mut self, loc: &str) -> (r: Result<u32, Failure>)
        requires
            old(self).inv(),
        ensures
            final(self).follows(
                old(self),
                old(self)@.find(old(self).names(), loc@, old(self).depth()),
                r,
            ),
            final(self).depth() == old(self).depth(),
    {
        if self.is_empty() {
            return Err(Failure::EmptyGraph);
        }
        let level = self.depth;
        let steps = steps(loc);
        let ghost all = tokens(loc@);
        let ghost names = self.names();
        let ghost start = Outcome::Done(self@, 0);
        let ghost o = start;
        let mut v: u32 = 0;
        let mut i: usize = 0;
        assert(all.subrange(0, 0) =~= Seq::<Seq<char>>::empty());
        while i < steps.len()
            invariant
                i <= steps.len(),
                all == tokens(loc@),
                all == texts(steps@),
                level == old(self).depth(),
                names == old(self).names(),
                start == Outcome::Done(old(self)@, 0),
                !old(self)@.is_empty(),
                self.inv(),
                self.depth() == level,
                old(self)@.sound() ==> self@.sound(),
                o == walk(names, start, all.subrange(0, i as int), level as nat),
                o is Native || (o == Outcome::Done(self@, v) && self.names() == names),
            decreases steps.len() - i,
        {
            proof {
                assert(all[i as int] == steps@[i as int]@);
                lemma_walk_push(names, start, all.subrange(0, i as int), all[i as int], level as nat);
                assert(all.subrange(0, i as int).push(all[i as int]) =~= all.subrange(0, i + 1));
                o = walk(names, start, all.subrange(0, i + 1), level as nat);
            }
            match self.step(v, steps[i].as_str()) {
                Ok(x) => {
                    v = x;
                },
                Err(e) => {
                    self.settle(level);
                    proof {
                        lemma_walk_more(names, start, all, i + 1, level as nat);
                    }
                    return Err(e);
                },
            }
            i = i + 1;
        }
        assert(all.subrange(0, steps.len() as int) =~= all);
        Ok(v)
    }

    /// The bytes that a locator stands for: those of the vertex that the
    /// locator, with `Δ` as one more step, resolves to. The depth of dispatch
    /// is the same after the call as before it.
    pub fn dataize(&mut self, loc: &str) -> (r: Result<Data, Failure>)
        requires
            old(self).inv(),
        ensures
            final(self).yields(
                old(self),
                old(self)@.dataize(old(self).names(), loc@, old(self).depth()),
                r,
            ),
    {
        proof {
            reveal_strlit(".Δ");
        }
        assert(".Δ"@ =~= seq!['.', 'Δ']);
        let path = String::from_str(loc).concat(".Δ");
        let v = match self.find(path.as_str()) {
            Ok(v) => v,
            Err(e) => {
                return Err(e);
            },
        };
        self.data(v)
    }
}

} // verus!
