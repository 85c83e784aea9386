//! What dispatch never takes away: vertices stay, data stay, and an edge
//! that a vertex has keeps its target. And what follows for a locator that
//! is resolved a second time.

use crate::labels::{beta, epsilon, gamma, lambda, phi, pi, psi, xi};
use crate::laws::{
    is_attribute, is_plain, law_memo_is_kept, lemma_add_top, lemma_link_frame, lemma_pull_frame,
    lemma_push_frame,
};
use crate::rules::{tokens, walk, Effect, Outcome, Reading, MAX_DEPTH};
use crate::store::{lemma_rebound, Graph};
use vstd::prelude::*;

verus! {

/// Whether `h` keeps what `g` has: each vertex with its datum, and for each
/// label that a vertex has an edge with, the vertex that the edge leads to.
pub open spec fn keeps(g: Graph, h: Graph) -> bool {
    &&& forall|w: u32| #[trigger] g.has(w) ==> h.has(w) && h.datum(w) == g.datum(w)
    &&& forall|w: u32, b: Seq<char>|
        (#[trigger] g.kid(w, b)) is Some ==> h.kid(w, b) == g.kid(w, b)
    &&& h.bounded()
}

/// Whether what a step comes to keeps what the graph had; nothing is said
/// where an atom decides.
pub open spec fn outcome_keeps(g: Graph, o: Outcome) -> bool {
    match o {
        Outcome::Done(h, _) => keeps(g, h),
        Outcome::Failed(h, _) => keeps(g, h),
        Outcome::Native(_, _, _) => true,
    }
}

/// Whether what a step comes to keeps what the graph had.
pub open spec fn effect_keeps(g: Graph, e: Effect) -> bool {
    match e {
        Effect::Done(h) => keeps(g, h),
        Effect::Failed(h, _) => keeps(g, h),
    }
}

/// What is kept twice in a row is kept.
pub proof fn lemma_keeps_then(a: Graph, b: Graph, c: Graph)
    requires
        keeps(a, b),
        keeps(b, c),
    ensures
        keeps(a, c),
{
    assert forall|w: u32| #[trigger] a.has(w) implies c.has(w) && c.datum(w) == a.datum(w) by {
        assert(b.has(w));
    }
    assert forall|w: u32, l: Seq<char>| (#[trigger] a.kid(w, l)) is Some implies c.kid(w, l)
        == a.kid(w, l) by {
        assert(b.kid(w, l) == a.kid(w, l));
    }
}

/// A vertex without edges has no kid.
proof fn lemma_no_edges(g: Graph, w: u32, l: Seq<char>)
    ensures
        !g.has(w) ==> g.kid(w, l) is None,
{
}

/// A link under a label that the vertex had no edge with at the beginning
/// keeps what there was at the beginning.
pub proof fn lemma_keeps_link(g0: Graph, g: Graph, v1: u32, v2: u32, a: Seq<char>)
    requires
        keeps(g0, g),
        g0.kid(v1, a) is None,
    ensures
        effect_keeps(g0, g.link(v1, v2, a)),
{
    match g.link(v1, v2, a) {
        Effect::Done(h) => {
            lemma_rebound(g.edges(v1), a, v2);
            lemma_link_frame(
                g,
                v1,
                v2,
                a,
                if v1 == 0 {
                    1u32
                } else {
                    0u32
                },
            );
            assert forall|w: u32| #[trigger] g0.has(w) implies h.has(w) && h.datum(w) == g0.datum(
                w,
            ) by {
                assert(g.has(w));
            }
            assert forall|w: u32, l: Seq<char>| (#[trigger] g0.kid(w, l)) is Some implies h.kid(
                w,
                l,
            ) == g0.kid(w, l) by {
                assert(g.kid(w, l) == g0.kid(w, l));
                if w == v1 {
                    assert(l != a);
                } else {
                    assert(h.edges(w) == g.edges(w));
                }
            }
        },
        _ => {},
    }
}

/// A new vertex above all the others keeps what there was.
pub proof fn lemma_keeps_add(g: Graph)
    requires
        g.bounded(),
        g.top() <= u32::MAX,
    ensures
        keeps(g, g.add(g.top() as u32)),
{
    lemma_add_top(g);
    let h = g.add(g.top() as u32);
    assert forall|w: u32, l: Seq<char>| (#[trigger] g.kid(w, l)) is Some implies h.kid(w, l)
        == g.kid(w, l) by {
        lemma_no_edges(g, w, l);
        assert(g.has(w));
        assert(h.edges(w) == g.edges(w));
    }
}

/// A copy keeps what there was: it binds edges at vertices that it has
/// made, and nowhere else.
pub proof fn lemma_keeps_apply(g: Graph, v1: u32, v2: u32, depth: nat)
    requires
        g.bounded(),
    ensures
        outcome_keeps(g, g.apply(v1, v2, depth)),
{
    if depth < MAX_DEPTH && g.top() <= u32::MAX {
        lemma_add_top(g);
        lemma_keeps_add(g);
        let nv = g.top() as u32;
        let g0 = g.add(nv);
        let after = match g0.pull(nv, v1) {
            Effect::Done(g1) => match g1.push(nv, v2) {
                Effect::Done(g2) => g2,
                Effect::Failed(g2, _) => g2,
            },
            Effect::Failed(g1, _) => g1,
        };
        assert forall|w: u32| #[trigger] g.has(w) implies after.has(w) && after.datum(w)
            == g.datum(w) && after.edges(w) == g.edges(w) by {
            lemma_pull_frame(g0, nv, g0.edges(v1), g0.edges(v1).len(), w);
            match g0.pull(nv, v1) {
                Effect::Done(g1) => {
                    lemma_push_frame(g1, nv, g1.edges(v2), g1.edges(v2).len(), w);
                },
                _ => {},
            }
        }
        assert forall|w: u32, l: Seq<char>| (#[trigger] g.kid(w, l)) is Some implies after.kid(
            w,
            l,
        ) == g.kid(w, l) by {
            lemma_no_edges(g, w, l);
            assert(g.has(w));
        }
        assert(after.bounded()) by {
            lemma_pull_frame(g0, nv, g0.edges(v1), g0.edges(v1).len(), nv_other(nv));
            match g0.pull(nv, v1) {
                Effect::Done(g1) => {
                    lemma_push_frame(g1, nv, g1.edges(v2), g1.edges(v2).len(), nv_other(nv));
                },
                _ => {},
            }
        }
    } else {
        lemma_keeps_same(g);
    }
}

/// Some vertex other than the given one.
pub open spec fn nv_other(nv: u32) -> u32 {
    if nv == 0 {
        1
    } else {
        0
    }
}

/// A graph keeps what it has.
pub proof fn lemma_keeps_same(g: Graph)
    requires
        g.bounded(),
    ensures
        keeps(g, g),
{
}

/// Dispatch keeps what there was, up to where an atom takes over.
pub proof fn lemma_keeps_dispatch(
    g: Graph,
    atoms: Set<Seq<char>>,
    v: u32,
    a: Seq<char>,
    ctx: u32,
    depth: nat,
)
    requires
        g.bounded(),
    ensures
        outcome_keeps(g, g.fnd(atoms, v, a, ctx, depth)),
        outcome_keeps(g, g.dd(atoms, v, ctx, depth)),
        outcome_keeps(g, g.pf(atoms, v, a, ctx, depth)),
    decreases MAX_DEPTH - depth,
{
    lemma_keeps_same(g);
    if depth < MAX_DEPTH {
        // path find
        if !g.holds(v, a) && !g.holds(v, lambda()) {
            if g.holds(v, phi()) {
                lemma_keeps_dispatch(g, atoms, g.kid(v, phi()).unwrap(), a, ctx, depth + 1);
            } else if g.holds(v, gamma()) {
                lemma_keeps_dispatch(g, atoms, g.kid(v, gamma()).unwrap(), a, ctx, depth + 1);
                match g.fnd(atoms, g.kid(v, gamma()).unwrap(), a, ctx, depth + 1) {
                    Outcome::Done(g1, t) => {
                        lemma_keeps_link(g, g1, v, t, a);
                    },
                    _ => {},
                }
            }
        }
        // dynamic dispatch
        let ctx2 = match g.kid(v, psi()) {
            Some(p) => p,
            None => ctx,
        };
        if g.holds(v, epsilon()) {
            lemma_keeps_dispatch(g, atoms, g.kid(v, epsilon()).unwrap(), a, ctx2, depth + 1);
        } else if g.holds(v, xi()) {
            lemma_keeps_dispatch(g, atoms, ctx2, a, ctx2, depth + 1);
        } else if g.holds(v, beta()) {
            let b = g.kid(v, beta()).unwrap();
            if g.has(b) && g.edges(b).len() > 0 {
                lemma_keeps_dispatch(g, atoms, g.edges(b)[0].1, g.edges(b)[0].0, ctx2, depth + 1);
                match g.fnd(atoms, g.edges(b)[0].1, g.edges(b)[0].0, ctx2, depth + 1) {
                    Outcome::Done(g1, nv) => {
                        lemma_keeps_dispatch(g1, atoms, nv, a, ctx2, depth + 1);
                        match g1.dd(atoms, nv, ctx2, depth + 1) {
                            Outcome::Done(g2, _) => {
                                lemma_keeps_then(g, g1, g2);
                            },
                            Outcome::Failed(g2, _) => {
                                lemma_keeps_then(g, g1, g2);
                            },
                            _ => {},
                        }
                    },
                    _ => {},
                }
            }
        } else if g.holds(v, pi()) {
            let to = g.kid(v, pi()).unwrap();
            lemma_keeps_dispatch(g, atoms, to, a, ctx2, depth + 1);
            match g.dd(atoms, to, ctx2, depth + 1) {
                Outcome::Done(g1, nv) => {
                    lemma_keeps_apply(g1, nv, v, depth + 1);
                    match g1.apply(nv, v, depth + 1) {
                        Outcome::Done(g2, _) => {
                            lemma_keeps_then(g, g1, g2);
                        },
                        Outcome::Failed(g2, _) => {
                            lemma_keeps_then(g, g1, g2);
                        },
                        _ => {},
                    }
                },
                _ => {},
            }
        }
        // the two in a row
        lemma_keeps_dispatch(g, atoms, v, a, ctx, depth + 1);
        match g.dd(atoms, v, ctx, depth + 1) {
            Outcome::Done(g1, v1) => {
                lemma_keeps_dispatch(g1, atoms, v1, a, ctx, depth + 1);
                match g1.pf(atoms, v1, a, ctx, depth + 1) {
                    Outcome::Done(g2, _) => {
                        lemma_keeps_then(g, g1, g2);
                    },
                    Outcome::Failed(g2, _) => {
                        lemma_keeps_then(g, g1, g2);
                    },
                    _ => {},
                }
            },
            _ => {},
        }
    }
}

/// One step of a locator keeps what there was.
pub proof fn lemma_keeps_step(g: Graph, atoms: Set<Seq<char>>, v: u32, k: Seq<char>, depth: nat)
    requires
        g.bounded(),
    ensures
        outcome_keeps(g, g.step(atoms, v, k, depth)),
{
    lemma_keeps_same(g);
    lemma_keeps_dispatch(g, atoms, v, k, 0, depth);
}

/// A walk keeps what there was at its beginning.
pub proof fn lemma_keeps_walk(
    g: Graph,
    atoms: Set<Seq<char>>,
    start: Outcome,
    steps: Seq<Seq<char>>,
    depth: nat,
)
    requires
        outcome_keeps(g, start),
    ensures
        outcome_keeps(g, walk(atoms, start, steps, depth)),
    decreases steps.len(),
{
    if steps.len() > 0 {
        lemma_keeps_walk(g, atoms, start, steps.drop_last(), depth);
        match walk(atoms, start, steps.drop_last(), depth) {
            Outcome::Done(h, v) => {
                lemma_keeps_step(h, atoms, v, steps.last(), depth);
                match h.step(atoms, v, steps.last(), depth) {
                    Outcome::Done(h2, _) => {
                        lemma_keeps_then(g, h, h2);
                    },
                    Outcome::Failed(h2, _) => {
                        lemma_keeps_then(g, h, h2);
                    },
                    _ => {},
                }
            },
            _ => {},
        }
    }
}

/// Edges, once bound, stay. Whatever a locator resolves or dataizes to,
/// the graph that is left has every vertex that there was, with the datum
/// that it had, and every edge that a vertex had leads where it led. This
/// holds where the resolution fails too. Where an atom is called, nothing
/// is said.
pub proof fn law_edges_are_kept(g: Graph, atoms: Set<Seq<char>>, loc: Seq<char>, depth: nat)
    requires
        g.bounded(),
    ensures
        outcome_keeps(g, g.find(atoms, loc, depth)),
        match g.dataize(atoms, loc, depth) {
            Reading::Bytes(after, _) => keeps(g, after),
            Reading::Failed(after, _) => keeps(g, after),
            Reading::Native(_, _, _) => true,
        },
{
    lemma_keeps_same(g);
    lemma_keeps_walk(g, atoms, Outcome::Done(g, 0), tokens(loc), depth);
    lemma_keeps_walk(g, atoms, Outcome::Done(g, 0), tokens(loc + seq!['.', 'Δ']), depth);
}

/// Whether each step of a walk that names an attribute is taken by an edge
/// that is there or from a vertex at which dispatch begins and ends, so
/// that no copy is made and what is found is bound to the vertex.
pub open spec fn plainly(atoms: Set<Seq<char>>, start: Outcome, steps: Seq<Seq<char>>, depth: nat)
    -> bool
    decreases steps.len(),
{
    if steps.len() == 0 {
        true
    } else {
        &&& plainly(atoms, start, steps.drop_last(), depth)
        &&& match walk(atoms, start, steps.drop_last(), depth) {
            Outcome::Done(h, x) => !is_attribute(steps.last()) || h.holds(x, steps.last())
                || is_plain(h, x),
            _ => true,
        }
    }
}

/// A walk that was done plainly is done again in every graph that keeps
/// what the walk has left: it leads to the same vertex, at any depth, and
/// changes nothing.
pub proof fn lemma_walk_again(
    g: Graph,
    atoms: Set<Seq<char>>,
    steps: Seq<Seq<char>>,
    depth: nat,
    after: Graph,
    v: u32,
    later: Graph,
    again: nat,
)
    requires
        g.bounded(),
        walk(atoms, Outcome::Done(g, 0), steps, depth) == Outcome::Done(after, v),
        plainly(atoms, Outcome::Done(g, 0), steps, depth),
        keeps(after, later),
    ensures
        walk(atoms, Outcome::Done(later, 0), steps, again) == Outcome::Done(later, v),
    decreases steps.len(),
{
    if steps.len() > 0 {
        let start = Outcome::Done(g, 0);
        let k = steps.last();
        lemma_keeps_same(g);
        lemma_keeps_walk(g, atoms, start, steps.drop_last(), depth);
        match walk(atoms, start, steps.drop_last(), depth) {
            Outcome::Done(h, x) => {
                lemma_keeps_step(h, atoms, x, k, depth);
                lemma_keeps_then(h, after, later);
                lemma_walk_again(g, atoms, steps.drop_last(), depth, h, x, later, again);
                if is_attribute(k) {
                    if !h.holds(x, k) {
                        law_memo_is_kept(h, atoms, x, k, depth, after, v);
                    }
                    assert(after.kid(x, k) == Some(v));
                    assert(later.kid(x, k) == Some(v));
                } else {
                    assert(after == h);
                    if h.has(v) {
                        assert(later.has(v));
                    }
                    if h.has(0) {
                        assert(later.has(0));
                    }
                }
            },
            _ => {},
        }
    }
}

/// A locator that was resolved plainly resolves again to the same vertex,
/// at any depth, and the graph stays as the first resolution has left it.
pub proof fn law_find_again(
    g: Graph,
    atoms: Set<Seq<char>>,
    loc: Seq<char>,
    depth: nat,
    after: Graph,
    v: u32,
    again: nat,
)
    requires
        g.bounded(),
        g.find(atoms, loc, depth) == Outcome::Done(after, v),
        plainly(atoms, Outcome::Done(g, 0), tokens(loc), depth),
    ensures
        after.find(atoms, loc, again) == Outcome::Done(after, v),
{
    lemma_keeps_same(g);
    lemma_keeps_walk(g, atoms, Outcome::Done(g, 0), tokens(loc), depth);
    lemma_keeps_same(after);
    lemma_walk_again(g, atoms, tokens(loc), depth, after, v, after, again);
    let w = choose|w: u32| g.has(w);
    assert(after.has(w));
}

/// A locator that was dataized plainly dataizes again to the same bytes,
/// at any depth, and the graph stays as the first dataization has left it.
pub proof fn law_dataize_again(
    g: Graph,
    atoms: Set<Seq<char>>,
    loc: Seq<char>,
    depth: nat,
    after: Graph,
    bytes: Seq<u8>,
    again: nat,
)
    requires
        g.bounded(),
        g.dataize(atoms, loc, depth) == Reading::Bytes(after, bytes),
        plainly(atoms, Outcome::Done(g, 0), tokens(loc + seq!['.', 'Δ']), depth),
    ensures
        after.dataize(atoms, loc, again) == Reading::Bytes(after, bytes),
{
    let path = loc + seq!['.', 'Δ'];
    match g.find(atoms, path, depth) {
        Outcome::Done(h, v) => {
            law_find_again(g, atoms, path, depth, h, v, again);
        },
        _ => {},
    }
}

} // verus!
