//! What holds of the engine whatever the graph: laws that follow from the
//! rules of dispatch, each proved from them.

use crate::labels::{delta, gamma, here, lambda, phi, root, root_ascii, xi};
use crate::rules::{
    last_dot, lemma_last_dot_bounds, lemma_tokens_extend, lemma_walk_push, tokens, walk, Effect,
    Outcome, Reading, MAX_DEPTH,
};
use crate::store::{lemma_rebound, Edges, Graph};
use crate::text::{decimal, is_decimal};
use vstd::prelude::*;

verus! {

/// The steps of two parts in a row, where the second part is empty or
/// begins with a dot, are the steps of the first and then those of the second.
pub proof fn lemma_tokens_concat(x: Seq<char>, y: Seq<char>)
    requires
        y.len() == 0 || y[0] == '.',
    ensures
        tokens(x + y) == tokens(x) + tokens(y),
    decreases y.len(),
{
    if y.len() == 0 {
        assert(x + y =~= x);
        assert(tokens(x) + tokens(y) =~= tokens(x));
    } else {
        let s = x + y;
        lemma_last_dot_bounds(y);
        lemma_last_dot_bounds(s);
        let d = last_dot(y);
        if d < 0 {
            assert(y[0] == '.');
        }
        let ds = last_dot(s);
        if ds < x.len() + d {
            assert(s[x.len() + d] == y[d]);
        }
        if ds > x.len() + d {
            assert(s[ds] == y[ds - x.len()]);
        }
        assert(ds == x.len() + d);
        let head = y.subrange(0, d);
        assert(s.subrange(0, ds) =~= x + head);
        assert(s.subrange(ds + 1, s.len() as int) =~= y.subrange(d + 1, y.len() as int));
        if head.len() > 0 {
            assert(head[0] == y[0]);
        }
        lemma_tokens_concat(x, head);
        let tail = y.subrange(d + 1, y.len() as int);
        if tail.len() == 0 {
        } else {
            assert((tokens(x) + tokens(head)).push(tail) =~= tokens(x) + tokens(head).push(tail));
        }
    }
}

/// A walk over steps in a row is the walk over the first ones, and from
/// where it ends the walk over the rest.
pub proof fn lemma_walk_concat(
    atoms: Set<Seq<char>>,
    start: Outcome,
    first: Seq<Seq<char>>,
    rest: Seq<Seq<char>>,
    depth: nat,
)
    ensures
        walk(atoms, start, first + rest, depth) == walk(
            atoms,
            walk(atoms, start, first, depth),
            rest,
            depth,
        ),
    decreases rest.len(),
{
    if rest.len() == 0 {
        assert(first + rest =~= first);
    } else {
        lemma_walk_concat(atoms, start, first, rest.drop_last(), depth);
        assert((first + rest).drop_last() =~= first + rest.drop_last());
    }
}

/// What has no dot in it is one step.
pub proof fn lemma_tokens_single(k: Seq<char>)
    requires
        k.len() > 0,
        forall|i: int| 0 <= i < k.len() ==> k[i] != '.',
    ensures
        tokens(k) == seq![k],
{
    lemma_tokens_extend(k, 0, k.len() as int);
    assert(k.subrange(0, k.len() as int) =~= k);
    assert(k.subrange(0, 0) =~= Seq::<char>::empty());
    assert(Seq::<Seq<char>>::empty().push(k) =~= seq![k]);
}

/// A locator with one more step at its end, after a dot, has the steps it
/// had and then that one.
pub proof fn lemma_tokens_then(loc: Seq<char>, k: Seq<char>)
    requires
        k.len() > 0,
        forall|i: int| 0 <= i < k.len() ==> k[i] != '.',
    ensures
        tokens(loc + seq!['.'] + k) == tokens(loc).push(k),
{
    let y = seq!['.'] + k;
    assert(loc + seq!['.'] + k =~= loc + y);
    lemma_tokens_concat(loc, y);
    lemma_tokens_extend(y, 1, y.len() as int);
    assert(y.subrange(0, y.len() as int) =~= y);
    assert(y.subrange(1, y.len() as int) =~= k);
    crate::rules::lemma_tokens_dot(y, 0);
    assert(y.subrange(0, 0) =~= Seq::<char>::empty());
    assert(tokens(y) =~= seq![k]);
    assert(tokens(loc) + seq![k] =~= tokens(loc).push(k));
}

/// A locator that begins with `Φ` resolves to what the
/// locator resolves to that begins with `ν0` in its place, where what
/// follows is nothing or begins with a dot; the graph they leave is the same.
pub proof fn law_root_is_vertex_zero(
    g: Graph,
    atoms: Set<Seq<char>>,
    tail: Seq<char>,
    depth: nat,
)
    requires
        tail.len() == 0 || tail[0] == '.',
    ensures
        g.find(atoms, seq!['Φ'] + tail, depth) == g.find(atoms, seq!['ν', '0'] + tail, depth),
        g.dataize(atoms, seq!['Φ'] + tail, depth) == g.dataize(
            atoms,
            seq!['ν', '0'] + tail,
            depth,
        ),
{
    lemma_root_is_vertex_zero(g, atoms, tail, depth);
    let more = tail + seq!['.', 'Δ'];
    assert(more[0] == '.');
    lemma_root_is_vertex_zero(g, atoms, more, depth);
    assert(seq!['Φ'] + tail + seq!['.', 'Δ'] =~= seq!['Φ'] + more);
    assert(seq!['ν', '0'] + tail + seq!['.', 'Δ'] =~= seq!['ν', '0'] + more);
}

proof fn lemma_root_is_vertex_zero(g: Graph, atoms: Set<Seq<char>>, tail: Seq<char>, depth: nat)
    requires
        tail.len() == 0 || tail[0] == '.',
    ensures
        g.find(atoms, seq!['Φ'] + tail, depth) == g.find(atoms, seq!['ν', '0'] + tail, depth),
{
    let a = seq!['Φ'];
    let b = seq!['ν', '0'];
    lemma_tokens_concat(a, tail);
    lemma_tokens_concat(b, tail);
    lemma_tokens_single(a);
    lemma_tokens_single(b);
    let start = Outcome::Done(g, 0);
    lemma_walk_concat(atoms, start, seq![a], tokens(tail), depth);
    lemma_walk_concat(atoms, start, seq![b], tokens(tail), depth);
    lemma_walk_push(atoms, start, Seq::empty(), a, depth);
    lemma_walk_push(atoms, start, Seq::empty(), b, depth);
    assert(Seq::<Seq<char>>::empty().push(a) =~= seq![a]);
    assert(Seq::<Seq<char>>::empty().push(b) =~= seq![b]);
    assert(a == root());
    let digits = b.subrange(1, 2);
    assert(digits =~= seq!['0']);
    assert(digits.drop_last() =~= Seq::<char>::empty());
    assert(decimal(digits) == 0) by {
        reveal_with_fuel(decimal, 2);
    }
    assert(is_decimal(digits));
    assert(b != root() && b != root_ascii());
    assert(g.step(atoms, 0, a, depth) == g.jump(0));
    assert(g.step(atoms, 0, b, depth) == g.jump(0));
}

/// A locator with `ξ` as one more step resolves to what it
/// resolves to without that step, and leaves the same graph.
pub proof fn law_identity_step(g: Graph, atoms: Set<Seq<char>>, loc: Seq<char>, depth: nat)
    ensures
        g.find(atoms, loc + seq!['.', 'ξ'], depth) == g.find(atoms, loc, depth),
        g.find(atoms, loc + seq!['.', '$'], depth) == g.find(atoms, loc, depth),
{
    let start = Outcome::Done(g, 0);
    lemma_tokens_then(loc, xi());
    assert(loc + seq!['.'] + xi() =~= loc + seq!['.', 'ξ']);
    lemma_walk_push(atoms, start, tokens(loc), xi(), depth);
    lemma_tokens_then(loc, here());
    assert(loc + seq!['.'] + here() =~= loc + seq!['.', '$']);
    lemma_walk_push(atoms, start, tokens(loc), here(), depth);
    assert(xi() != root() && xi() != root_ascii() && xi()[0] != 'ν');
    assert(here() != root() && here() != root_ascii() && here()[0] != 'ν');
}

/// Where a locator resolves to a vertex
/// that has an edge `Δ` to a vertex with a datum, dataization of the
/// locator gives the bytes of that datum, in the graph that the resolution
/// leaves.
pub proof fn law_concrete_data(
    g: Graph,
    atoms: Set<Seq<char>>,
    loc: Seq<char>,
    depth: nat,
    after: Graph,
    v: u32,
    d: u32,
)
    requires
        g.find(atoms, loc, depth) == Outcome::Done(after, v),
        after.kid(v, delta()) == Some(d),
        after.has(d),
        after.datum(d).len() > 0,
    ensures
        g.dataize(atoms, loc, depth) == Reading::Bytes(after, after.datum(d)),
{
    let start = Outcome::Done(g, 0);
    lemma_tokens_then(loc, delta());
    assert(loc + seq!['.'] + delta() =~= loc + seq!['.', 'Δ']);
    lemma_walk_push(atoms, start, tokens(loc), delta(), depth);
    assert(delta() != root() && delta() != root_ascii() && delta()[0] != 'ν');
    assert(delta() != xi() && delta() != here());
}


/// Without atoms no step is left to an atom: what dispatch comes to is
/// decided by the graph alone.
pub proof fn lemma_no_atoms_no_native(g: Graph, v: u32, a: Seq<char>, ctx: u32, depth: nat)
    ensures
        !(g.fnd(Set::empty(), v, a, ctx, depth) is Native),
        !(g.dd(Set::empty(), v, ctx, depth) is Native),
        !(g.pf(Set::empty(), v, a, ctx, depth) is Native),
    decreases MAX_DEPTH - depth,
{
    let atoms = Set::<Seq<char>>::empty();
    if depth < MAX_DEPTH {
        // path find
        if !g.holds(v, a) && !g.holds(v, lambda()) {
            if g.holds(v, phi()) {
                lemma_no_atoms_no_native(g, g.kid(v, phi()).unwrap(), a, ctx, depth + 1);
            } else if g.holds(v, gamma()) {
                lemma_no_atoms_no_native(g, g.kid(v, gamma()).unwrap(), a, ctx, depth + 1);
            }
        }
        // dynamic dispatch
        let ctx2 = match g.kid(v, crate::labels::psi()) {
            Some(p) => p,
            None => ctx,
        };
        if g.holds(v, crate::labels::epsilon()) {
            lemma_no_atoms_no_native(
                g,
                g.kid(v, crate::labels::epsilon()).unwrap(),
                a,
                ctx2,
                depth + 1,
            );
        } else if g.holds(v, xi()) {
            lemma_no_atoms_no_native(g, ctx2, a, ctx2, depth + 1);
        } else if g.holds(v, crate::labels::beta()) {
            let b = g.kid(v, crate::labels::beta()).unwrap();
            if g.has(b) && g.edges(b).len() > 0 {
                lemma_no_atoms_no_native(g, g.edges(b)[0].1, g.edges(b)[0].0, ctx2, depth + 1);
                match g.fnd(atoms, g.edges(b)[0].1, g.edges(b)[0].0, ctx2, depth + 1) {
                    Outcome::Done(g1, nv) => {
                        lemma_no_atoms_no_native(g1, nv, a, ctx2, depth + 1);
                    },
                    _ => {},
                }
            }
        } else if g.holds(v, crate::labels::pi()) {
            lemma_no_atoms_no_native(g, g.kid(v, crate::labels::pi()).unwrap(), a, ctx2, depth + 1);
        }
        // the two in a row
        lemma_no_atoms_no_native(g, v, a, ctx, depth + 1);
        match g.dd(atoms, v, ctx, depth + 1) {
            Outcome::Done(g1, v1) => {
                lemma_no_atoms_no_native(g1, v1, a, ctx, depth + 1);
            },
            _ => {},
        }
    }
}

/// Without atoms a walk that an atom has not decided yet is never left to one.
proof fn lemma_no_atoms_walk(start: Outcome, steps: Seq<Seq<char>>, depth: nat)
    requires
        !(start is Native),
    ensures
        !(walk(Set::empty(), start, steps, depth) is Native),
    decreases steps.len(),
{
    if steps.len() > 0 {
        lemma_no_atoms_walk(start, steps.drop_last(), depth);
        match walk(Set::empty(), start, steps.drop_last(), depth) {
            Outcome::Done(g, v) => {
                lemma_no_atoms_no_native(g, v, steps.last(), 0, depth);
            },
            _ => {},
        }
    }
}

/// With no atom registered, what a locator resolves to and
/// what it dataizes to are decided by the graph and the locator: the rules
/// give a vertex, bytes or a failure, and nothing is left open.
pub proof fn law_no_atoms_decided(g: Graph, loc: Seq<char>, depth: nat)
    ensures
        !(g.find(Set::empty(), loc, depth) is Native),
        !(g.dataize(Set::empty(), loc, depth) is Native),
{
    lemma_no_atoms_walk(Outcome::Done(g, 0), crate::rules::tokens(loc), depth);
    lemma_no_atoms_walk(
        Outcome::Done(g, 0),
        crate::rules::tokens(loc + seq!['.', 'Δ']),
        depth,
    );
}

/// Where path find gives an attribute of a vertex that has
/// neither `λ` nor `φ`, the vertex has an edge with that label to what was
/// found, in the graph that is left: the edge it had, or the one that `γ`
/// has bound.
pub proof fn lemma_memo_is_kept(
    g: Graph,
    atoms: Set<Seq<char>>,
    v: u32,
    a: Seq<char>,
    ctx: u32,
    depth: nat,
    after: Graph,
    t: u32,
)
    requires
        g.pf(atoms, v, a, ctx, depth) == Outcome::Done(after, t),
        !g.holds(v, lambda()),
        !g.holds(v, phi()),
    ensures
        after.kid(v, a) == Some(t),
{
    if !g.holds(v, a) {
        match g.fnd(atoms, g.kid(v, gamma()).unwrap(), a, ctx, depth + 1) {
            Outcome::Done(g1, t1) => {
                lemma_rebound(g1.edges(v), a, t1);
            },
            _ => {},
        }
    }
}

/// Whether a step of a locator is the name of an attribute, and no word of
/// the locator language.
pub open spec fn is_attribute(k: Seq<char>) -> bool {
    k != root() && k != root_ascii() && k != xi() && k != here() && !(k.len() > 0 && k[0] == 'ν')
}

/// Whether dispatch begins and ends at the vertex: it has none of `ε`, `ξ`,
/// `β` and `π`, and no `λ` or `φ` either, so that an attribute it lacks can
/// only come by `γ`.
pub open spec fn is_plain(g: Graph, v: u32) -> bool {
    &&& !g.holds(v, crate::labels::epsilon())
    &&& !g.holds(v, xi())
    &&& !g.holds(v, crate::labels::beta())
    &&& !g.holds(v, crate::labels::pi())
    &&& !g.holds(v, lambda())
    &&& !g.holds(v, phi())
}

/// A step that is done from such a vertex by the name of an attribute can
/// be taken again: the vertex has an edge with that label to what was
/// found, by which the same step leads to the same vertex, at any depth,
/// without dispatch and without a change to the graph.
pub proof fn law_memo_is_kept(
    g: Graph,
    atoms: Set<Seq<char>>,
    v: u32,
    a: Seq<char>,
    depth: nat,
    after: Graph,
    t: u32,
)
    requires
        is_attribute(a),
        is_plain(g, v),
        g.step(atoms, v, a, depth) == Outcome::Done(after, t),
    ensures
        after.kid(v, a) == Some(t),
        forall|d: nat| after.step(atoms, v, a, d) == Outcome::Done(after, t),
{
    if !g.holds(v, a) {
        assert(depth < MAX_DEPTH);
        assert(g.dd(atoms, v, 0, depth + 1) == Outcome::Done(g, v));
        lemma_memo_is_kept(g, atoms, v, a, 0, depth + 1, after, t);
    }
}

/// Whether an edge with this label is pushed down from a copy.
pub open spec fn is_pushed(a: Seq<char>) -> bool {
    a != crate::labels::pi() && a != crate::labels::psi()
}

/// Pushing down goes on only from where it was done so far.
pub proof fn lemma_push_prefix(g: Graph, nv: u32, kids: Edges, n: nat, m: nat)
    requires
        n <= m,
        g.push_upto(nv, kids, m) is Done,
    ensures
        g.push_upto(nv, kids, n) is Done,
    decreases m - n,
{
    if n < m {
        lemma_push_prefix(g, nv, kids, n + 1, m);
    }
}

/// After the first `n` edges are pushed down to `nv`, the label under which
/// one of them was bound is a label of `nv`, and leads to the target of that
/// edge unless a later one of them was bound under the same label.
pub proof fn lemma_pushed_edge(g: Graph, nv: u32, kids: Edges, n: nat, i: nat, after: Graph)
    requires
        i < n <= kids.len(),
        is_pushed(kids[i as int].0),
        g.push_upto(nv, kids, n) == Effect::Done(after),
    ensures
        after.holds(nv, g.tied(nv, kids, i)),
        (forall|j: nat| i < j < n && is_pushed(kids[j as int].0) ==> g.tied(nv, kids, j) != g.tied(nv, kids, i))
            ==> after.kid(nv, g.tied(nv, kids, i)) == Some(kids[i as int].1),
    decreases n,
{
    lemma_push_prefix(g, nv, kids, (n - 1) as nat, n);
    let before = g.push_upto(nv, kids, (n - 1) as nat)->Done_0;
    let a = kids[n - 1].0;
    let k = kids[n - 1].1;
    if is_pushed(a) {
        let label = g.tied(nv, kids, (n - 1) as nat);
        assert(before.tie(nv, a) == Ok::<Seq<char>, crate::failure::Fault>(label));
        assert(after == before.bind(nv, k, label));
        lemma_rebound(before.edges(nv), label, k);
        if i < n - 1 {
            lemma_pushed_edge(g, nv, kids, (n - 1) as nat, i, before);
            if g.tied(nv, kids, i) != label {
                assert(after.kid(nv, g.tied(nv, kids, i)) == before.kid(nv, g.tied(nv, kids, i)));
            }
        }
    } else {
        assert(after == before);
        lemma_pushed_edge(g, nv, kids, (n - 1) as nat, i, before);
    }
}

/// A link changes the edges of the vertex that it leaves, and nothing else.
pub proof fn lemma_link_frame(g: Graph, v1: u32, v2: u32, a: Seq<char>, w: u32)
    requires
        w != v1,
    ensures
        match g.link(v1, v2, a) {
            Effect::Done(h) => h.has(w) == g.has(w) && h.edges(w) == g.edges(w) && h.datum(w)
                == g.datum(w) && (g.bounded() ==> h.bounded() && h.top() == g.top()),
            Effect::Failed(h, _) => h == g,
        },
{
    match g.link(v1, v2, a) {
        Effect::Done(h) => {
            if g.bounded() {
                let t = choose|t: nat| g.top_is(t);
                assert forall|x: u32| h.has(x) implies (x as nat) < t by {
                    assert(g.has(x));
                }
                if t != 0 {
                    assert(g.has((t - 1) as u32));
                    assert(h.has((t - 1) as u32));
                }
                assert(h.top_is(t));
                crate::rules::lemma_top_unique(h, t, t);
                crate::rules::lemma_top_unique(g, t, t);
            }
        },
        _ => {},
    }
}

/// A new vertex above all the others moves the top by one.
pub proof fn lemma_add_top(g: Graph)
    requires
        g.bounded(),
        g.top() <= u32::MAX,
    ensures
        !g.has(g.top() as u32),
        g.add(g.top() as u32).bounded(),
        g.add(g.top() as u32).top() == g.top() + 1,
        forall|w: u32|
            g.has(w) ==> g.add(g.top() as u32).edges(w) == g.edges(w) && g.add(
                g.top() as u32,
            ).datum(w) == g.datum(w),
{
    let t = choose|t: nat| g.top_is(t);
    crate::rules::lemma_top_unique(g, t, t);
    let h = g.add(t as u32);
    assert forall|x: u32| h.has(x) implies (x as nat) < t + 1 by {
        if x != t as u32 {
            assert(g.has(x));
        }
    }
    assert(h.has(t as u32));
    if g.has(t as u32) {
        assert((t as u32 as nat) < t);
    }
    assert(h.top_is(t + 1));
    crate::rules::lemma_top_unique(h, t + 1, t + 1);
}

/// A new vertex moves the top above itself, where it was not above it.
pub proof fn lemma_add_at_top(g: Graph, v: u32)
    requires
        g.bounded(),
    ensures
        g.add(v).bounded(),
        g.add(v).top() == if g.top() > v {
            g.top()
        } else {
            (v + 1) as nat
        },
{
    let t = choose|t: nat| g.top_is(t);
    crate::rules::lemma_top_unique(g, t, t);
    let h = g.add(v);
    let u: nat = if t > v {
        t
    } else {
        (v + 1) as nat
    };
    assert forall|x: u32| h.has(x) implies (x as nat) < u by {
        if x != v {
            assert(g.has(x));
        }
    }
    if u == t && t != 0 {
        assert(g.has((t - 1) as u32));
        assert(h.has((t - 1) as u32));
    }
    assert(h.has(v));
    assert(h.top_is(u));
    crate::rules::lemma_top_unique(h, u, u);
}

/// A datum leaves the top where it is.
pub proof fn lemma_put_top(g: Graph, v: u32, bytes: Seq<u8>)
    requires
        g.bounded(),
    ensures
        g.put(v, bytes).bounded(),
        g.put(v, bytes).top() == g.top(),
{
    let t = choose|t: nat| g.top_is(t);
    crate::rules::lemma_top_unique(g, t, t);
    let h = g.put(v, bytes);
    assert forall|x: u32| h.has(x) implies (x as nat) < t by {
        assert(g.has(x));
    }
    if t != 0 {
        assert(g.has((t - 1) as u32));
        assert(h.has((t - 1) as u32));
    }
    assert(h.top_is(t));
    crate::rules::lemma_top_unique(h, t, t);
}

/// Whether the vertex is in `h` as it is in `g`: with the same edges and
/// the same datum.
pub open spec fn same_at(g: Graph, h: Graph, w: u32) -> bool {
    h.has(w) && h.edges(w) == g.edges(w) && h.datum(w) == g.datum(w)
}

/// Pulling one edge up to `nv` changes `nv` and makes at most one vertex;
/// every other vertex that was there stays as it was.
pub proof fn lemma_up_frame(g: Graph, nv: u32, k: u32, a: Seq<char>, w: u32)
    requires
        g.bounded(),
        g.has(nv),
    ensures
        match g.up(nv, k, a) {
            Effect::Done(h) => h.has(nv) && h.bounded() && (g.has(w) && w != nv ==> same_at(
                g,
                h,
                w,
            )),
            Effect::Failed(h, _) => h.has(nv) && h.bounded() && (g.has(w) && w != nv ==> same_at(
                g,
                h,
                w,
            )),
        },
{
    let wa = if w != nv {
        w
    } else {
        crate::lifecycle::nv_other(nv)
    };
    if a == lambda() || a == delta() || a == crate::labels::rho() {
        lemma_link_frame(g, nv, k, a, wa);
    } else if !g.has(k) {
    } else if g.nil(k) {
        lemma_link_frame(g, nv, k, a, wa);
    } else if g.top() > u32::MAX {
    } else {
        lemma_add_top(g);
        let t = g.top() as u32;
        let wt = if w != t {
            w
        } else {
            nv
        };
        let g0 = g.add(t);
        lemma_link_frame(g0, nv, t, a, wa);
        match g0.link(nv, t, a) {
            Effect::Done(g1) => {
                lemma_link_frame(g1, t, nv, crate::labels::rho(), wt);
                lemma_link_frame(g1, t, nv, crate::labels::rho(), nv);
                match g1.link(t, nv, crate::labels::rho()) {
                    Effect::Done(g2) => {
                        lemma_link_frame(g2, t, nv, crate::labels::psi(), wt);
                        lemma_link_frame(g2, t, nv, crate::labels::psi(), nv);
                        match g2.link(t, nv, crate::labels::psi()) {
                            Effect::Done(g3) => {
                                lemma_link_frame(g3, t, k, crate::labels::pi(), wt);
                                lemma_link_frame(g3, t, k, crate::labels::pi(), nv);
                            },
                            _ => {},
                        }
                    },
                    _ => {},
                }
            },
            _ => {},
        }
    }
}

/// Pulling edges up to `nv` leaves every other vertex that was there as it was.
pub proof fn lemma_pull_frame(g: Graph, nv: u32, kids: Edges, n: nat, w: u32)
    requires
        g.bounded(),
        g.has(nv),
        n <= kids.len(),
    ensures
        match g.pull_upto(nv, kids, n) {
            Effect::Done(h) => h.has(nv) && h.bounded() && (g.has(w) && w != nv ==> same_at(
                g,
                h,
                w,
            )),
            Effect::Failed(h, _) => h.has(nv) && h.bounded() && (g.has(w) && w != nv ==> same_at(
                g,
                h,
                w,
            )),
        },
    decreases n,
{
    if n > 0 {
        lemma_pull_frame(g, nv, kids, (n - 1) as nat, w);
        match g.pull_upto(nv, kids, (n - 1) as nat) {
            Effect::Done(h) => {
                lemma_up_frame(h, nv, kids[n - 1].1, kids[n - 1].0, w);
            },
            _ => {},
        }
    }
}

/// Pushing edges down to `nv` leaves every other vertex as it was.
pub proof fn lemma_push_frame(g: Graph, nv: u32, kids: Edges, n: nat, w: u32)
    requires
        w != nv,
        n <= kids.len(),
    ensures
        match g.push_upto(nv, kids, n) {
            Effect::Done(h) => h.has(w) == g.has(w) && h.edges(w) == g.edges(w) && h.datum(w)
                == g.datum(w) && (g.bounded() ==> h.bounded()),
            Effect::Failed(h, _) => h.has(w) == g.has(w) && h.edges(w) == g.edges(w) && h.datum(w)
                == g.datum(w) && (g.bounded() ==> h.bounded()),
        },
    decreases n,
{
    if n > 0 {
        lemma_push_frame(g, nv, kids, (n - 1) as nat, w);
        match g.push_upto(nv, kids, (n - 1) as nat) {
            Effect::Done(h) => {
                match h.tie(nv, kids[n - 1].0) {
                    Ok(label) => {
                        lemma_link_frame(h, nv, kids[n - 1].1, label, w);
                    },
                    _ => {},
                }
            },
            _ => {},
        }
    }
}

/// After a copy is made, every vertex that the
/// graph had before has the edges that it had.
pub proof fn law_apply_keeps_vertices(
    g: Graph,
    v1: u32,
    v2: u32,
    depth: nat,
    after: Graph,
    nv: u32,
    w: u32,
)
    requires
        g.bounded(),
        g.has(w),
        g.apply(v1, v2, depth) == Outcome::Done(after, nv),
    ensures
        !g.has(nv),
        after.has(w),
        after.edges(w) == g.edges(w),
        g.add(nv).pull(nv, v1)->Done_0.edges(w) == g.edges(w),
{
    lemma_add_top(g);
    let g0 = g.add(nv);
    lemma_pull_frame(g0, nv, g0.edges(v1), g0.edges(v1).len(), w);
    let base = g0.pull(nv, v1)->Done_0;
    lemma_push_frame(base, nv, base.edges(v2), base.edges(v2).len(), w);
}

/// After a copy `nv` is made of `v1` with what `v2`
/// has on top, each edge of `v2` that is pushed down has left its mark on
/// `nv`: the label it was tied to is a label of `nv`, and leads to the
/// target of the edge unless a later edge of `v2` was tied to the same
/// label and took its place. `base` is the graph when pushing begins.
pub proof fn law_apply_structural(
    g: Graph,
    v1: u32,
    v2: u32,
    depth: nat,
    after: Graph,
    nv: u32,
    i: nat,
)
    requires
        g.bounded(),
        g.has(v2),
        g.apply(v1, v2, depth) == Outcome::Done(after, nv),
        i < g.edges(v2).len(),
        is_pushed(g.edges(v2)[i as int].0),
    ensures
        nv == g.top(),
        ({
            let base = g.add(nv).pull(nv, v1)->Done_0;
            let kids = g.edges(v2);
            &&& after.holds(nv, base.tied(nv, kids, i))
            &&& (forall|j: nat|
                i < j < kids.len() && is_pushed(kids[j as int].0) ==> base.tied(nv, kids, j)
                    != base.tied(nv, kids, i)) ==> after.kid(nv, base.tied(nv, kids, i)) == Some(
                kids[i as int].1,
            )
        }),
{
    law_apply_keeps_vertices(g, v1, v2, depth, after, nv, v2);
    let base = g.add(nv).pull(nv, v1)->Done_0;
    let kids = base.edges(v2);
    lemma_pushed_edge(base, nv, kids, kids.len(), i, after);
}

/// Whether what a step comes to keeps the rules of the graph.
pub open spec fn effect_sound(e: Effect) -> bool {
    match e {
        Effect::Done(g) => g.sound(),
        Effect::Failed(g, _) => g.sound(),
    }
}

/// Whether what a step comes to keeps the rules of the graph; nothing is
/// said where an atom decides.
pub open spec fn outcome_sound(o: Outcome) -> bool {
    match o {
        Outcome::Done(g, _) => g.sound(),
        Outcome::Failed(g, _) => g.sound(),
        Outcome::Native(_, _, _) => true,
    }
}

/// A link keeps a sound graph sound, whether it is done or fails.
pub proof fn lemma_link_sound(g: Graph, v1: u32, v2: u32, a: Seq<char>)
    requires
        g.sound(),
    ensures
        effect_sound(g.link(v1, v2, a)),
        effect_sound(g.attach(v1, v2, a)),
{
    if g.has(v1) && g.has(v2) && !g.forbids(v1, v2, a) {
        crate::rules::lemma_bind_sound(g, v1, v2, a);
    }
}

/// Pushing an edge down and pulling one up keep a sound graph sound.
pub proof fn lemma_up_down_sound(g: Graph, v1: u32, v2: u32, a: Seq<char>)
    requires
        g.sound(),
    ensures
        effect_sound(g.down(v1, v2, a)),
        effect_sound(g.up(v1, v2, a)),
{
    match g.tie(v1, a) {
        Ok(label) => {
            lemma_link_sound(g, v1, v2, label);
        },
        _ => {},
    }
    lemma_link_sound(g, v1, v2, a);
    if g.top() <= u32::MAX {
        let t = g.top() as u32;
        crate::rules::lemma_add_sound(g, t);
        let g0 = g.add(t);
        lemma_link_sound(g0, v1, t, a);
        match g0.link(v1, t, a) {
            Effect::Done(g1) => {
                lemma_link_sound(g1, t, v1, crate::labels::rho());
                match g1.link(t, v1, crate::labels::rho()) {
                    Effect::Done(g2) => {
                        lemma_link_sound(g2, t, v1, crate::labels::psi());
                        match g2.link(t, v1, crate::labels::psi()) {
                            Effect::Done(g3) => {
                                lemma_link_sound(g3, t, v2, crate::labels::pi());
                            },
                            _ => {},
                        }
                    },
                    _ => {},
                }
            },
            _ => {},
        }
    }
}

/// Pulling edges up and pushing edges down keep a sound graph sound.
pub proof fn lemma_pull_push_sound(g: Graph, nv: u32, kids: Edges, n: nat)
    requires
        g.sound(),
    ensures
        effect_sound(g.pull_upto(nv, kids, n)),
        effect_sound(g.push_upto(nv, kids, n)),
    decreases n,
{
    if n > 0 {
        lemma_pull_push_sound(g, nv, kids, (n - 1) as nat);
        match g.pull_upto(nv, kids, (n - 1) as nat) {
            Effect::Done(h) => {
                lemma_up_down_sound(h, nv, kids[n - 1].1, kids[n - 1].0);
            },
            _ => {},
        }
        match g.push_upto(nv, kids, (n - 1) as nat) {
            Effect::Done(h) => {
                lemma_up_down_sound(h, nv, kids[n - 1].1, kids[n - 1].0);
            },
            _ => {},
        }
    }
}

/// A copy keeps a sound graph sound.
pub proof fn lemma_apply_sound(g: Graph, v1: u32, v2: u32, depth: nat)
    requires
        g.sound(),
    ensures
        outcome_sound(g.apply(v1, v2, depth)),
{
    if depth < MAX_DEPTH && g.top() <= u32::MAX {
        let nv = g.top() as u32;
        crate::rules::lemma_add_sound(g, nv);
        let g0 = g.add(nv);
        lemma_pull_push_sound(g0, nv, g0.edges(v1), g0.edges(v1).len());
        match g0.pull(nv, v1) {
            Effect::Done(g1) => {
                lemma_pull_push_sound(g1, nv, g1.edges(v2), g1.edges(v2).len());
            },
            _ => {},
        }
    }
}

/// Dispatch keeps a sound graph sound, up to where an atom takes over.
pub proof fn lemma_dispatch_sound(
    g: Graph,
    atoms: Set<Seq<char>>,
    v: u32,
    a: Seq<char>,
    ctx: u32,
    depth: nat,
)
    requires
        g.sound(),
    ensures
        outcome_sound(g.fnd(atoms, v, a, ctx, depth)),
        outcome_sound(g.dd(atoms, v, ctx, depth)),
        outcome_sound(g.pf(atoms, v, a, ctx, depth)),
    decreases MAX_DEPTH - depth,
{
    if depth < MAX_DEPTH {
        // path find
        if !g.holds(v, a) && !g.holds(v, lambda()) {
            if g.holds(v, phi()) {
                lemma_dispatch_sound(g, atoms, g.kid(v, phi()).unwrap(), a, ctx, depth + 1);
            } else if g.holds(v, gamma()) {
                lemma_dispatch_sound(g, atoms, g.kid(v, gamma()).unwrap(), a, ctx, depth + 1);
                match g.fnd(atoms, g.kid(v, gamma()).unwrap(), a, ctx, depth + 1) {
                    Outcome::Done(g1, t) => {
                        lemma_link_sound(g1, v, t, a);
                    },
                    _ => {},
                }
            }
        }
        // dynamic dispatch
        let ctx2 = match g.kid(v, crate::labels::psi()) {
            Some(p) => p,
            None => ctx,
        };
        if g.holds(v, crate::labels::epsilon()) {
            lemma_dispatch_sound(
                g,
                atoms,
                g.kid(v, crate::labels::epsilon()).unwrap(),
                a,
                ctx2,
                depth + 1,
            );
        } else if g.holds(v, xi()) {
            lemma_dispatch_sound(g, atoms, ctx2, a, ctx2, depth + 1);
        } else if g.holds(v, crate::labels::beta()) {
            let b = g.kid(v, crate::labels::beta()).unwrap();
            if g.has(b) && g.edges(b).len() > 0 {
                lemma_dispatch_sound(
                    g,
                    atoms,
                    g.edges(b)[0].1,
                    g.edges(b)[0].0,
                    ctx2,
                    depth + 1,
                );
                match g.fnd(atoms, g.edges(b)[0].1, g.edges(b)[0].0, ctx2, depth + 1) {
                    Outcome::Done(g1, nv) => {
                        lemma_dispatch_sound(g1, atoms, nv, a, ctx2, depth + 1);
                    },
                    _ => {},
                }
            }
        } else if g.holds(v, crate::labels::pi()) {
            let to = g.kid(v, crate::labels::pi()).unwrap();
            lemma_dispatch_sound(g, atoms, to, a, ctx2, depth + 1);
            match g.dd(atoms, to, ctx2, depth + 1) {
                Outcome::Done(g1, nv) => {
                    lemma_apply_sound(g1, nv, v, depth + 1);
                },
                _ => {},
            }
        }
        // the two in a row
        lemma_dispatch_sound(g, atoms, v, a, ctx, depth + 1);
        match g.dd(atoms, v, ctx, depth + 1) {
            Outcome::Done(g1, v1) => {
                lemma_dispatch_sound(g1, atoms, v1, a, ctx, depth + 1);
            },
            _ => {},
        }
    }
}

/// A walk keeps a sound graph sound, up to where an atom takes over.
pub proof fn lemma_walk_sound(
    atoms: Set<Seq<char>>,
    start: Outcome,
    steps: Seq<Seq<char>>,
    depth: nat,
)
    requires
        outcome_sound(start),
    ensures
        outcome_sound(walk(atoms, start, steps, depth)),
    decreases steps.len(),
{
    if steps.len() > 0 {
        lemma_walk_sound(atoms, start, steps.drop_last(), depth);
        match walk(atoms, start, steps.drop_last(), depth) {
            Outcome::Done(g, v) => {
                lemma_dispatch_sound(g, atoms, v, steps.last(), 0, depth);
            },
            _ => {},
        }
    }
}

/// Whatever a locator resolves or dataizes to in a
/// sound graph, the graph that is left is sound: each edge arrives at a
/// vertex that exists, no vertex has both `π` and `φ` or both `λ` and `Δ`,
/// and no edge that leads back arrives at the root. This holds where the
/// resolution fails too. Where an atom is called, nothing is said.
pub proof fn law_soundness_is_kept(g: Graph, atoms: Set<Seq<char>>, loc: Seq<char>, depth: nat)
    requires
        g.sound(),
    ensures
        outcome_sound(g.find(atoms, loc, depth)),
        match g.dataize(atoms, loc, depth) {
            Reading::Bytes(after, _) => after.sound(),
            Reading::Failed(after, _) => after.sound(),
            Reading::Native(_, _, _) => true,
        },
{
    lemma_walk_sound(atoms, Outcome::Done(g, 0), tokens(loc), depth);
    lemma_walk_sound(atoms, Outcome::Done(g, 0), tokens(loc + seq!['.', 'Δ']), depth);
}

} // verus!
