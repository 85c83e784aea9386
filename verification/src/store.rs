//! The graph store. The vertices, their edges and their data live in a
//! `sodg::Sodg`; this file says what that container holds and what each of
//! its operations does to it, and calls them.

use sodg::Sodg;
use vstd::prelude::*;

verus! {

/// The edges that leave a vertex, oldest first: label and target.
pub type Edges = Seq<(Seq<char>, u32)>;

/// The mathematical value of a graph: for each vertex that exists, its
/// outgoing edges in the order in which they were bound, and its datum
/// (no bytes where it has none).
pub ghost struct Graph {
    pub vertices: Map<u32, (Edges, Seq<u8>)>,
}

/// The first target among the edges that carry the label.
pub open spec fn first_kid(edges: Edges, a: Seq<char>) -> Option<u32>
    decreases edges.len(),
{
    if edges.len() == 0 {
        None
    } else if edges[0].0 == a {
        Some(edges[0].1)
    } else {
        first_kid(edges.drop_first(), a)
    }
}

/// The edges but those that carry the label, in their order.
pub open spec fn without(edges: Edges, a: Seq<char>) -> Edges
    decreases edges.len(),
{
    if edges.len() == 0 {
        edges
    } else if edges[0].0 == a {
        without(edges.drop_first(), a)
    } else {
        seq![edges[0]] + without(edges.drop_first(), a)
    }
}

/// The edges after one labelled `a` to `to` is bound: edges that carried the
/// label before are gone, and the new one is the youngest.
pub open spec fn rebound(edges: Edges, a: Seq<char>, to: u32) -> Edges {
    without(edges, a).push((a, to))
}

/// What is left without a label was there before, and does not carry it.
pub proof fn lemma_without(edges: Edges, a: Seq<char>)
    ensures
        forall|i: int|
            0 <= i < without(edges, a).len() ==> edges.contains(#[trigger] without(edges, a)[i])
                && without(edges, a)[i].0 != a,
        forall|b: Seq<char>| b != a ==> first_kid(without(edges, a), b) == first_kid(edges, b),
        first_kid(without(edges, a), a) is None,
    decreases edges.len(),
{
    if edges.len() > 0 {
        let rest = edges.drop_first();
        lemma_without(rest, a);
        assert forall|i: int| 0 <= i < without(edges, a).len() implies edges.contains(
            #[trigger] without(edges, a)[i],
        ) && without(edges, a)[i].0 != a by {
            if edges[0].0 == a {
                let e = without(rest, a)[i];
                let j = choose|j: int| 0 <= j < rest.len() && rest[j] == e;
                assert(edges[j + 1] == e);
            } else if i == 0 {
                assert(edges[0] == without(edges, a)[0]);
            } else {
                let e = without(rest, a)[i - 1];
                let j = choose|j: int| 0 <= j < rest.len() && rest[j] == e;
                assert(edges[j + 1] == e);
            }
        }
        if edges[0].0 != a {
            let w = without(edges, a);
            assert(w.drop_first() =~= without(rest, a));
        }
        assert forall|b: Seq<char>| b != a implies first_kid(without(edges, a), b) == first_kid(
            edges,
            b,
        ) by {
            assert(first_kid(without(rest, a), b) == first_kid(rest, b));
        }
    }
}

/// The first kid under a label once one more edge stands at the end.
pub proof fn lemma_first_kid_push(edges: Edges, e: (Seq<char>, u32), b: Seq<char>)
    ensures
        first_kid(edges.push(e), b) == if first_kid(edges, b) is Some {
            first_kid(edges, b)
        } else if e.0 == b {
            Some(e.1)
        } else {
            None
        },
    decreases edges.len(),
{
    if edges.len() > 0 {
        lemma_first_kid_push(edges.drop_first(), e, b);
        assert(edges.push(e).drop_first() =~= edges.drop_first().push(e));
    } else {
        assert(edges.push(e).drop_first() =~= edges);
    }
}

/// After an edge is bound, its label leads to its target, and every other
/// label leads where it led before; each edge is the new one or an old one.
pub proof fn lemma_rebound(edges: Edges, a: Seq<char>, to: u32)
    ensures
        first_kid(rebound(edges, a, to), a) == Some(to),
        forall|b: Seq<char>| b != a ==> first_kid(rebound(edges, a, to), b) == first_kid(edges, b),
        forall|i: int|
            0 <= i < rebound(edges, a, to).len() ==> (#[trigger] rebound(edges, a, to)[i] == (a, to)
                || edges.contains(rebound(edges, a, to)[i])),
{
    lemma_without(edges, a);
    lemma_first_kid_push(without(edges, a), (a, to), a);
    assert forall|b: Seq<char>| b != a implies first_kid(rebound(edges, a, to), b) == first_kid(
        edges,
        b,
    ) by {
        lemma_first_kid_push(without(edges, a), (a, to), b);
    }
}

impl Graph {
    /// A graph without vertices.
    pub open spec fn empty() -> Graph {
        Graph { vertices: Map::empty() }
    }

    /// Whether the vertex exists.
    pub open spec fn has(self, v: u32) -> bool {
        self.vertices.dom().contains(v)
    }

    /// The edges that leave the vertex; none where it does not exist.
    pub open spec fn edges(self, v: u32) -> Edges {
        if self.has(v) {
            self.vertices[v].0
        } else {
            Seq::empty()
        }
    }

    /// The datum of the vertex; no bytes where it has none or does not exist.
    pub open spec fn datum(self, v: u32) -> Seq<u8> {
        if self.has(v) {
            self.vertices[v].1
        } else {
            Seq::empty()
        }
    }

    /// The vertex that the edge labelled `a` leads to from `v`, if there is one.
    pub open spec fn kid(self, v: u32, a: Seq<char>) -> Option<u32> {
        first_kid(self.edges(v), a)
    }

    /// The graph with the vertex in it: a new one has no edges and no datum,
    /// one that exists stays as it is.
    pub open spec fn add(self, v: u32) -> Graph {
        if self.has(v) {
            self
        } else {
            Graph { vertices: self.vertices.insert(v, (Seq::empty(), Seq::empty())) }
        }
    }

    /// The graph after an edge labelled `a` is bound from `v1` to `v2`. It
    /// replaces what `v1` had under that label. Without `v1` nothing changes.
    pub open spec fn bind(self, v1: u32, v2: u32, a: Seq<char>) -> Graph {
        if self.has(v1) {
            Graph {
                vertices: self.vertices.insert(
                    v1,
                    (rebound(self.vertices[v1].0, a, v2), self.vertices[v1].1),
                ),
            }
        } else {
            self
        }
    }

    /// The graph after the datum of `v` is set. Without `v` nothing changes.
    pub open spec fn put(self, v: u32, bytes: Seq<u8>) -> Graph {
        if self.has(v) {
            Graph { vertices: self.vertices.insert(v, (self.vertices[v].0, bytes)) }
        } else {
            self
        }
    }

    /// Whether `t` is the least number above every vertex.
    pub open spec fn top_is(self, t: nat) -> bool {
        &&& forall|v: u32| self.has(v) ==> (v as nat) < t
        &&& t == 0 || (t - 1 <= u32::MAX && self.has((t - 1) as u32))
    }
}

/// The labels and targets of the edges that a vector of pairs holds.
pub open spec fn edges_of(kids: Seq<(String, u32)>) -> Edges {
    kids.map_values(|e: (String, u32)| (e.0@, e.1))
}

/// `sodg::Sodg`, the container of the graph. Nothing inside it is seen
/// here; what it holds is named below.
#[verifier::external_type_specification]
#[verifier::external_body]
pub struct ExSodg(sodg::Sodg);

/// What a `Sodg` holds: for each of its vertices, the edges in the order of
/// its list of edges, and the bytes of its datum.
pub uninterp spec fn sodg_vertices(g: Sodg) -> Map<u32, (Seq<(Seq<char>, u32)>, Seq<u8>)>;

/// Whether the alerts of a `Sodg` are switched on.
pub uninterp spec fn sodg_alerts(g: Sodg) -> bool;

/// The mathematical value of what a `Sodg` holds.
pub open spec fn model(g: Sodg) -> Graph {
    Graph { vertices: sodg_vertices(g) }
}

/// `Sodg::empty`: a graph without vertices, whose alerts are switched off.
#[verifier::external_body]
pub(crate) fn sodg_empty() -> (g: Sodg)
    ensures
        model(g) == Graph::empty(),
        !sodg_alerts(g),
{
    Sodg::empty()
}

/// `Sodg::alerts_off`: switches the alerts off and leaves the vertices alone.
#[verifier::external_body]
pub(crate) fn sodg_alerts_off(g: &mut Sodg)
    ensures
        sodg_vertices(*final(g)) == sodg_vertices(*old(g)),
        !sodg_alerts(*final(g)),
{
    g.alerts_off();
}

/// `Sodg::is_empty`: whether the graph has no vertex.
#[verifier::external_body]
pub(crate) fn sodg_is_empty(g: &Sodg) -> (r: bool)
    ensures
        r == (forall|v: u32| !model(*g).has(v)),
{
    g.is_empty()
}

/// `Sodg::ids`: the vertices of the graph, each once, in no stated order.
#[verifier::external_body]
pub(crate) fn sodg_ids(g: &Sodg) -> (r: Vec<u32>)
    ensures
        r@.no_duplicates(),
        forall|v: u32| r@.contains(v) <==> model(*g).has(v),
{
    g.ids()
}

/// `Sodg::add`: puts in a vertex without edges and without datum, unless the
/// graph has that vertex already. With the alerts off it always succeeds.
#[verifier::external_body]
pub(crate) fn sodg_add(g: &mut Sodg, v: u32) -> (ok: bool)
    requires
        !sodg_alerts(*old(g)),
    ensures
        ok,
        !sodg_alerts(*final(g)),
        model(*final(g)) == model(*old(g)).add(v),
{
    g.add(v).is_ok()
}

/// `Sodg::bind`: where `v1` exists, drops the edges of `v1` that carry the
/// label and appends the new edge, whether or not `v2` exists. With the
/// alerts off it succeeds exactly where both vertices exist.
#[verifier::external_body]
pub(crate) fn sodg_bind(g: &mut Sodg, v1: u32, v2: u32, a: &str) -> (ok: bool)
    requires
        !sodg_alerts(*old(g)),
    ensures
        ok == (model(*old(g)).has(v1) && model(*old(g)).has(v2)),
        !sodg_alerts(*final(g)),
        model(*final(g)) == model(*old(g)).bind(v1, v2, a@),
{
    g.bind(v1, v2, a).is_ok()
}

/// `Sodg::put`: sets the datum of a vertex that exists. With the alerts off
/// it succeeds exactly where the vertex exists.
#[verifier::external_body]
pub(crate) fn sodg_put(g: &mut Sodg, v: u32, bytes: &Vec<u8>) -> (ok: bool)
    requires
        !sodg_alerts(*old(g)),
    ensures
        ok == model(*old(g)).has(v),
        !sodg_alerts(*final(g)),
        model(*final(g)) == model(*old(g)).put(v, bytes@),
{
    g.put(v, &sodg::Hex::from_vec(bytes.clone())).is_ok()
}

/// `Sodg::data`: the bytes of the datum of a vertex that exists. The call
/// marks the vertex as read and changes nothing that the graph holds.
#[verifier::external_body]
pub(crate) fn sodg_data(g: &mut Sodg, v: u32) -> (r: Option<Vec<u8>>)
    ensures
        sodg_vertices(*final(g)) == sodg_vertices(*old(g)),
        sodg_alerts(*final(g)) == sodg_alerts(*old(g)),
        r is Some == model(*old(g)).has(v),
        r is Some ==> r.unwrap()@ == model(*old(g)).datum(v),
{
    match g.data(v) {
        Ok(hex) => Some(hex.to_vec()),
        Err(_) => None,
    }
}

/// `Sodg::kids`: the edges of a vertex that exists, in the order of its list.
#[verifier::external_body]
pub(crate) fn sodg_kids(g: &Sodg, v: u32) -> (r: Option<Vec<(String, u32)>>)
    ensures
        r is Some == model(*g).has(v),
        r is Some ==> edges_of(r.unwrap()@) == model(*g).edges(v),
{
    g.kids(v).ok()
}

/// `Sodg::kid`: the target of the first edge of the vertex that carries the
/// label; none where the vertex or such an edge does not exist.
#[verifier::external_body]
pub(crate) fn sodg_kid(g: &Sodg, v: u32, a: &str) -> (r: Option<u32>)
    ensures
        r == model(*g).kid(v, a@),
{
    g.kid(v, a)
}

/// Whether an edge with this label is followed when a part of the graph is
/// cut out: one that begins with `ρ` or `σ` is not.
pub fn followed(a: &str) -> (r: bool)
    ensures
        r == !(a@.len() > 0 && (a@[0] == 'ρ' || a@[0] == 'σ')),
{
    let chars = crate::text::chars_of(a);
    !(chars.len() > 0 && (chars[0] == 'ρ' || chars[0] == 'σ'))
}

/// What `Sodg::slice_some` cuts out of the vertices for a locator, when the
/// edges are followed whose label begins with neither `ρ` nor `σ`; `None`
/// where it fails.
pub uninterp spec fn sodg_sliced(
    vertices: Map<u32, (Seq<(Seq<char>, u32)>, Seq<u8>)>,
    loc: Seq<char>,
) -> Option<Map<u32, (Seq<(Seq<char>, u32)>, Seq<u8>)>>;

/// `Sodg::slice_some`: a graph of the vertices that can be reached from
/// the one that the locator leads to, by the edges that the closure lets
/// pass. What it holds depends on the vertices and the locator alone.
#[verifier::external_body]
pub(crate) fn sodg_slice(g: &Sodg, loc: &str) -> (r: Option<Sodg>)
    ensures
        match r {
            Some(part) => sodg_sliced(sodg_vertices(*g), loc@) == Some(sodg_vertices(part)),
            None => sodg_sliced(sodg_vertices(*g), loc@) is None,
        },
{
    g.slice_some(loc, |_from, _to, a| followed(a.as_str())).ok()
}

} // verus!
