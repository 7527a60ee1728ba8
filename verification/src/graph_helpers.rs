//! The rate graph and the update processor.
//!
//! Vertices are (exchange, currency) pairs, created lazily and never removed;
//! their indices are stable for the life of the process. At most one directed
//! edge exists per ordered pair of vertex indices; an edge carries an exact
//! rational rate and the timestamp of the quote that set it. Incoming price
//! updates add missing vertices, lay bidirectional rate-1 "bridge" edges
//! between vertices that share a currency (including the self-loop), and
//! apply freshness-gated updates to the quoted pair of edges.

use vstd::prelude::*;
use vstd::string::StringExecFns;

use crate::datetime_helpers::{is_more_recent, Timestamp};
use crate::petgraph_specs::{
    pg_add_node, pg_edges, pg_find_edge, pg_new, pg_node_count, pg_nodes, pg_update_edge,
    GraphStore,
};
use crate::rational::{rat_wf, Rational};
use crate::{price_update_wf, Edge, PriceUpdate, Vertex};

verus! {

/// The display label of a vertex: `exchange, currency`.
pub open spec fn vertex_label(v: Vertex) -> Seq<char> {
    v.exchange@ + ", "@ + v.currency@
}

/// Some vertex in `vs` has key `k`.
pub open spec fn has_vertex_key(vs: Seq<Vertex>, k: (Seq<char>, Seq<char>)) -> bool {
    exists|i: int| 0 <= i < vs.len() && (#[trigger] vs[i]).key() == k
}

/// The index of the vertex with key `k` (unique when `vertices_unique`).
pub open spec fn vertex_index_of(vs: Seq<Vertex>, k: (Seq<char>, Seq<char>)) -> int {
    choose|i: int| 0 <= i < vs.len() && (#[trigger] vs[i]).key() == k
}

/// No two vertices share a key.
pub open spec fn vertices_unique(vs: Seq<Vertex>) -> bool {
    forall|i: int, j: int|
        0 <= i < j < vs.len() ==> (#[trigger] vs[i]).key() != (#[trigger] vs[j]).key()
}

/// Some edge in `es` goes from vertex index `a` to vertex index `b`.
pub open spec fn has_edge(es: Seq<Edge>, a: int, b: int) -> bool {
    exists|i: int|
        0 <= i < es.len() && (#[trigger] es[i]).source_index == a && es[i].dest_index == b
}

/// The position of the edge from `a` to `b` (unique when `edges_unique`).
pub open spec fn edge_index_of(es: Seq<Edge>, a: int, b: int) -> int {
    choose|i: int|
        0 <= i < es.len() && (#[trigger] es[i]).source_index == a && es[i].dest_index == b
}

/// The edge from `a` to `b` (meaningful when `has_edge(es, a, b)`).
pub open spec fn edge_at(es: Seq<Edge>, a: int, b: int) -> Edge {
    es[edge_index_of(es, a, b)]
}

/// No two edges share an ordered endpoint pair.
pub open spec fn edges_unique(es: Seq<Edge>) -> bool {
    forall|i: int, j: int|
        0 <= i < j < es.len() ==> !((#[trigger] es[i]).source_index == (
        #[trigger] es[j]).source_index && es[i].dest_index == es[j].dest_index)
}

/// With unique pairs, any edge at (a, b) is the edge `edge_at` denotes.
pub proof fn lemma_edge_index_unique(es: Seq<Edge>, a: int, b: int, i: int)
    requires
        edges_unique(es),
        0 <= i < es.len(),
        es[i].source_index == a,
        es[i].dest_index == b,
    ensures
        has_edge(es, a, b),
        edge_index_of(es, a, b) == i,
        edge_at(es, a, b) == es[i],
{
    assert(has_edge(es, a, b));
    let j = edge_index_of(es, a, b);
    if i < j {
        assert(!(es[i].source_index == es[j].source_index && es[i].dest_index
            == es[j].dest_index));
    } else if j < i {
        assert(!(es[j].source_index == es[i].source_index && es[j].dest_index
            == es[i].dest_index));
    }
}

/// With unique keys, any vertex with key `k` sits where `vertex_index_of`
/// says.
pub proof fn lemma_vertex_index_unique(vs: Seq<Vertex>, k: (Seq<char>, Seq<char>), i: int)
    requires
        vertices_unique(vs),
        0 <= i < vs.len(),
        vs[i].key() == k,
    ensures
        has_vertex_key(vs, k),
        vertex_index_of(vs, k) == i,
{
    assert(has_vertex_key(vs, k));
    let j = vertex_index_of(vs, k);
    if i < j {
        assert(vs[i].key() != vs[j].key());
    } else if j < i {
        assert(vs[j].key() != vs[i].key());
    }
}

/// The rate graph: the vertex registry, the edge registry, and the petgraph
/// store mirroring them. Owned by the processing loop for the whole run.
pub struct RateGraph {
    pub graph: GraphStore,
    pub vertex_data: Vec<Vertex>,
    pub edge_data: Vec<Edge>,
}

impl RateGraph {
    /// Well-formedness: registries and store agree, vertex keys and edge
    /// pairs are unique, endpoints are in range, rates are positive.
    pub open spec fn wf(self) -> bool {
        &&& pg_nodes(self.graph).len() == self.vertex_data@.len()
        &&& (forall|i: int|
            0 <= i < self.vertex_data@.len() ==> pg_nodes(self.graph)[i] == vertex_label(
                #[trigger] self.vertex_data@[i],
            ))
        &&& vertices_unique(self.vertex_data@)
        &&& pg_edges(self.graph).len() == self.edge_data@.len()
        &&& (forall|i: int|
            0 <= i < self.edge_data@.len() ==> pg_edges(self.graph)[i] == ((
                (#[trigger] self.edge_data@[i]).source_index as int,
                self.edge_data@[i].dest_index as int,
            ), (self.edge_data@[i].rate.num, self.edge_data@[i].rate.den)))
        &&& (forall|i: int|
            0 <= i < self.edge_data@.len() ==> (#[trigger] self.edge_data@[i]).source_index
                < self.vertex_data@.len() && self.edge_data@[i].dest_index
                < self.vertex_data@.len() && rat_wf(self.edge_data@[i].rate)
                && self.edge_data@[i].rate.num > 0)
        &&& edges_unique(self.edge_data@)
    }

    /// An empty rate graph.
    pub fn new() -> (r: RateGraph)
        ensures
            r.wf(),
            r.vertex_data@.len() == 0,
            r.edge_data@.len() == 0,
    {
        RateGraph { graph: pg_new(), vertex_data: Vec::new(), edge_data: Vec::new() }
    }

    /// The number of vertices seen so far.
    pub fn vertex_count(&self) -> (r: usize)
        requires
            self.wf(),
        ensures
            r == self.vertex_data@.len(),
    {
        pg_node_count(&self.graph)
    }

    /// The vertex at a given stable index.
    pub fn vertex_at(&self, i: usize) -> (r: Option<&Vertex>)
        ensures
            i < self.vertex_data@.len() ==> r == Some(&self.vertex_data@[i as int]),
            i >= self.vertex_data@.len() ==> r is None,
    {
        if i < self.vertex_data.len() {
            Some(&self.vertex_data[i])
        } else {
            None
        }
    }

    /// Returns the index of the vertex with `v`'s key, adding the vertex (and
    /// its node in the store) first when it is absent. Idempotent.
    pub fn add_vertex_if_absent(&mut self, v: &Vertex) -> (r: usize)
        requires
            old(self).wf(),
        ensures
            final(self).wf(),
            final(self).edge_data@ == old(self).edge_data@,
            r < final(self).vertex_data@.len(),
            final(self).vertex_data@[r as int].key() == v.key(),
            has_vertex_key(old(self).vertex_data@, v.key()) ==> *final(self) == *old(self),
            !has_vertex_key(old(self).vertex_data@, v.key()) ==> {
                &&& final(self).vertex_data@.len() == old(self).vertex_data@.len() + 1
                &&& r == old(self).vertex_data@.len()
                &&& forall|i: int|
                    0 <= i < old(self).vertex_data@.len() ==> final(self).vertex_data@[i] == old(
                        self,
                    ).vertex_data@[i]
            },
    {
        match get_index_from_node(v, self) {
            Some(i) => i,
            None => {
                let label = vertex_string_format(v);
                let idx = pg_add_node(&mut self.graph, label);
                self.vertex_data.push(v.clone());
                proof {
                    assert forall|i: int, j: int|
                        0 <= i < j < self.vertex_data@.len() implies (
                    #[trigger] self.vertex_data@[i]).key() != (#[trigger] self.vertex_data@[j]).key() by {
                        if j == self.vertex_data@.len() - 1 {
                            assert(!has_vertex_key(old(self).vertex_data@, v.key()));
                            assert(old(self).vertex_data@[i].key() != v.key());
                        }
                    }
                }
                idx
            },
        }
    }

    /// Lookup by ordered pair of vertex indices; `None` means no arc exists.
    pub fn find_edge(&self, src_index: usize, dst_index: usize) -> (r: Option<Edge>)
        requires
            self.wf(),
        ensures
            match r {
                Some(e) => has_edge(self.edge_data@, src_index as int, dst_index as int) && e
                    == edge_at(self.edge_data@, src_index as int, dst_index as int)
                    && e.source_index == src_index && e.dest_index == dst_index,
                None => !has_edge(self.edge_data@, src_index as int, dst_index as int),
            },
    {
        match pg_find_edge(&self.graph, src_index, dst_index) {
            Some(e) => {
                proof {
                    lemma_edge_index_unique(
                        self.edge_data@,
                        src_index as int,
                        dst_index as int,
                        e as int,
                    );
                }
                Some(self.edge_data[e])
            },
            None => {
                proof {
                    if has_edge(self.edge_data@, src_index as int, dst_index as int) {
                        let i = edge_index_of(self.edge_data@, src_index as int, dst_index as int);
                        assert(pg_edges(self.graph)[i].0 == (src_index as int, dst_index as int));
                    }
                }
                None
            },
        }
    }

    /// Creates the edge from `src_index` to `dst_index`, or overwrites its
    /// rate and timestamp unconditionally when it exists; the freshness gate
    /// is the caller's responsibility.
    pub fn upsert_edge(
        &mut self,
        src_index: usize,
        dst_index: usize,
        rate: Rational,
        timestamp: Timestamp,
    )
        requires
            old(self).wf(),
            src_index < old(self).vertex_data@.len(),
            dst_index < old(self).vertex_data@.len(),
            rat_wf(rate),
            rate.num > 0,
        ensures
            final(self).wf(),
            final(self).vertex_data@ == old(self).vertex_data@,
            final(self).edge_data@ == upserted(
                old(self).edge_data@,
                src_index,
                dst_index,
                rate,
                timestamp,
            ),
    {
        let new_edge = Edge { source_index: src_index, dest_index: dst_index, rate, timestamp };
        match pg_find_edge(&self.graph, src_index, dst_index) {
            Some(e) => {
                proof {
                    lemma_edge_index_unique(
                        self.edge_data@,
                        src_index as int,
                        dst_index as int,
                        e as int,
                    );
                }
                let k = pg_update_edge(&mut self.graph, src_index, dst_index, (rate.num, rate.den));
                proof {
                    assert(self.edge_data@[k as int].source_index == src_index
                        && self.edge_data@[k as int].dest_index == dst_index);
                    lemma_edge_index_unique(
                        self.edge_data@,
                        src_index as int,
                        dst_index as int,
                        k as int,
                    );
                }
                self.edge_data[e] = new_edge;
            },
            None => {
                proof {
                    if has_edge(self.edge_data@, src_index as int, dst_index as int) {
                        let i = edge_index_of(self.edge_data@, src_index as int, dst_index as int);
                        assert(pg_edges(self.graph)[i].0 == (src_index as int, dst_index as int));
                    }
                }
                let _ = pg_update_edge(&mut self.graph, src_index, dst_index, (rate.num, rate.den));
                self.edge_data.push(new_edge);
            },
        }
    }
}

/// The edge registry after an unconditional upsert of the edge `a -> b`.
pub open spec fn upserted(
    es: Seq<Edge>,
    a: usize,
    b: usize,
    rate: Rational,
    ts: Timestamp,
) -> Seq<Edge> {
    let e = Edge { source_index: a, dest_index: b, rate, timestamp: ts };
    if has_edge(es, a as int, b as int) {
        es.update(edge_index_of(es, a as int, b as int), e)
    } else {
        es.push(e)
    }
}

/// The edge registry after a freshness-gated upsert of the edge `a -> b`:
/// a missing edge is created with the update's rate and timestamp; an
/// existing one is overwritten only when the update is strictly newer, and an
/// equally old or older update is discarded.
pub open spec fn gated_upsert(
    es: Seq<Edge>,
    a: usize,
    b: usize,
    rate: Rational,
    ts: Timestamp,
) -> Seq<Edge> {
    let e = Edge { source_index: a, dest_index: b, rate, timestamp: ts };
    if has_edge(es, a as int, b as int) {
        let i = edge_index_of(es, a as int, b as int);
        if ts.nanos > es[i].timestamp.nanos {
            es.update(i, e)
        } else {
            es
        }
    } else {
        es.push(e)
    }
}

/// A gated upsert with a timestamp no newer than the stored one changes
/// nothing.
pub proof fn lemma_gated_upsert_stale(es: Seq<Edge>, a: usize, b: usize, rate: Rational, ts: Timestamp)
    requires
        has_edge(es, a as int, b as int),
        ts.nanos <= edge_at(es, a as int, b as int).timestamp.nanos,
    ensures
        gated_upsert(es, a, b, rate, ts) == es,
{
}

/// A gated upsert with a strictly newer timestamp replaces both rate and
/// timestamp of the stored edge, and nothing else.
pub proof fn lemma_gated_upsert_fresh(es: Seq<Edge>, a: usize, b: usize, rate: Rational, ts: Timestamp)
    requires
        edges_unique(es),
        has_edge(es, a as int, b as int),
        ts.nanos > edge_at(es, a as int, b as int).timestamp.nanos,
    ensures
        gated_upsert(es, a, b, rate, ts) == es.update(
            edge_index_of(es, a as int, b as int),
            Edge { source_index: a, dest_index: b, rate, timestamp: ts },
        ),
        has_edge(gated_upsert(es, a, b, rate, ts), a as int, b as int),
        edge_at(gated_upsert(es, a, b, rate, ts), a as int, b as int) == (Edge {
            source_index: a,
            dest_index: b,
            rate,
            timestamp: ts,
        }),
{
    let i = edge_index_of(es, a as int, b as int);
    let es2 = gated_upsert(es, a, b, rate, ts);
    assert forall|p: int, q: int| 0 <= p < q < es2.len() implies !((#[trigger] es2[p]).source_index
        == (#[trigger] es2[q]).source_index && es2[p].dest_index == es2[q].dest_index) by {
        assert(es2[p].source_index == es[p].source_index && es2[p].dest_index == es[p].dest_index);
        assert(es2[q].source_index == es[q].source_index && es2[q].dest_index == es[q].dest_index);
    }
    lemma_edge_index_unique(es2, a as int, b as int, i);
}

/// A gated upsert touches no edge off the ordered pair (a, b): every
/// pre-existing index keeps its endpoint pair, and keeps its whole value
/// unless its pair is exactly (a, b).
pub proof fn lemma_gated_upsert_frame(es: Seq<Edge>, a: usize, b: usize, rate: Rational, ts: Timestamp)
    ensures
        es.len() <= gated_upsert(es, a, b, rate, ts).len(),
        forall|i: int|
            0 <= i < es.len() ==> ((#[trigger] gated_upsert(es, a, b, rate, ts)[i]).source_index
                == es[i].source_index && gated_upsert(es, a, b, rate, ts)[i].dest_index
                == es[i].dest_index),
        forall|i: int|
            0 <= i < es.len() && !((#[trigger] es[i]).source_index == a && es[i].dest_index == b)
                ==> gated_upsert(es, a, b, rate, ts)[i] == es[i],
{
}

/// A gated upsert makes the edge (a, b) present and leaves the presence of
/// every other pair as it was.
pub proof fn lemma_gated_upsert_has_edge(es: Seq<Edge>, a: usize, b: usize, rate: Rational, ts: Timestamp)
    ensures
        forall|x: int, y: int|
            #[trigger] has_edge(gated_upsert(es, a, b, rate, ts), x, y) <==> (has_edge(es, x, y)
                || (x == a as int && y == b as int)),
{
    let es2 = gated_upsert(es, a, b, rate, ts);
    assert forall|x: int, y: int| #[trigger] has_edge(es2, x, y) implies (has_edge(es, x, y) || (x
        == a as int && y == b as int)) by {
        let i = choose|i: int|
            0 <= i < es2.len() && (#[trigger] es2[i]).source_index == x && es2[i].dest_index == y;
        if i < es.len() {
            assert(es[i].source_index == x && es[i].dest_index == y || (x == a as int && y
                == b as int));
        }
    }
    assert forall|x: int, y: int| (has_edge(es, x, y) || (x == a as int && y
        == b as int)) implies #[trigger] has_edge(es2, x, y) by {
        if has_edge(es, x, y) {
            let i = edge_index_of(es, x, y);
            assert(es2[i].source_index == x && es2[i].dest_index == y);
        } else {
            if has_edge(es, a as int, b as int) {
                let i = edge_index_of(es, a as int, b as int);
                assert(es2[i].source_index == a as int && es2[i].dest_index == b as int);
            } else {
                assert(es2[es.len() as int].source_index == a as int && es2[es.len() as int].dest_index
                    == b as int);
            }
        }
    }
}

/// Presence of an edge carries over to any extension that keeps the prefix.
pub proof fn lemma_has_edge_prefix(es: Seq<Edge>, es2: Seq<Edge>)
    requires
        es.len() <= es2.len(),
        forall|i: int| 0 <= i < es.len() ==> es2[i] == es[i],
    ensures
        forall|a: int, b: int| #[trigger] has_edge(es, a, b) ==> has_edge(es2, a, b),
{
    assert forall|a: int, b: int| #[trigger] has_edge(es, a, b) implies has_edge(es2, a, b) by {
        let i = edge_index_of(es, a, b);
        assert(es2[i].source_index == a && es2[i].dest_index == b);
    }
}

/// Looking an edge up by its pair gives the same edge in any extension that
/// keeps the prefix, as long as pairs stay unique.
pub proof fn lemma_edge_at_prefix(es: Seq<Edge>, es2: Seq<Edge>, a: int, b: int)
    requires
        es.len() <= es2.len(),
        forall|i: int| 0 <= i < es.len() ==> es2[i] == es[i],
        edges_unique(es2),
        has_edge(es, a, b),
    ensures
        has_edge(es2, a, b),
        edge_at(es2, a, b) == edge_at(es, a, b),
{
    let i = edge_index_of(es, a, b);
    lemma_edge_index_unique(es2, a, b, i);
}

/// A gated upsert keeps endpoint pairs unique.
pub proof fn lemma_gated_upsert_unique(es: Seq<Edge>, a: usize, b: usize, rate: Rational, ts: Timestamp)
    requires
        edges_unique(es),
    ensures
        edges_unique(gated_upsert(es, a, b, rate, ts)),
{
    let es2 = gated_upsert(es, a, b, rate, ts);
    assert forall|p: int, q: int| 0 <= p < q < es2.len() implies !((#[trigger] es2[p]).source_index
        == (#[trigger] es2[q]).source_index && es2[p].dest_index == es2[q].dest_index) by {
        if q < es.len() {
            assert(es2[p].source_index == es[p].source_index && es2[p].dest_index
                == es[p].dest_index);
            assert(es2[q].source_index == es[q].source_index && es2[q].dest_index
                == es[q].dest_index);
        } else {
            assert(!has_edge(es, a as int, b as int));
            assert(es[p].source_index != a as int || es[p].dest_index != b as int);
        }
    }
}

/// Lays the quoted pair of edges between the update's two vertices: each
/// direction is created when absent, and overwritten by the update's factor
/// only when the update's timestamp is strictly newer than the stored one
/// (an equally old or older quote is discarded; the two directions are gated
/// independently).
pub fn process_edges_between_two_nodes(
    source_node_index: usize,
    dest_node_index: usize,
    incoming_price_update: &PriceUpdate,
    graph: &mut RateGraph,
)
    requires
        old(graph).wf(),
        source_node_index < old(graph).vertex_data@.len(),
        dest_node_index < old(graph).vertex_data@.len(),
        price_update_wf(*incoming_price_update),
    ensures
        final(graph).wf(),
        final(graph).vertex_data@ == old(graph).vertex_data@,
        final(graph).edge_data@ == gated_upsert(
            gated_upsert(
                old(graph).edge_data@,
                source_node_index,
                dest_node_index,
                incoming_price_update.forward_factor,
                incoming_price_update.timestamp,
            ),
            dest_node_index,
            source_node_index,
            incoming_price_update.backward_factor,
            incoming_price_update.timestamp,
        ),
{
    match graph.find_edge(source_node_index, dest_node_index) {
        None => {
            graph.upsert_edge(
                source_node_index,
                dest_node_index,
                incoming_price_update.forward_factor,
                incoming_price_update.timestamp,
            );
        },
        Some(e_curr) => {
            if is_more_recent(incoming_price_update.timestamp, e_curr.timestamp) {
                graph.upsert_edge(
                    source_node_index,
                    dest_node_index,
                    incoming_price_update.forward_factor,
                    incoming_price_update.timestamp,
                );
            }
        },
    }
    match graph.find_edge(dest_node_index, source_node_index) {
        None => {
            graph.upsert_edge(
                dest_node_index,
                source_node_index,
                incoming_price_update.backward_factor,
                incoming_price_update.timestamp,
            );
        },
        Some(e_curr) => {
            if is_more_recent(incoming_price_update.timestamp, e_curr.timestamp) {
                graph.upsert_edge(
                    dest_node_index,
                    source_node_index,
                    incoming_price_update.backward_factor,
                    incoming_price_update.timestamp,
                );
            }
        },
    }
}

/// A bridge edge laid for currency `cur` around vertex index `vi`: rate
/// exactly 1, the incoming update's timestamp, one endpoint at `vi`, and both
/// endpoints holding `cur`.
pub open spec fn is_bridge_edge(
    e: Edge,
    vs: Seq<Vertex>,
    vi: int,
    cur: Seq<char>,
    ts: Timestamp,
) -> bool {
    &&& e.rate == (Rational { num: 1, den: 1 })
    &&& e.timestamp == ts
    &&& (e.source_index == vi || e.dest_index == vi)
    &&& e.source_index < vs.len() && e.dest_index < vs.len()
    &&& vs[e.source_index as int].currency@ == cur
    &&& vs[e.dest_index as int].currency@ == cur
}

/// Lays bridge edges around the vertex with `vertex`'s key: for every vertex
/// sharing its currency (itself included, giving the rate-1 self-loop), both
/// directions of a rate-1 edge are created where absent; edges that already
/// exist are never overwritten, since a 1:1 conversion never changes. A
/// vertex the graph has never seen gets no edges: the graph is returned
/// unchanged.
pub fn process_edges_same_currency(
    vertex: &Vertex,
    incoming_price_update: &PriceUpdate,
    graph: &mut RateGraph,
)
    requires
        old(graph).wf(),
    ensures
        final(graph).wf(),
        final(graph).vertex_data@ == old(graph).vertex_data@,
        old(graph).edge_data@.len() <= final(graph).edge_data@.len(),
        forall|i: int|
            0 <= i < old(graph).edge_data@.len() ==> final(graph).edge_data@[i] == old(
                graph,
            ).edge_data@[i],
        !has_vertex_key(old(graph).vertex_data@, vertex.key()) ==> *final(graph) == *old(graph),
        forall|i: int|
            old(graph).edge_data@.len() <= i < final(graph).edge_data@.len() ==> is_bridge_edge(
                #[trigger] final(graph).edge_data@[i],
                old(graph).vertex_data@,
                vertex_index_of(old(graph).vertex_data@, vertex.key()),
                vertex.key().1,
                incoming_price_update.timestamp,
            ),
        has_vertex_key(old(graph).vertex_data@, vertex.key()) ==> forall|k: int|
            0 <= k < final(graph).vertex_data@.len()
                && (#[trigger] final(graph).vertex_data@[k]).currency@ == vertex.key().1
                ==> has_edge(
                final(graph).edge_data@,
                k,
                vertex_index_of(old(graph).vertex_data@, vertex.key()),
            ) && has_edge(
                final(graph).edge_data@,
                vertex_index_of(old(graph).vertex_data@, vertex.key()),
                k,
            ),
{
    let dest_index = match get_index_from_node(vertex, graph) {
        Some(i) => i,
        None => {
            return ;
        },
    };
    proof {
        lemma_vertex_index_unique(graph.vertex_data@, vertex.key(), dest_index as int);
    }
    let n = graph.vertex_data.len();
    let one = Rational::one();
    let mut index: usize = 0;
    while index < n
        invariant
            graph.wf(),
            graph.vertex_data@ == old(graph).vertex_data@,
            n == graph.vertex_data@.len(),
            index <= n,
            dest_index < n,
            dest_index == vertex_index_of(old(graph).vertex_data@, vertex.key()),
            graph.vertex_data@[dest_index as int].key() == vertex.key(),
            one == (Rational { num: 1, den: 1 }),
            old(graph).edge_data@.len() <= graph.edge_data@.len(),
            forall|i: int|
                0 <= i < old(graph).edge_data@.len() ==> graph.edge_data@[i] == old(
                    graph,
                ).edge_data@[i],
            forall|i: int|
                old(graph).edge_data@.len() <= i < graph.edge_data@.len() ==> is_bridge_edge(
                    #[trigger] graph.edge_data@[i],
                    old(graph).vertex_data@,
                    dest_index as int,
                    vertex.key().1,
                    incoming_price_update.timestamp,
                ),
            forall|k: int|
                0 <= k < index && (#[trigger] graph.vertex_data@[k]).currency@ == vertex.key().1
                    ==> has_edge(graph.edge_data@, k, dest_index as int) && has_edge(
                    graph.edge_data@,
                    dest_index as int,
                    k,
                ),
        decreases n - index,
    {
        let same_currency = graph.vertex_data[index].currency == vertex.currency;
        if same_currency {
            let ghost pre = graph.edge_data@;
            match graph.find_edge(index, dest_index) {
                None => {
                    graph.upsert_edge(index, dest_index, one, incoming_price_update.timestamp);
                    proof {
                        let w = pre.len() as int;
                        assert(graph.edge_data@[w].source_index == index as int
                            && graph.edge_data@[w].dest_index == dest_index as int);
                        assert(has_edge(graph.edge_data@, index as int, dest_index as int));
                    }
                },
                Some(_) => {
                    proof {
                        assert(has_edge(graph.edge_data@, index as int, dest_index as int));
                    }
                },
            }
            let ghost mid = graph.edge_data@;
            match graph.find_edge(dest_index, index) {
                None => {
                    graph.upsert_edge(dest_index, index, one, incoming_price_update.timestamp);
                    proof {
                        let w = mid.len() as int;
                        assert(graph.edge_data@[w].source_index == dest_index as int
                            && graph.edge_data@[w].dest_index == index as int);
                        assert(has_edge(graph.edge_data@, dest_index as int, index as int));
                    }
                },
                Some(_) => {
                    proof {
                        assert(has_edge(graph.edge_data@, dest_index as int, index as int));
                    }
                },
            }
            proof {
                lemma_has_edge_prefix(mid, graph.edge_data@);
                lemma_has_edge_prefix(pre, graph.edge_data@);
            }
        }
        index += 1;
    }
}

/// The key of the update's source vertex: its exchange and source currency.
pub open spec fn update_source_key(u: PriceUpdate) -> (Seq<char>, Seq<char>) {
    (u.exchange@, u.source_currency@)
}

/// The key of the update's destination vertex: its exchange and destination
/// currency.
pub open spec fn update_dest_key(u: PriceUpdate) -> (Seq<char>, Seq<char>) {
    (u.exchange@, u.destination_currency@)
}

/// Applies one price update to the graph: ensures the two quoted vertices
/// exist, lays rate-1 bridge edges (self-loops included) for both currencies
/// without ever overwriting an existing edge, and then applies the
/// freshness-gated update to the quoted pair of edges, each direction gated
/// independently. Pre-existing edges off the quoted ordered pairs are left
/// exactly as they were.
#[verifier::rlimit(60)]
pub fn apply_price_update(incoming_price_update: &PriceUpdate, graph: &mut RateGraph)
    requires
        old(graph).wf(),
        price_update_wf(*incoming_price_update),
    ensures
        final(graph).wf(),
        old(graph).vertex_data@.len() <= final(graph).vertex_data@.len(),
        forall|i: int|
            0 <= i < old(graph).vertex_data@.len() ==> final(graph).vertex_data@[i] == old(
                graph,
            ).vertex_data@[i],
        has_vertex_key(final(graph).vertex_data@, update_source_key(*incoming_price_update)),
        has_vertex_key(final(graph).vertex_data@, update_dest_key(*incoming_price_update)),
        old(graph).edge_data@.len() <= final(graph).edge_data@.len(),
        forall|i: int|
            0 <= i < old(graph).edge_data@.len()
                ==> (#[trigger] final(graph).edge_data@[i]).source_index
                == old(graph).edge_data@[i].source_index
                && final(graph).edge_data@[i].dest_index
                == old(graph).edge_data@[i].dest_index,
        ({
            let vs = vertex_index_of(
                final(graph).vertex_data@,
                update_source_key(*incoming_price_update),
            );
            let vd = vertex_index_of(
                final(graph).vertex_data@,
                update_dest_key(*incoming_price_update),
            );
            forall|i: int|
                0 <= i < old(graph).edge_data@.len() && !((#[trigger] old(
                    graph,
                ).edge_data@[i]).source_index == vs && old(graph).edge_data@[i].dest_index == vd)
                    && !(old(graph).edge_data@[i].source_index == vd && old(
                    graph,
                ).edge_data@[i].dest_index == vs) ==> final(graph).edge_data@[i] == old(
                    graph,
                ).edge_data@[i]
        }),
        ({
            let vs = vertex_index_of(
                final(graph).vertex_data@,
                update_source_key(*incoming_price_update),
            );
            let vd = vertex_index_of(
                final(graph).vertex_data@,
                update_dest_key(*incoming_price_update),
            );
            has_edge(old(graph).edge_data@, vs, vd) ==> {
                let eo = edge_at(old(graph).edge_data@, vs, vd);
                let en = edge_at(final(graph).edge_data@, vs, vd);
                &&& (incoming_price_update.timestamp.nanos > eo.timestamp.nanos ==> en.rate
                    == incoming_price_update.forward_factor && en.timestamp
                    == incoming_price_update.timestamp)
                &&& (incoming_price_update.timestamp.nanos <= eo.timestamp.nanos ==> en == eo)
            }
        }),
        ({
            let vs = vertex_index_of(
                final(graph).vertex_data@,
                update_source_key(*incoming_price_update),
            );
            let vd = vertex_index_of(
                final(graph).vertex_data@,
                update_dest_key(*incoming_price_update),
            );
            vs != vd && has_edge(old(graph).edge_data@, vd, vs) ==> {
                let eo = edge_at(old(graph).edge_data@, vd, vs);
                let en = edge_at(final(graph).edge_data@, vd, vs);
                &&& (incoming_price_update.timestamp.nanos > eo.timestamp.nanos ==> en.rate
                    == incoming_price_update.backward_factor && en.timestamp
                    == incoming_price_update.timestamp)
                &&& (incoming_price_update.timestamp.nanos <= eo.timestamp.nanos ==> en == eo)
            }
        }),
        ({
            let vs = vertex_index_of(
                final(graph).vertex_data@,
                update_source_key(*incoming_price_update),
            );
            let vd = vertex_index_of(
                final(graph).vertex_data@,
                update_dest_key(*incoming_price_update),
            );
            has_edge(final(graph).edge_data@, vs, vd) && has_edge(final(graph).edge_data@, vd, vs)
        }),
        ({
            let vs = vertex_index_of(
                final(graph).vertex_data@,
                update_source_key(*incoming_price_update),
            );
            let vd = vertex_index_of(
                final(graph).vertex_data@,
                update_dest_key(*incoming_price_update),
            );
            incoming_price_update.source_currency@ != incoming_price_update.destination_currency@
                && !has_edge(old(graph).edge_data@, vs, vd) ==> edge_at(
                final(graph).edge_data@,
                vs,
                vd,
            ) == (Edge {
                source_index: vs as usize,
                dest_index: vd as usize,
                rate: incoming_price_update.forward_factor,
                timestamp: incoming_price_update.timestamp,
            })
        }),
        ({
            let vs = vertex_index_of(
                final(graph).vertex_data@,
                update_source_key(*incoming_price_update),
            );
            let vd = vertex_index_of(
                final(graph).vertex_data@,
                update_dest_key(*incoming_price_update),
            );
            incoming_price_update.source_currency@ != incoming_price_update.destination_currency@
                && !has_edge(old(graph).edge_data@, vd, vs) ==> edge_at(
                final(graph).edge_data@,
                vd,
                vs,
            ) == (Edge {
                source_index: vd as usize,
                dest_index: vs as usize,
                rate: incoming_price_update.backward_factor,
                timestamp: incoming_price_update.timestamp,
            })
        }),
        ({
            let vs = vertex_index_of(
                final(graph).vertex_data@,
                update_source_key(*incoming_price_update),
            );
            incoming_price_update.source_currency@ == incoming_price_update.destination_currency@
                && !has_edge(old(graph).edge_data@, vs, vs) ==> edge_at(
                final(graph).edge_data@,
                vs,
                vs,
            ) == (Edge {
                source_index: vs as usize,
                dest_index: vs as usize,
                rate: Rational { num: 1, den: 1 },
                timestamp: incoming_price_update.timestamp,
            })
        }),
        ({
            let vs = vertex_index_of(
                final(graph).vertex_data@,
                update_source_key(*incoming_price_update),
            );
            let vd = vertex_index_of(
                final(graph).vertex_data@,
                update_dest_key(*incoming_price_update),
            );
            forall|i: int|
                old(graph).edge_data@.len() <= i < final(graph).edge_data@.len() ==> {
                    let e = #[trigger] final(graph).edge_data@[i];
                    e.timestamp == incoming_price_update.timestamp && (e.rate == (Rational {
                        num: 1,
                        den: 1,
                    }) || (e.source_index == vs && e.dest_index == vd && e.rate
                        == incoming_price_update.forward_factor) || (e.source_index == vd
                        && e.dest_index == vs && e.rate == incoming_price_update.backward_factor))
                }
        }),
        ({
            let vs = vertex_index_of(
                final(graph).vertex_data@,
                update_source_key(*incoming_price_update),
            );
            forall|k: int|
                0 <= k < final(graph).vertex_data@.len()
                    && (#[trigger] final(graph).vertex_data@[k]).currency@
                    == incoming_price_update.source_currency@ ==> has_edge(
                    final(graph).edge_data@,
                    k,
                    vs,
                ) && has_edge(final(graph).edge_data@, vs, k)
        }),
        ({
            let vd = vertex_index_of(
                final(graph).vertex_data@,
                update_dest_key(*incoming_price_update),
            );
            forall|k: int|
                0 <= k < final(graph).vertex_data@.len()
                    && (#[trigger] final(graph).vertex_data@[k]).currency@
                    == incoming_price_update.destination_currency@ ==> has_edge(
                    final(graph).edge_data@,
                    k,
                    vd,
                ) && has_edge(final(graph).edge_data@, vd, k)
        }),
{
    let ghost e0 = old(graph).edge_data@;
    let vertex_source = Vertex {
        exchange: incoming_price_update.exchange.clone(),
        currency: incoming_price_update.source_currency.clone(),
    };
    let vertex_destination = Vertex {
        exchange: incoming_price_update.exchange.clone(),
        currency: incoming_price_update.destination_currency.clone(),
    };
    let source_node_index = graph.add_vertex_if_absent(&vertex_source);
    let dest_node_index = graph.add_vertex_if_absent(&vertex_destination);
    proof {
        lemma_vertex_index_unique(graph.vertex_data@, vertex_source.key(), source_node_index as int);
        lemma_vertex_index_unique(
            graph.vertex_data@,
            vertex_destination.key(),
            dest_node_index as int,
        );
    }
    let ghost vstable = graph.vertex_data@;
    let ghost vs = source_node_index as int;
    let ghost vd = dest_node_index as int;

    process_edges_same_currency(&vertex_destination, incoming_price_update, graph);
    let ghost e1 = graph.edge_data@;
    process_edges_same_currency(&vertex_source, incoming_price_update, graph);
    let ghost e2 = graph.edge_data@;
    process_edges_between_two_nodes(
        source_node_index,
        dest_node_index,
        incoming_price_update,
        graph,
    );

    proof {
        let u = *incoming_price_update;
        let ts = u.timestamp;
        let f = u.forward_factor;
        let bk = u.backward_factor;
        let mid = gated_upsert(e2, source_node_index, dest_node_index, f, ts);
        let fin = graph.edge_data@;
        assert(fin == gated_upsert(mid, dest_node_index, source_node_index, bk, ts));
        assert(edges_unique(e2));
        lemma_gated_upsert_unique(e2, source_node_index, dest_node_index, f, ts);
        lemma_gated_upsert_frame(e2, source_node_index, dest_node_index, f, ts);
        lemma_gated_upsert_frame(mid, dest_node_index, source_node_index, bk, ts);
        lemma_gated_upsert_has_edge(e2, source_node_index, dest_node_index, f, ts);
        lemma_gated_upsert_has_edge(mid, dest_node_index, source_node_index, bk, ts);
        lemma_has_edge_prefix(e1, e2);
        lemma_has_edge_prefix(e0, e1);

        // The quoted keys resolve to the indices the adds returned.
        assert(vertex_index_of(vstable, update_source_key(u)) == vs);
        assert(vertex_index_of(vstable, update_dest_key(u)) == vd);

        // Freshness gate, forward direction.
        if has_edge(e0, vs, vd) {
            lemma_edge_at_prefix(e0, e2, vs, vd);
            let eo = edge_at(e0, vs, vd);
            let i0 = edge_index_of(e2, vs, vd);
            if ts.nanos > eo.timestamp.nanos {
                lemma_gated_upsert_fresh(e2, source_node_index, dest_node_index, f, ts);
                let en = Edge {
                    source_index: source_node_index,
                    dest_index: dest_node_index,
                    rate: f,
                    timestamp: ts,
                };
                if vs != vd {
                    let i1 = edge_index_of(mid, vs, vd);
                    assert(fin[i1] == mid[i1]);
                    lemma_edge_index_unique(fin, vs, vd, i1);
                } else {
                    lemma_gated_upsert_stale(mid, dest_node_index, source_node_index, bk, ts);
                }
            } else {
                lemma_gated_upsert_stale(e2, source_node_index, dest_node_index, f, ts);
                if vs != vd {
                    let i1 = edge_index_of(mid, vs, vd);
                    assert(fin[i1] == mid[i1]);
                    lemma_edge_index_unique(fin, vs, vd, i1);
                } else {
                    lemma_gated_upsert_stale(mid, dest_node_index, source_node_index, bk, ts);
                }
            }
        }
        // Creation of the quoted pair, where the two currencies differ (with
        // equal currencies the bridge pass owns the pair).
        if u.source_currency@ != u.destination_currency@ {
            assert(vstable[vs].key() == update_source_key(u));
            assert(vstable[vd].key() == update_dest_key(u));
            assert(vstable[vs].currency@ == u.source_currency@);
            assert(vstable[vd].currency@ == u.destination_currency@);
            assert(vs != vd);
            if !has_edge(e0, vs, vd) {
                assert(!has_edge(e2, vs, vd)) by {
                    if has_edge(e2, vs, vd) {
                        let ie = edge_index_of(e2, vs, vd);
                        assert(0 <= ie < e2.len() && e2[ie].source_index == vs
                            && e2[ie].dest_index == vd);
                        if ie < e0.len() {
                            assert(e2[ie] == e0[ie]);
                            assert(has_edge(e0, vs, vd));
                        } else if ie < e1.len() {
                            assert(is_bridge_edge(
                                e1[ie],
                                vstable,
                                vd,
                                u.destination_currency@,
                                ts,
                            ));
                            assert(vstable[vs].currency@ == u.destination_currency@);
                        } else {
                            assert(is_bridge_edge(e2[ie], vstable, vs, u.source_currency@, ts));
                            assert(vstable[vd].currency@ == u.source_currency@);
                        }
                    }
                }
                let en = Edge {
                    source_index: source_node_index,
                    dest_index: dest_node_index,
                    rate: f,
                    timestamp: ts,
                };
                assert(mid == e2.push(en));
                assert(mid[e2.len() as int] == en);
                lemma_edge_index_unique(mid, vs, vd, e2.len() as int);
                let i1 = edge_index_of(mid, vs, vd);
                assert(fin[i1] == mid[i1]);
                lemma_edge_index_unique(fin, vs, vd, i1);
            }
            if !has_edge(e0, vd, vs) {
                assert(!has_edge(e2, vd, vs)) by {
                    if has_edge(e2, vd, vs) {
                        let ie = edge_index_of(e2, vd, vs);
                        assert(0 <= ie < e2.len() && e2[ie].source_index == vd
                            && e2[ie].dest_index == vs);
                        if ie < e0.len() {
                            assert(e2[ie] == e0[ie]);
                            assert(has_edge(e0, vd, vs));
                        } else if ie < e1.len() {
                            assert(is_bridge_edge(
                                e1[ie],
                                vstable,
                                vd,
                                u.destination_currency@,
                                ts,
                            ));
                            assert(vstable[vs].currency@ == u.destination_currency@);
                        } else {
                            assert(is_bridge_edge(e2[ie], vstable, vs, u.source_currency@, ts));
                            assert(vstable[vd].currency@ == u.source_currency@);
                        }
                    }
                }
                assert(!has_edge(mid, vd, vs));
                let eb = Edge {
                    source_index: dest_node_index,
                    dest_index: source_node_index,
                    rate: bk,
                    timestamp: ts,
                };
                assert(fin == mid.push(eb));
                assert(fin[mid.len() as int] == eb);
                lemma_edge_index_unique(fin, vd, vs, mid.len() as int);
            }
        }
        // Every edge added by this update is a rate-1 bridge or one of the
        // quoted pair of edges, all carrying the update's timestamp.
        assert forall|i: int| e0.len() <= i < fin.len() implies ({
            let e = #[trigger] fin[i];
            e.timestamp == ts && (e.rate == (Rational { num: 1, den: 1 }) || (e.source_index == vs
                && e.dest_index == vd && e.rate == f) || (e.source_index == vd && e.dest_index
                == vs && e.rate == bk))
        }) by {
            if i < e2.len() {
                if i < e1.len() {
                    assert(is_bridge_edge(e1[i], vstable, vd, u.destination_currency@, ts));
                    assert(e2[i] == e1[i]);
                } else {
                    assert(is_bridge_edge(e2[i], vstable, vs, u.source_currency@, ts));
                }
                if e2[i].source_index == vs && e2[i].dest_index == vd {
                    lemma_edge_index_unique(e2, vs, vd, i);
                    lemma_gated_upsert_stale(e2, source_node_index, dest_node_index, f, ts);
                }
                assert(mid[i] == e2[i]);
                if mid[i].source_index == vd && mid[i].dest_index == vs {
                    lemma_edge_index_unique(mid, vd, vs, i);
                    lemma_gated_upsert_stale(mid, dest_node_index, source_node_index, bk, ts);
                }
                assert(fin[i] == mid[i]);
            } else if i < mid.len() {
                assert(!has_edge(e2, vs, vd));
                assert(vs != vd) by {
                    if vs == vd {
                        assert(vstable[vs].currency@ == u.source_currency@);
                        assert(has_edge(e2, vs, vs));
                    }
                }
                assert(mid == e2.push(
                    Edge {
                        source_index: source_node_index,
                        dest_index: dest_node_index,
                        rate: f,
                        timestamp: ts,
                    },
                ));
                assert(i == e2.len());
                assert(fin[i] == mid[i]);
            } else {
                assert(!has_edge(mid, vd, vs)) by {
                    if has_edge(mid, vd, vs) {
                        assert(fin.len() == mid.len());
                    }
                }
                assert(fin == mid.push(
                    Edge {
                        source_index: dest_node_index,
                        dest_index: source_node_index,
                        rate: bk,
                        timestamp: ts,
                    },
                ));
                assert(i == mid.len());
            }
        }
        // A same-currency quote leaves the self-loop at rate 1: the bridge
        // pass lays it first with the update's own timestamp, so the quoted
        // pair's gate sees an equally fresh edge and discards both factors.
        if u.source_currency@ == u.destination_currency@ && !has_edge(e0, vs, vs) {
            assert(update_source_key(u) == update_dest_key(u));
            assert(vs == vd);
            assert(vstable[vs].currency@ == u.source_currency@);
            assert(has_edge(e2, vs, vs));
            let ie = edge_index_of(e2, vs, vs);
            assert(0 <= ie < e2.len() && e2[ie].source_index == vs && e2[ie].dest_index == vs);
            assert(ie >= e0.len()) by {
                if ie < e0.len() {
                    assert(e2[ie] == e0[ie]);
                    assert(has_edge(e0, vs, vs));
                }
            }
            if ie < e1.len() {
                assert(is_bridge_edge(e1[ie], vstable, vd, u.destination_currency@, ts));
                assert(e2[ie] == e1[ie]);
            } else {
                assert(is_bridge_edge(e2[ie], vstable, vs, u.source_currency@, ts));
            }
            assert(e2[ie] == (Edge {
                source_index: source_node_index,
                dest_index: source_node_index,
                rate: Rational { num: 1, den: 1 },
                timestamp: ts,
            }));
            lemma_edge_index_unique(e2, vs, vs, ie);
            lemma_gated_upsert_stale(e2, source_node_index, dest_node_index, f, ts);
            lemma_gated_upsert_stale(mid, dest_node_index, source_node_index, bk, ts);
            assert(edge_at(fin, vs, vs) == e2[ie]);
        }
        // Freshness gate, backward direction (distinct ordered pair only).
        if vs != vd && has_edge(e0, vd, vs) {
            lemma_edge_at_prefix(e0, e2, vd, vs);
            let eo = edge_at(e0, vd, vs);
            let ib = edge_index_of(e2, vd, vs);
            assert(mid[ib] == e2[ib]);
            lemma_edge_index_unique(mid, vd, vs, ib);
            assert(edge_at(mid, vd, vs) == eo);
            if ts.nanos > eo.timestamp.nanos {
                lemma_gated_upsert_fresh(mid, dest_node_index, source_node_index, bk, ts);
            } else {
                lemma_gated_upsert_stale(mid, dest_node_index, source_node_index, bk, ts);
                lemma_edge_index_unique(fin, vd, vs, ib);
            }
        }
    }
}

/// Formats a vertex as `exchange, currency`, the node label used in the
/// store and in query output.
pub fn vertex_string_format(v: &Vertex) -> (r: String)
    ensures
        r@ == vertex_label(*v),
{
    let mut s = v.exchange.clone();
    s.append(", ");
    s.append(v.currency.as_str());
    s
}

/// The index of the vertex structurally equal to `v`, when the graph has it.
pub fn get_index_from_node(v: &Vertex, graph: &RateGraph) -> (r: Option<usize>)
    ensures
        match r {
            Some(i) => i < graph.vertex_data@.len() && graph.vertex_data@[i as int].key()
                == v.key(),
            None => !has_vertex_key(graph.vertex_data@, v.key()),
        },
{
    let n = graph.vertex_data.len();
    let mut i: usize = 0;
    while i < n
        invariant
            n == graph.vertex_data@.len(),
            i <= n,
            forall|k: int| 0 <= k < i ==> (#[trigger] graph.vertex_data@[k]).key() != v.key(),
        decreases n - i,
    {
        let cand = &graph.vertex_data[i];
        if cand.exchange == v.exchange && cand.currency == v.currency {
            return Some(i);
        }
        i += 1;
    }
    None
}

/// Whether a vertex structurally equal to `v` exists in the graph.
pub fn graph_contains(v: &Vertex, g: &RateGraph) -> (r: bool)
    ensures
        r == has_vertex_key(g.vertex_data@, v.key()),
{
    match get_index_from_node(v, g) {
        Some(i) => {
            proof {
                assert(g.vertex_data@[i as int].key() == v.key());
            }
            true
        },
        None => false,
    }
}

} // verus!
