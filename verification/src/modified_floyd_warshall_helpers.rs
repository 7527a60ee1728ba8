//! The best-rate solver and the path/query resolver.
//!
//! Before each request the solver rebuilds, from the current graph, a dense
//! best-rate table (exact rationals; 0 where no path is known) and a next-hop
//! table (initially `next[i][j] == j`), then runs Floyd–Warshall with
//! addition replaced by multiplication and minimization by maximization:
//! conversion factors compose multiplicatively and the objective is to
//! maximize yield. The solver's result is pinned exactly: it equals
//! [`fw_closure`], the spec-level rendition of the relaxation loop in
//! k, i, j order (so equal inputs give identical tables). On top of that,
//! `solved_from` records that no entry ever decreases and that every entry is
//! the exact product of initial-table entries along some real path, the two
//! facts from which the identity and direct-edge laws below follow.

use vstd::prelude::*;

use crate::graph_helpers::{
    edge_at, edge_index_of, get_index_from_node, graph_contains, has_edge, has_vertex_key,
    lemma_edge_index_unique, vertex_index_of, RateGraph,
};
use crate::petgraph_specs::{pg_edge_weight, pg_edges, pg_find_edge};
use crate::matrix_specs::{mat_clone, mat_dims, mat_entries, mat_get, mat_new, mat_set, NextMatrix};
use crate::rational::{
    lemma_rat_le_lt_trans, lemma_rat_mul_congruence, rat_le, rat_lt, rat_wf, rat_is_one, Rational,
};
use crate::{ExchangeRateRequest, Vertex};

verus! {

/// A dense square lookup table of exact rationals, stored row-major.
pub struct RateTable {
    pub n: usize,
    pub entries: Vec<Rational>,
}

impl RateTable {
    /// Well-formedness: side-by-side storage of `n * n` well-formed entries.
    pub open spec fn wf(self) -> bool {
        &&& self.entries@.len() == self.n * self.n
        &&& forall|k: int| 0 <= k < self.entries@.len() ==> rat_wf(#[trigger] self.entries@[k])
    }

    /// The entry in row `i`, column `j`.
    pub open spec fn at(self, i: int, j: int) -> Rational {
        self.entries@[i * self.n + j]
    }

    /// Reads the entry in row `i`, column `j`.
    pub fn get(&self, i: usize, j: usize) -> (r: Rational)
        requires
            self.wf(),
            i < self.n,
            j < self.n,
        ensures
            r == self.at(i as int, j as int),
    {
        let total = self.entries.len();
        proof {
            lemma_flat_index(self.n as int, i as int, j as int);
        }
        self.entries[i * self.n + j]
    }

    /// Overwrites the entry in row `i`, column `j`.
    pub fn set(&mut self, i: usize, j: usize, value: Rational)
        requires
            old(self).wf(),
            i < old(self).n,
            j < old(self).n,
        ensures
            final(self).n == old(self).n,
            final(self).entries@ == old(self).entries@.update(
                i as int * old(self).n + j as int,
                value,
            ),
    {
        let total = self.entries.len();
        proof {
            lemma_flat_index(self.n as int, i as int, j as int);
        }
        self.entries[i * self.n + j] = value;
    }
}

/// A flattened in-range position lands inside the `n * n` storage.
pub proof fn lemma_flat_index(n: int, i: int, j: int)
    by (nonlinear_arith)
    requires
        0 <= i < n,
        0 <= j < n,
    ensures
        0 <= i * n + j < n * n,
{
}

/// Flattening in-range positions row-major is injective.
pub proof fn lemma_flat_index_inj(n: int, i1: int, j1: int, i2: int, j2: int)
    by (nonlinear_arith)
    requires
        0 <= i1 < n,
        0 <= j1 < n,
        0 <= i2 < n,
        0 <= j2 < n,
        i1 * n + j1 == i2 * n + j2,
    ensures
        i1 == i2,
        j1 == j2,
{
}

/// A path of vertex indices from `i` to `j`: at least one hop, every index
/// in range.
pub open spec fn valid_path(p: Seq<int>, n: int, i: int, j: int) -> bool {
    &&& p.len() >= 2
    &&& p[0] == i
    &&& p[p.len() - 1] == j
    &&& forall|k: int| 0 <= k < p.len() ==> 0 <= #[trigger] p[k] < n
}

/// The table entries read along the consecutive pairs of a path.
pub open spec fn entries_along(t: RateTable, p: Seq<int>) -> Seq<Rational> {
    Seq::new((p.len() - 1) as nat, |k: int| t.at(p[k], p[k + 1]))
}

/// The product of the numerators of a sequence of rationals.
pub open spec fn seq_num(s: Seq<Rational>) -> int
    decreases s.len(),
{
    if s.len() == 0 {
        1
    } else {
        s[0].num * seq_num(s.drop_first())
    }
}

/// The product of the denominators of a sequence of rationals.
pub open spec fn seq_den(s: Seq<Rational>) -> int
    decreases s.len(),
{
    if s.len() == 0 {
        1
    } else {
        s[0].den * seq_den(s.drop_first())
    }
}

/// `r` equals the product of the rationals in `s`, by cross multiplication.
pub open spec fn rat_eq_prod(r: Rational, s: Seq<Rational>) -> bool {
    r.num * seq_den(s) == seq_num(s) * r.den
}

/// The entry value `r` is the exact product of initial-table entries along
/// some path from `i` to `j`.
pub open spec fn entry_sound(t0: RateTable, n: int, i: int, j: int, r: Rational) -> bool {
    exists|p: Seq<int>| #[trigger] valid_path(p, n, i, j) && rat_eq_prod(r, entries_along(t0, p))
}

/// What the closure guarantees of its output table `cur`, run from `t0`:
/// same side, well-formed entries, no entry ever decreased, and every entry
/// the exact product of `t0` entries along some real path.
pub open spec fn solved_from(t0: RateTable, cur: RateTable) -> bool {
    &&& cur.n == t0.n
    &&& cur.wf()
    &&& (forall|i: int, j: int|
        0 <= i < t0.n && 0 <= j < t0.n ==> rat_le(t0.at(i, j), #[trigger] cur.at(i, j)))
    &&& (forall|i: int, j: int|
        0 <= i < t0.n && 0 <= j < t0.n ==> entry_sound(
            t0,
            t0.n as int,
            i,
            j,
            #[trigger] cur.at(i, j),
        ))
}

/// Products over a concatenation multiply.
pub proof fn lemma_seq_prod_concat(s1: Seq<Rational>, s2: Seq<Rational>)
    ensures
        seq_num(s1 + s2) == seq_num(s1) * seq_num(s2),
        seq_den(s1 + s2) == seq_den(s1) * seq_den(s2),
    decreases s1.len(),
{
    if s1.len() == 0 {
        assert(s1 + s2 =~= s2);
    } else {
        assert((s1 + s2).drop_first() =~= s1.drop_first() + s2);
        lemma_seq_prod_concat(s1.drop_first(), s2);
        assert(seq_num(s1 + s2) == s1[0].num * (seq_num(s1.drop_first()) * seq_num(s2)));
        assert(s1[0].num * (seq_num(s1.drop_first()) * seq_num(s2)) == (s1[0].num * seq_num(
            s1.drop_first(),
        )) * seq_num(s2)) by (nonlinear_arith);
        assert(seq_den(s1 + s2) == s1[0].den * (seq_den(s1.drop_first()) * seq_den(s2)));
        assert(s1[0].den * (seq_den(s1.drop_first()) * seq_den(s2)) == (s1[0].den * seq_den(
            s1.drop_first(),
        )) * seq_den(s2)) by (nonlinear_arith);
    }
}

/// A product of positive denominators is positive.
pub proof fn lemma_seq_den_pos(s: Seq<Rational>)
    requires
        forall|k: int| 0 <= k < s.len() ==> (#[trigger] s[k]).den > 0,
    ensures
        seq_den(s) > 0,
    decreases s.len(),
{
    if s.len() > 0 {
        lemma_seq_den_pos(s.drop_first());
        assert(s[0].den * seq_den(s.drop_first()) > 0) by (nonlinear_arith)
            requires
                s[0].den > 0,
                seq_den(s.drop_first()) > 0,
        ;
    }
}

/// Each table entry is by itself the product along the two-vertex path.
pub proof fn lemma_entry_sound_base(t0: RateTable, n: int, i: int, j: int)
    requires
        0 <= i < n,
        0 <= j < n,
    ensures
        entry_sound(t0, n, i, j, t0.at(i, j)),
{
    let p = seq![i, j];
    let es = entries_along(t0, p);
    assert(es.len() == 1 && es[0] == t0.at(i, j));
    assert(es.drop_first().len() == 0);
    assert(seq_num(es.drop_first()) == 1);
    assert(seq_den(es.drop_first()) == 1);
    assert(seq_num(es) == t0.at(i, j).num * 1);
    assert(seq_den(es) == t0.at(i, j).den * 1);
    assert(valid_path(p, n, i, j));
    assert(rat_eq_prod(t0.at(i, j), es));
}

/// Sound entries compose: the exact product of a sound (i, k) entry and a
/// sound (k, j) entry is a sound (i, j) entry, along the joined path.
pub proof fn lemma_entry_sound_compose(
    t0: RateTable,
    n: int,
    i: int,
    k: int,
    j: int,
    a: Rational,
    b: Rational,
    c: Rational,
)
    requires
        entry_sound(t0, n, i, k, a),
        entry_sound(t0, n, k, j, b),
        c.num == a.num * b.num,
        c.den == a.den * b.den,
    ensures
        entry_sound(t0, n, i, j, c),
{
    let p1 = choose|p: Seq<int>|
        #[trigger] valid_path(p, n, i, k) && rat_eq_prod(a, entries_along(t0, p));
    let p2 = choose|p: Seq<int>|
        #[trigger] valid_path(p, n, k, j) && rat_eq_prod(b, entries_along(t0, p));
    let p = p1 + p2.subrange(1, p2.len() as int);
    let es1 = entries_along(t0, p1);
    let es2 = entries_along(t0, p2);
    let es = entries_along(t0, p);
    assert(p.len() == p1.len() + p2.len() - 1);
    assert(p[0] == i);
    assert(p[p.len() - 1] == p2[p2.len() - 1]);
    assert forall|m: int| 0 <= m < p.len() implies 0 <= #[trigger] p[m] < n by {
        if m < p1.len() {
            assert(p[m] == p1[m]);
        } else {
            assert(p[m] == p2[m - p1.len() + 1]);
        }
    }
    assert(valid_path(p, n, i, j));
    assert(es =~= es1 + es2) by {
        assert(es.len() == es1.len() + es2.len());
        assert forall|m: int| 0 <= m < es.len() implies es[m] == (es1 + es2)[m] by {
            if m < p1.len() - 1 {
                assert(p[m] == p1[m] && p[m + 1] == p1[m + 1]);
                assert(es[m] == es1[m]);
            } else if m == p1.len() - 1 {
                assert(p[m] == p1[p1.len() - 1]);
                assert(p1[p1.len() - 1] == k && p2[0] == k);
                assert(p[m + 1] == p2[1]);
                assert(es[m] == t0.at(k, p2[1]));
                assert(es2[0] == t0.at(p2[0], p2[1]));
            } else {
                assert(p[m] == p2[m - p1.len() + 1] && p[m + 1] == p2[m - p1.len() + 2]);
                assert(es[m] == es2[m - (p1.len() - 1)]);
            }
        }
    }
    lemma_seq_prod_concat(es1, es2);
    lemma_rat_mul_congruence(a, b, seq_num(es1), seq_den(es1), seq_num(es2), seq_den(es2));
    assert(rat_eq_prod(c, es));
}

/// The rate for the direct edge `i -> j`, or 0 when no such edge exists.
pub open spec fn initial_rate(g: RateGraph, i: int, j: int) -> Rational {
    if has_edge(g.edge_data@, i, j) {
        edge_at(g.edge_data@, i, j).rate
    } else {
        Rational { num: 0, den: 1 }
    }
}

/// `t` is the rate table read off the graph: one row and column per vertex,
/// each entry the direct edge's rate or 0.
pub open spec fn is_initial_table(g: RateGraph, t: RateTable) -> bool {
    &&& t.n == g.vertex_data@.len()
    &&& t.wf()
    &&& forall|i: int, j: int|
        0 <= i < t.n && 0 <= j < t.n ==> #[trigger] t.at(i, j) == initial_rate(g, i, j)
}

/// Builds the best-rate lookup table from the current graph: entry (i, j) is
/// the direct edge's exact rate, or 0 where no arc exists.
pub fn make_best_rate_table(graph: &RateGraph) -> (t: RateTable)
    requires
        graph.wf(),
    ensures
        is_initial_table(*graph, t),
{
    let n = graph.vertex_count();
    let mut entries: Vec<Rational> = Vec::new();
    let mut i: usize = 0;
    while i < n
        invariant
            graph.wf(),
            n == graph.vertex_data@.len(),
            i <= n,
            entries@.len() == i * n,
            forall|x: int, y: int|
                0 <= x < i && 0 <= y < n ==> entries@[x * n + y] == initial_rate(*graph, x, y),
            forall|k: int| 0 <= k < entries@.len() ==> rat_wf(#[trigger] entries@[k]),
        decreases n - i,
    {
        let mut j: usize = 0;
        while j < n
            invariant
                graph.wf(),
                n == graph.vertex_data@.len(),
                i < n,
                j <= n,
                entries@.len() == i * n + j,
                forall|x: int, y: int|
                    0 <= x < i && 0 <= y < n ==> entries@[x * n + y] == initial_rate(*graph, x, y),
                forall|y: int|
                    0 <= y < j ==> entries@[i * n + y] == initial_rate(*graph, i as int, y),
                forall|k: int| 0 <= k < entries@.len() ==> rat_wf(#[trigger] entries@[k]),
            decreases n - j,
        {
            let value = match pg_find_edge(&graph.graph, i, j) {
                Some(e) => {
                    proof {
                        lemma_edge_index_unique(graph.edge_data@, i as int, j as int, e as int);
                    }
                    match pg_edge_weight(&graph.graph, e) {
                        Some(w) => Rational { num: w.0, den: w.1 },
                        None => {
                            proof {
                                assert(false);
                            }
                            Rational::zero()
                        },
                    }
                },
                None => {
                    proof {
                        if has_edge(graph.edge_data@, i as int, j as int) {
                            let ix = edge_index_of(graph.edge_data@, i as int, j as int);
                            assert(pg_edges(graph.graph)[ix].0 == (i as int, j as int));
                        }
                    }
                    Rational::zero()
                },
            };
            entries.push(value);
            proof {
                assert forall|x: int, y: int| 0 <= x < i && 0 <= y < n implies entries@[x * n + y]
                    == initial_rate(*graph, x, y) by {
                    lemma_flat_index(n as int, x, y);
                    assert(x * n + y < i * n + j) by (nonlinear_arith)
                        requires
                            0 <= x < i,
                            0 <= y < n,
                            0 <= j,
                    ;
                }
            }
            j += 1;
        }
        i += 1;
        proof {
            assert(i * n == (i - 1) * n + n) by (nonlinear_arith);
        }
    }
    let t = RateTable { n, entries };
    proof {
        assert(t.entries@.len() == n * n);
        assert forall|x: int, y: int| 0 <= x < t.n && 0 <= y < t.n implies #[trigger] t.at(x, y)
            == initial_rate(*graph, x, y) by {
            lemma_flat_index(n as int, x, y);
        }
    }
    t
}

/// Builds the initial next-hop table: `next[i][j] == j`, the direct-edge
/// assumption, to be refined by the closure.
pub fn make_next_table(graph: &RateGraph) -> (m: NextMatrix)
    requires
        graph.wf(),
    ensures
        mat_dims(m) == (graph.vertex_data@.len() as int, graph.vertex_data@.len() as int),
        forall|i: int, j: int|
            0 <= i < graph.vertex_data@.len() && 0 <= j < graph.vertex_data@.len()
                ==> mat_entries(m)[(i, j)] == j,
{
    let n = graph.vertex_count();
    let mut next = mat_new(n, n);
    let mut i: usize = 0;
    while i < n
        invariant
            n == graph.vertex_data@.len(),
            i <= n,
            mat_dims(next) == (n as int, n as int),
            forall|x: int, y: int|
                0 <= x < i && 0 <= y < n ==> mat_entries(next)[(x, y)] == y,
        decreases n - i,
    {
        let mut j: usize = 0;
        while j < n
            invariant
                n == graph.vertex_data@.len(),
                i < n,
                j <= n,
                mat_dims(next) == (n as int, n as int),
                forall|x: int, y: int|
                    0 <= x < i && 0 <= y < n ==> mat_entries(next)[(x, y)] == y,
                forall|y: int| 0 <= y < j ==> mat_entries(next)[(i as int, y)] == y,
            decreases n - j,
        {
            mat_set(&mut next, i, j, j);
            j += 1;
        }
        i += 1;
    }
    next
}

/// Copies a rate table entry by entry.
fn clone_table(t: &RateTable) -> (r: RateTable)
    ensures
        r.n == t.n,
        r.entries@ == t.entries@,
{
    let mut entries: Vec<Rational> = Vec::new();
    let len = t.entries.len();
    let mut idx: usize = 0;
    while idx < len
        invariant
            len == t.entries@.len(),
            idx <= len,
            entries@ == t.entries@.subrange(0, idx as int),
        decreases len - idx,
    {
        entries.push(t.entries[idx]);
        proof {
            assert(entries@ =~= t.entries@.subrange(0, idx + 1));
        }
        idx += 1;
    }
    proof {
        assert(entries@ =~= t.entries@);
    }
    RateTable { n: t.n, entries }
}

/// The evolving state of the closure: the flat rate entries beside the
/// next-hop entries.
pub struct FwState {
    pub rate: Seq<Rational>,
    pub next: Map<(int, int), usize>,
}

/// One relaxation of cell (i, j) through the intermediate vertex `k`,
/// exactly as the loop body computes it: the exact product of the (i, k) and
/// (k, j) entries replaces the (i, j) entry only when both its components fit
/// in 64 bits and it strictly exceeds the entry, and the next hop toward `k`
/// is copied to (i, j) alongside.
pub open spec fn fw_relax(s: FwState, n: int, k: int, i: int, j: int) -> FwState {
    let a = s.rate[i * n + k];
    let b = s.rate[k * n + j];
    let cur = s.rate[i * n + j];
    if a.num * b.num <= u64::MAX && a.den * b.den <= u64::MAX {
        let cand = Rational { num: (a.num * b.num) as u64, den: (a.den * b.den) as u64 };
        if rat_lt(cur, cand) {
            FwState {
                rate: s.rate.update(i * n + j, cand),
                next: s.next.insert((i, j), s.next[(i, k)]),
            }
        } else {
            s
        }
    } else {
        s
    }
}

/// The state after relaxing the cells (k, i, 0), ..., (k, i, j - 1).
pub open spec fn fw_cells(s: FwState, n: int, k: int, i: int, j: nat) -> FwState
    decreases j,
{
    if j == 0 {
        s
    } else {
        fw_relax(fw_cells(s, n, k, i, (j - 1) as nat), n, k, i, j - 1)
    }
}

/// The state after relaxing the rows (k, 0), ..., (k, i - 1), each across
/// all n columns.
pub open spec fn fw_rows(s: FwState, n: int, k: int, i: nat) -> FwState
    decreases i,
{
    if i == 0 {
        s
    } else {
        fw_cells(fw_rows(s, n, k, (i - 1) as nat), n, k, i - 1, n as nat)
    }
}

/// The state after the rounds with intermediate vertices 0, ..., k - 1.
pub open spec fn fw_rounds(s: FwState, n: int, k: nat) -> FwState
    decreases k,
{
    if k == 0 {
        s
    } else {
        fw_rows(fw_rounds(s, n, (k - 1) as nat), n, k - 1, n as nat)
    }
}

/// The closure of an n-by-n state: all n rounds, in k, i, j order.
pub open spec fn fw_closure(s: FwState, n: int) -> FwState {
    fw_rounds(s, n, n as nat)
}

/// Runs the multiplicative, maximizing Floyd–Warshall closure over copies of
/// the two tables and returns them: an entry is replaced whenever routing
/// through an intermediate vertex gives a strictly better exact rate, and the
/// next-hop entry is refined alongside. Products that would overflow the
/// exact representation are skipped, never rounded. The returned tables are
/// exactly [`fw_closure`] of the given ones — the relaxations applied in
/// k, i, j order — and in particular no entry ever decreases and every
/// produced entry is the exact product of initial entries along a real path
/// (`solved_from`).
#[verifier::loop_isolation(false)]
pub fn modified_floyd_warshall(rate: &RateTable, next: &NextMatrix, graph: &RateGraph) -> (res: (
    RateTable,
    NextMatrix,
))
    requires
        graph.wf(),
        rate.wf(),
        rate.n == graph.vertex_data@.len(),
        mat_dims(*next) == (rate.n as int, rate.n as int),
        forall|x: int, y: int|
            0 <= x < rate.n && 0 <= y < rate.n ==> mat_entries(*next)[(x, y)] < rate.n,
    ensures
        solved_from(*rate, res.0),
        mat_dims(res.1) == (rate.n as int, rate.n as int),
        forall|x: int, y: int|
            0 <= x < rate.n && 0 <= y < rate.n ==> mat_entries(res.1)[(x, y)] < rate.n,
        ({
            let sf = fw_closure(
                FwState { rate: rate.entries@, next: mat_entries(*next) },
                rate.n as int,
            );
            &&& res.0.entries@ == sf.rate
            &&& forall|x: int, y: int|
                0 <= x < rate.n && 0 <= y < rate.n ==> mat_entries(res.1)[(x, y)] == sf.next[(
                    x,
                    y,
                )]
        }),
{
    let n = graph.vertex_count();
    let mut rate_out = clone_table(rate);
    let mut next_out = mat_clone(next);
    let ghost s0 = FwState { rate: rate.entries@, next: mat_entries(*next) };
    proof {
        assert forall|x: int, y: int| 0 <= x < n && 0 <= y < n implies entry_sound(
            *rate,
            n as int,
            x,
            y,
            rate_out.at(x, y),
        ) by {
            lemma_flat_index(n as int, x, y);
            assert(rate_out.at(x, y) == rate.at(x, y));
            lemma_entry_sound_base(*rate, n as int, x, y);
        }
        assert(solved_from(*rate, rate_out));
    }
    let mut k: usize = 0;
    while k < n
        invariant
            k <= n,
            solved_from(*rate, rate_out),
            mat_dims(next_out) == (n as int, n as int),
            forall|x: int, y: int|
                0 <= x < n && 0 <= y < n ==> mat_entries(next_out)[(x, y)] < n,
            rate_out.entries@ == fw_rounds(s0, n as int, k as nat).rate,
            forall|x: int, y: int|
                0 <= x < n && 0 <= y < n ==> mat_entries(next_out)[(x, y)] == fw_rounds(
                    s0,
                    n as int,
                    k as nat,
                ).next[(x, y)],
        decreases n - k,
    {
        let ghost sk = fw_rounds(s0, n as int, k as nat);
        let mut i: usize = 0;
        while i < n
            invariant
                i <= n,
                solved_from(*rate, rate_out),
                mat_dims(next_out) == (n as int, n as int),
                forall|x: int, y: int|
                    0 <= x < n && 0 <= y < n ==> mat_entries(next_out)[(x, y)] < n,
                sk == fw_rounds(s0, n as int, k as nat),
                rate_out.entries@ == fw_rows(sk, n as int, k as int, i as nat).rate,
                forall|x: int, y: int|
                    0 <= x < n && 0 <= y < n ==> mat_entries(next_out)[(x, y)] == fw_rows(
                        sk,
                        n as int,
                        k as int,
                        i as nat,
                    ).next[(x, y)],
            decreases n - i,
        {
            let ghost si = fw_rows(sk, n as int, k as int, i as nat);
            let mut j: usize = 0;
            while j < n
                invariant
                    j <= n,
                    solved_from(*rate, rate_out),
                    mat_dims(next_out) == (n as int, n as int),
                    forall|x: int, y: int|
                        0 <= x < n && 0 <= y < n ==> mat_entries(next_out)[(x, y)] < n,
                    si == fw_rows(sk, n as int, k as int, i as nat),
                    rate_out.entries@ == fw_cells(si, n as int, k as int, i as int, j as nat).rate,
                    forall|x: int, y: int|
                        0 <= x < n && 0 <= y < n ==> mat_entries(next_out)[(x, y)] == fw_cells(
                            si,
                            n as int,
                            k as int,
                            i as int,
                            j as nat,
                        ).next[(x, y)],
                decreases n - j,
            {
                let ghost scur = fw_cells(si, n as int, k as int, i as int, j as nat);
                let ghost snext = fw_cells(si, n as int, k as int, i as int, (j + 1) as nat);
                proof {
                    assert(snext == fw_relax(scur, n as int, k as int, i as int, j as int));
                    lemma_flat_index(n as int, i as int, j as int);
                    lemma_flat_index(n as int, i as int, k as int);
                    lemma_flat_index(n as int, k as int, j as int);
                }
                let a = rate_out.get(i, k);
                let b = rate_out.get(k, j);
                match a.checked_mul(b) {
                    Some(candidate) => {
                        let current = rate_out.get(i, j);
                        if current.lt(candidate) {
                            let ghost pre = rate_out;
                            rate_out.set(i, j, candidate);
                            proof {
                                assert(rat_wf(a) && rat_wf(b));
                                assert(candidate.den > 0) by (nonlinear_arith)
                                    requires
                                        a.den > 0,
                                        b.den > 0,
                                        candidate.den == a.den * b.den,
                                ;
                                assert forall|x: int, y: int|
                                    0 <= x < n && 0 <= y < n && !(x == i as int && y
                                        == j as int) implies rate_out.at(x, y) == pre.at(
                                    x,
                                    y,
                                ) by {
                                    lemma_flat_index(n as int, x, y);
                                    if x * (n as int) + y == (i as int) * (n as int) + (j as int) {
                                        lemma_flat_index_inj(n as int, x, y, i as int, j as int);
                                    }
                                }
                                assert(rate_out.at(i as int, j as int) == candidate);
                                lemma_rat_le_lt_trans(
                                    rate.at(i as int, j as int),
                                    current,
                                    candidate,
                                );
                                lemma_entry_sound_compose(
                                    *rate,
                                    n as int,
                                    i as int,
                                    k as int,
                                    j as int,
                                    a,
                                    b,
                                    candidate,
                                );
                                assert(solved_from(*rate, rate_out));
                                assert(rate_out.entries@ == snext.rate);
                            }
                            let hop = mat_get(&next_out, i, k);
                            mat_set(&mut next_out, i, j, hop);
                            proof {
                                assert(snext.next == scur.next.insert(
                                    (i as int, j as int),
                                    scur.next[(i as int, k as int)],
                                ));
                                assert forall|x: int, y: int| 0 <= x < n && 0 <= y
                                    < n implies mat_entries(next_out)[(x, y)] == snext.next[(
                                    x,
                                    y,
                                )] by {
                                    if x == i as int && y == j as int {
                                        assert(mat_entries(next_out)[(x, y)] == hop);
                                    }
                                }
                            }
                        } else {
                            proof {
                                assert(snext == scur);
                            }
                        }
                    },
                    None => {
                        proof {
                            assert(a.num * b.num > u64::MAX || a.den * b.den > u64::MAX);
                            assert(snext == scur);
                        }
                    },
                }
                j += 1;
            }
            proof {
                assert(fw_rows(sk, n as int, k as int, (i + 1) as nat) == fw_cells(
                    si,
                    n as int,
                    k as int,
                    i as int,
                    n as nat,
                ));
            }
            i += 1;
        }
        proof {
            assert(fw_rounds(s0, n as int, (k + 1) as nat) == fw_rows(
                sk,
                n as int,
                k as int,
                n as nat,
            ));
        }
        k += 1;
    }
    proof {
        assert(fw_closure(s0, n as int) == fw_rounds(s0, n as int, n as nat));
    }
    (rate_out, next_out)
}

/// The walk the next-hop table prescribes from `u` toward `v`: `v` alone
/// once the destination is reached, one hop prepended otherwise, giving up
/// when the hop budget runs out before `v` is reached.
pub open spec fn next_walk(m: Map<(int, int), usize>, u: usize, v: usize, fuel: nat) -> Option<
    Seq<usize>,
>
    decreases fuel,
{
    if u == v {
        Some(seq![v])
    } else if fuel == 0 {
        None::<Seq<usize>>
    } else {
        let step = m[(u as int, v as int)];
        match next_walk(m, step, v, (fuel - 1) as nat) {
            Some(p) => Some(seq![u] + p),
            None => None::<Seq<usize>>,
        }
    }
}

/// Walks the next-hop table from `u`, appending each visited index until `v`
/// is reached. A table whose walk does not reach `v` within `fuel` hops (a
/// cycle not passing through `v`) makes the walk give up and return `None`
/// rather than loop forever.
pub fn get_path_from_index(u: usize, v: usize, next: &NextMatrix, fuel: usize) -> (r: Option<
    Vec<usize>,
>)
    requires
        mat_dims(*next).0 == mat_dims(*next).1,
        u < mat_dims(*next).0,
        v < mat_dims(*next).0,
        forall|x: int, y: int|
            0 <= x < mat_dims(*next).0 && 0 <= y < mat_dims(*next).0 ==> mat_entries(*next)[(
                x,
                y,
            )] < mat_dims(*next).0,
    ensures
        match r {
            Some(p) => next_walk(mat_entries(*next), u, v, fuel as nat) == Some(p@),
            None => next_walk(mat_entries(*next), u, v, fuel as nat) is None,
        },
        r matches Some(p) ==> p@.len() >= 1 && p@[0] == u && p@[p@.len() - 1] == v && p@.len()
            <= fuel + 1 && (forall|m: int| 0 <= m < p@.len() ==> #[trigger] p@[m] < mat_dims(
            *next,
        ).0),
{
    let ghost m = mat_entries(*next);
    let mut path: Vec<usize> = Vec::new();
    path.push(u);
    let mut cur = u;
    let mut fuel_left = fuel;
    proof {
        assert(Seq::<usize>::empty() + seq![v] =~= seq![v]);
    }
    while cur != v && fuel_left > 0
        invariant
            mat_dims(*next).0 == mat_dims(*next).1,
            u < mat_dims(*next).0,
            v < mat_dims(*next).0,
            cur < mat_dims(*next).0,
            forall|x: int, y: int|
                0 <= x < mat_dims(*next).0 && 0 <= y < mat_dims(*next).0 ==> mat_entries(*next)[(
                    x,
                    y,
                )] < mat_dims(*next).0,
            m == mat_entries(*next),
            fuel_left <= fuel,
            path@.len() >= 1,
            path@[0] == u,
            path@[path@.len() - 1] == cur,
            path@.len() == 1 + fuel - fuel_left,
            forall|k: int| 0 <= k < path@.len() ==> #[trigger] path@[k] < mat_dims(*next).0,
            next_walk(m, u, v, fuel as nat) == (match next_walk(m, cur, v, fuel_left as nat) {
                Some(s) => Some(path@.drop_last() + s),
                None => None::<Seq<usize>>,
            }),
        decreases fuel_left,
    {
        let ghost pre = path@;
        let step = mat_get(next, cur, v);
        path.push(step);
        proof {
            let s_old = next_walk(m, cur, v, fuel_left as nat);
            let s_new = next_walk(m, step, v, (fuel_left - 1) as nat);
            match s_new {
                Some(s) => {
                    assert(s_old == Some(seq![cur] + s));
                    assert(pre.drop_last() + (seq![cur] + s) =~= pre + s);
                    assert(path@.drop_last() =~= pre);
                },
                None => {
                    assert(s_old is None);
                },
            }
        }
        cur = step;
        fuel_left = fuel_left - 1;
    }
    if cur == v {
        proof {
            assert(next_walk(m, cur, v, fuel_left as nat) == Some(seq![v]));
            assert(path@.drop_last() + seq![v] =~= path@);
        }
        Some(path)
    } else {
        None
    }
}

/// The key of the request's source vertex.
pub open spec fn request_source_key(r: ExchangeRateRequest) -> (Seq<char>, Seq<char>) {
    (r.source_exchange@, r.source_currency@)
}

/// The key of the request's destination vertex.
pub open spec fn request_dest_key(r: ExchangeRateRequest) -> (Seq<char>, Seq<char>) {
    (r.destination_exchange@, r.destination_currency@)
}

/// Resolves the request's endpoints and walks the next-hop table between
/// them: the best path as a sequence of vertex indices, `None` when either
/// endpoint is unknown or the walk gives up.
pub fn get_path_from_request(
    rate_request: &ExchangeRateRequest,
    next: &NextMatrix,
    graph: &RateGraph,
) -> (r: Option<Vec<usize>>)
    requires
        graph.wf(),
        mat_dims(*next) == (graph.vertex_data@.len() as int, graph.vertex_data@.len() as int),
        forall|x: int, y: int|
            0 <= x < graph.vertex_data@.len() && 0 <= y < graph.vertex_data@.len() ==> mat_entries(
                *next,
            )[(x, y)] < graph.vertex_data@.len(),
    ensures
        !has_vertex_key(graph.vertex_data@, request_source_key(*rate_request)) || !has_vertex_key(
            graph.vertex_data@,
            request_dest_key(*rate_request),
        ) ==> r is None,
        has_vertex_key(graph.vertex_data@, request_source_key(*rate_request)) && has_vertex_key(
            graph.vertex_data@,
            request_dest_key(*rate_request),
        ) ==> {
            let walk = next_walk(
                mat_entries(*next),
                vertex_index_of(graph.vertex_data@, request_source_key(*rate_request)) as usize,
                vertex_index_of(graph.vertex_data@, request_dest_key(*rate_request)) as usize,
                (graph.vertex_data@.len() - 1) as nat,
            );
            match r {
                Some(p) => walk == Some(p@),
                None => walk is None,
            }
        },
        r matches Some(p) ==> {
            &&& has_vertex_key(graph.vertex_data@, request_source_key(*rate_request))
            &&& has_vertex_key(graph.vertex_data@, request_dest_key(*rate_request))
            &&& p@.len() >= 1
            &&& p@.len() <= graph.vertex_data@.len()
            &&& p@[0] == vertex_index_of(graph.vertex_data@, request_source_key(*rate_request))
            &&& p@[p@.len() - 1] == vertex_index_of(
                graph.vertex_data@,
                request_dest_key(*rate_request),
            )
            &&& forall|m: int| 0 <= m < p@.len() ==> #[trigger] p@[m] < graph.vertex_data@.len()
        },
{
    let rate_request = rate_request.clone();
    let source_vertex = Vertex {
        exchange: rate_request.source_exchange,
        currency: rate_request.source_currency,
    };
    let dest_vertex = Vertex {
        exchange: rate_request.destination_exchange,
        currency: rate_request.destination_currency,
    };
    let u = get_index_from_node(&source_vertex, graph);
    let v = get_index_from_node(&dest_vertex, graph);
    match (u, v) {
        (Some(u), Some(v)) => {
            proof {
                crate::graph_helpers::lemma_vertex_index_unique(
                    graph.vertex_data@,
                    source_vertex.key(),
                    u as int,
                );
                crate::graph_helpers::lemma_vertex_index_unique(
                    graph.vertex_data@,
                    dest_vertex.key(),
                    v as int,
                );
            }
            get_path_from_index(u, v, next, graph.vertex_count() - 1)
        },
        _ => None,
    }
}

/// Looks the best solved rate up for a request: `None` when either endpoint
/// vertex has never been seen, otherwise the solved table's entry for the
/// two resolved indices (0 when genuinely unreachable).
pub fn get_best_rates(
    rate_request: ExchangeRateRequest,
    rate: &RateTable,
    graph: &RateGraph,
) -> (r: Option<Rational>)
    requires
        graph.wf(),
        rate.wf(),
        rate.n == graph.vertex_data@.len(),
    ensures
        r is Some <==> has_vertex_key(graph.vertex_data@, request_source_key(rate_request))
            && has_vertex_key(graph.vertex_data@, request_dest_key(rate_request)),
        r matches Some(x) ==> x == rate.at(
            vertex_index_of(graph.vertex_data@, request_source_key(rate_request)),
            vertex_index_of(graph.vertex_data@, request_dest_key(rate_request)),
        ),
{
    let source_vertex = Vertex {
        exchange: rate_request.source_exchange,
        currency: rate_request.source_currency,
    };
    let dest_vertex = Vertex {
        exchange: rate_request.destination_exchange,
        currency: rate_request.destination_currency,
    };
    if graph_contains(&source_vertex, graph) && graph_contains(&dest_vertex, graph) {
        let u = get_index_from_node(&source_vertex, graph);
        let v = get_index_from_node(&dest_vertex, graph);
        match (u, v) {
            (Some(u), Some(v)) => {
                proof {
                    crate::graph_helpers::lemma_vertex_index_unique(
                        graph.vertex_data@,
                        source_vertex.key(),
                        u as int,
                    );
                    crate::graph_helpers::lemma_vertex_index_unique(
                        graph.vertex_data@,
                        dest_vertex.key(),
                        v as int,
                    );
                }
                Some(rate.get(u, v))
            },
            _ => {
                proof {
                    assert(false);
                }
                None
            },
        }
    } else {
        None
    }
}

/// Answers one rate request against the current graph: rebuilds both lookup
/// tables from scratch, runs the closure, and returns the best solved rate
/// together with the reconstructed path of vertex indices. Either component
/// is `None` when an endpoint vertex has never been seen in any update; the
/// path alone may also be `None` when the next-hop walk gives up.
pub fn process_rate_request(rate_request: &ExchangeRateRequest, graph: &RateGraph) -> (r: (
    Option<Rational>,
    Option<Vec<usize>>,
))
    requires
        graph.wf(),
    ensures
        r.0 is Some <==> has_vertex_key(graph.vertex_data@, request_source_key(*rate_request))
            && has_vertex_key(graph.vertex_data@, request_dest_key(*rate_request)),
        r.0 matches Some(x) ==> exists|t0: RateTable, t1: RateTable, next0: Map<(int, int), usize>|
            #![auto]
            {
                &&& is_initial_table(*graph, t0)
                &&& (forall|i: int, j: int|
                    0 <= i < t0.n && 0 <= j < t0.n ==> next0[(i, j)] == j)
                &&& t1.entries@ == fw_closure(
                    FwState { rate: t0.entries@, next: next0 },
                    t0.n as int,
                ).rate
                &&& t1.n == t0.n
                &&& solved_from(t0, t1)
                &&& x == t1.at(
                    vertex_index_of(graph.vertex_data@, request_source_key(*rate_request)),
                    vertex_index_of(graph.vertex_data@, request_dest_key(*rate_request)),
                )
            },
        !has_vertex_key(graph.vertex_data@, request_source_key(*rate_request)) || !has_vertex_key(
            graph.vertex_data@,
            request_dest_key(*rate_request),
        ) ==> r.1 is None,
        r.1 matches Some(p) ==> {
            &&& p@.len() >= 1
            &&& p@.len() <= graph.vertex_data@.len()
            &&& p@[0] == vertex_index_of(graph.vertex_data@, request_source_key(*rate_request))
            &&& p@[p@.len() - 1] == vertex_index_of(
                graph.vertex_data@,
                request_dest_key(*rate_request),
            )
            &&& forall|m: int| 0 <= m < p@.len() ==> #[trigger] p@[m] < graph.vertex_data@.len()
        },
{
    if graph.vertex_count() == 0 {
        return (None, None);
    }
    let rate = make_best_rate_table(graph);
    let next = make_next_table(graph);
    let res = modified_floyd_warshall(&rate, &next, graph);
    let best_rate = get_best_rates(rate_request.clone(), &res.0, graph);
    let path = get_path_from_request(rate_request, &res.1, graph);
    proof {
        if best_rate is Some {
            let t0 = rate;
            let t1 = res.0;
            let next0 = mat_entries(next);
            assert(is_initial_table(*graph, t0) && solved_from(t0, t1));
            assert(t1.entries@ == fw_closure(
                FwState { rate: t0.entries@, next: next0 },
                t0.n as int,
            ).rate);
        }
    }
    (best_rate, path)
}

/// Identity law: after any solve, a vertex's self-conversion rate is exactly
/// 1 — provided its initial self-loop entry is 1 (the bridge self-loop) and
/// no cycle of the initial table multiplies to more than 1. An initial table
/// holding such an arbitrage cycle is excluded: through it the maximizing
/// closure is free to raise the diagonal above 1.
pub proof fn lemma_self_rate_is_one(t0: RateTable, t1: RateTable, v: int)
    requires
        t0.wf(),
        solved_from(t0, t1),
        0 <= v < t0.n,
        rat_is_one(t0.at(v, v)),
        forall|p: Seq<int>| #[trigger]
            valid_path(p, t0.n as int, v, v) ==> seq_num(entries_along(t0, p)) <= seq_den(
                entries_along(t0, p),
            ),
    ensures
        rat_is_one(t1.at(v, v)),
{
    let n = t0.n as int;
    let r = t1.at(v, v);
    let one0 = t0.at(v, v);
    lemma_flat_index(n, v, v);
    assert(rat_wf(r) && rat_wf(one0));
    assert(entry_sound(t0, n, v, v, r));
    let p = choose|p: Seq<int>|
        #[trigger] valid_path(p, n, v, v) && rat_eq_prod(r, entries_along(t0, p));
    let es = entries_along(t0, p);
    assert forall|m: int| 0 <= m < es.len() implies (#[trigger] es[m]).den > 0 by {
        assert(es[m] == t0.at(p[m], p[m + 1]));
        lemma_flat_index(n, p[m], p[m + 1]);
    }
    lemma_seq_den_pos(es);
    let nn = seq_num(es);
    let dd = seq_den(es);
    assert(nn <= dd);
    assert(rat_le(one0, r));
    assert(r.den <= r.num) by (nonlinear_arith)
        requires
            one0.num == one0.den,
            one0.den > 0,
            one0.num * r.den <= r.num * one0.den,
    ;
    assert(r.num <= r.den) by (nonlinear_arith)
        requires
            r.num * dd == nn * r.den,
            nn <= dd,
            dd > 0,
            r.den > 0,
    ;
}

/// Identity law, read off the graph: when a vertex's self-loop bridge is in
/// place with rate 1 and the initial table built from the graph has no cycle
/// multiplying to more than 1, any solve leaves the vertex's self-conversion
/// at exactly 1.
pub proof fn lemma_graph_self_rate_is_one(g: RateGraph, t0: RateTable, t1: RateTable, v: int)
    requires
        g.wf(),
        is_initial_table(g, t0),
        solved_from(t0, t1),
        0 <= v < g.vertex_data@.len(),
        has_edge(g.edge_data@, v, v),
        rat_is_one(edge_at(g.edge_data@, v, v).rate),
        forall|p: Seq<int>| #[trigger]
            valid_path(p, t0.n as int, v, v) ==> seq_num(entries_along(t0, p)) <= seq_den(
                entries_along(t0, p),
            ),
    ensures
        rat_is_one(t1.at(v, v)),
{
    assert(t0.at(v, v) == initial_rate(g, v, v));
    lemma_self_rate_is_one(t0, t1, v);
}

/// Direct-edge law: the closure never decreases a directly known rate — for
/// any edge `a -> b` present in the graph, the solved table's entry at
/// (a, b) is at least the edge's rate.
pub proof fn lemma_direct_edge_rate(g: RateGraph, t0: RateTable, t1: RateTable, a: int, b: int)
    requires
        g.wf(),
        is_initial_table(g, t0),
        solved_from(t0, t1),
        has_edge(g.edge_data@, a, b),
    ensures
        rat_le(edge_at(g.edge_data@, a, b).rate, t1.at(a, b)),
{
    let i = crate::graph_helpers::edge_index_of(g.edge_data@, a, b);
    assert(0 <= i < g.edge_data@.len() && g.edge_data@[i].source_index == a
        && g.edge_data@[i].dest_index == b);
    assert(0 <= a < t0.n && 0 <= b < t0.n);
    assert(t0.at(a, b) == initial_rate(g, a, b));
    assert(rat_le(t0.at(a, b), t1.at(a, b)));
}

} // verus!
