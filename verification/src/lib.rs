//! Best-conversion-rate queries over a stream of currency-exchange quotes.
//!
//! The crate maintains a directed graph of (exchange, currency) vertices
//! whose edges carry exact rational conversion rates with freshness
//! timestamps, and answers best-rate requests with a multiplicative variant
//! of the Floyd–Warshall closure plus next-hop path reconstruction.

use vstd::prelude::*;

pub mod datetime_helpers;
pub mod graph_helpers;
pub mod io_helpers;
pub mod matrix_specs;
pub mod modified_floyd_warshall_helpers;
pub mod petgraph_specs;
pub mod rational;

use crate::datetime_helpers::Timestamp;
use crate::rational::{rat_wf, Rational};

verus! {

/// A record announcing an exchange's current rates between two currencies.
#[derive(Debug)]
pub struct PriceUpdate {
    pub timestamp: Timestamp,
    pub exchange: String,
    pub source_currency: String,
    pub destination_currency: String,
    pub forward_factor: Rational,
    pub backward_factor: Rational,
}

/// A well-formed update carries positive, well-formed factors; records with
/// malformed numeric fields are rejected before they reach the graph.
pub open spec fn price_update_wf(u: PriceUpdate) -> bool {
    &&& rat_wf(u.forward_factor)
    &&& u.forward_factor.num > 0
    &&& rat_wf(u.backward_factor)
    &&& u.backward_factor.num > 0
}

/// A graph vertex: one currency as held on one exchange. Identity is the
/// structural equality of the pair of strings.
#[derive(Debug)]
pub struct Vertex {
    pub exchange: String,
    pub currency: String,
}

impl Vertex {
    /// The identity of the vertex: the pair of field views.
    pub open spec fn key(self) -> (Seq<char>, Seq<char>) {
        (self.exchange@, self.currency@)
    }
}

impl Clone for Vertex {
    fn clone(&self) -> (r: Self)
        ensures
            r.key() == self.key(),
    {
        Vertex { exchange: self.exchange.clone(), currency: self.currency.clone() }
    }
}

impl PartialEq for Vertex {
    fn eq(&self, other: &Self) -> (r: bool) {
        self.exchange == other.exchange && self.currency == other.currency
    }
}

impl vstd::std_specs::cmp::PartialEqSpecImpl for Vertex {
    open spec fn obeys_eq_spec() -> bool {
        true
    }

    open spec fn eq_spec(&self, other: &Self) -> bool {
        self.key() == other.key()
    }
}

/// A directed edge of the rate graph: at most one exists per ordered pair of
/// vertex indices, and updating it mutates rate and timestamp in place.
#[derive(Clone, Copy, Debug, PartialEq, Eq, Structural)]
pub struct Edge {
    pub source_index: usize,
    pub dest_index: usize,
    pub rate: Rational,
    pub timestamp: Timestamp,
}

/// A request for the best conversion rate between two vertices.
#[derive(Debug)]
pub struct ExchangeRateRequest {
    pub source_exchange: String,
    pub source_currency: String,
    pub destination_exchange: String,
    pub destination_currency: String,
}

impl Clone for ExchangeRateRequest {
    fn clone(&self) -> (r: Self)
        ensures
            r.source_exchange@ == self.source_exchange@,
            r.source_currency@ == self.source_currency@,
            r.destination_exchange@ == self.destination_exchange@,
            r.destination_currency@ == self.destination_currency@,
    {
        ExchangeRateRequest {
            source_exchange: self.source_exchange.clone(),
            source_currency: self.source_currency.clone(),
            destination_exchange: self.destination_exchange.clone(),
            destination_currency: self.destination_currency.clone(),
        }
    }
}

} // verus!
