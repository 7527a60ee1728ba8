use exchange_rate_path::datetime_helpers::get_datetime_from_string;
use exchange_rate_path::graph_helpers::{
    apply_price_update, get_index_from_node, graph_contains, vertex_string_format, RateGraph,
};
use exchange_rate_path::io_helpers::{exchange_rate_request, price_update};
use exchange_rate_path::modified_floyd_warshall_helpers::{
    make_best_rate_table, process_rate_request,
};
use exchange_rate_path::rational::Rational;
use exchange_rate_path::{PriceUpdate, Vertex};

fn toks(line: &str) -> Vec<String> {
    line.split_whitespace().map(|s| s.to_string()).collect()
}

fn update(line: &str) -> PriceUpdate {
    price_update(&toks(line)).expect("well-formed update line")
}

fn graph_with(lines: &[&str]) -> RateGraph {
    let mut g = RateGraph::new();
    for line in lines {
        let u = update(line);
        apply_price_update(&u, &mut g);
    }
    g
}

fn vertex(exchange: &str, currency: &str) -> Vertex {
    Vertex { exchange: exchange.to_string(), currency: currency.to_string() }
}

fn index_of(g: &RateGraph, exchange: &str, currency: &str) -> usize {
    get_index_from_node(&vertex(exchange, currency), g).expect("vertex exists")
}

/// The rational equals n / d.
fn rat_is(r: &Rational, n: u64, d: u64) -> bool {
    r.eq_rat(Rational { num: n, den: d })
}

#[test]
fn vertex_label_format() {
    assert_eq!(vertex_string_format(&vertex("KRAKEN", "BTC")), "KRAKEN, BTC");
}

#[test]
fn update_creates_vertices_and_self_loops() {
    let g = graph_with(&["2017-11-01T09:42:23+00:00 KRAKEN BTC USD 1000 0.0009"]);
    assert_eq!(g.vertex_count(), 2);
    assert!(graph_contains(&vertex("KRAKEN", "BTC"), &g));
    assert!(graph_contains(&vertex("KRAKEN", "USD"), &g));
    let btc = index_of(&g, "KRAKEN", "BTC");
    let usd = index_of(&g, "KRAKEN", "USD");
    let loop_btc = g.find_edge(btc, btc).expect("self-loop exists");
    assert!(rat_is(&loop_btc.rate, 1, 1));
    let loop_usd = g.find_edge(usd, usd).expect("self-loop exists");
    assert!(rat_is(&loop_usd.rate, 1, 1));
    let fwd = g.find_edge(btc, usd).expect("quoted edge exists");
    assert!(rat_is(&fwd.rate, 1000, 1));
    let back = g.find_edge(usd, btc).expect("reverse edge exists");
    assert!(rat_is(&back.rate, 9, 10000));
}

#[test]
fn repeated_update_adds_no_vertices() {
    let line = "2017-11-01T09:42:23+00:00 KRAKEN BTC USD 1000 0.0009";
    let g = graph_with(&[line, line]);
    assert_eq!(g.vertex_count(), 2);
}

#[test]
fn bridges_link_same_currency_across_exchanges() {
    let g = graph_with(&[
        "2017-11-01T09:42:23+00:00 KRAKEN BTC USD 1000 0.0009",
        "2017-11-01T09:42:24+00:00 GDAX BTC USD 995 0.0009",
    ]);
    let kraken_btc = index_of(&g, "KRAKEN", "BTC");
    let gdax_btc = index_of(&g, "GDAX", "BTC");
    let over = g.find_edge(kraken_btc, gdax_btc).expect("bridge exists");
    let back = g.find_edge(gdax_btc, kraken_btc).expect("bridge exists");
    assert!(rat_is(&over.rate, 1, 1));
    assert!(rat_is(&back.rate, 1, 1));
}

#[test]
fn newer_update_replaces_rate_and_timestamp() {
    let g = graph_with(&[
        "2017-11-01T09:42:23+00:00 KRAKEN BTC USD 1000 0.0009",
        "2017-11-01T09:43:23+00:00 KRAKEN BTC USD 900 0.001",
    ]);
    let btc = index_of(&g, "KRAKEN", "BTC");
    let usd = index_of(&g, "KRAKEN", "USD");
    let fwd = g.find_edge(btc, usd).expect("edge exists");
    assert!(rat_is(&fwd.rate, 900, 1));
    assert_eq!(fwd.timestamp, get_datetime_from_string("2017-11-01T09:43:23+00:00").unwrap());
    let back = g.find_edge(usd, btc).expect("edge exists");
    assert!(rat_is(&back.rate, 1, 1000));
}

#[test]
fn older_update_is_discarded() {
    let g = graph_with(&[
        "2017-11-01T09:43:23+00:00 KRAKEN BTC USD 900 0.001",
        "2017-11-01T09:42:23+00:00 KRAKEN BTC USD 1000 0.0009",
    ]);
    let btc = index_of(&g, "KRAKEN", "BTC");
    let usd = index_of(&g, "KRAKEN", "USD");
    let fwd = g.find_edge(btc, usd).expect("edge exists");
    assert!(rat_is(&fwd.rate, 900, 1));
    assert_eq!(fwd.timestamp, get_datetime_from_string("2017-11-01T09:43:23+00:00").unwrap());
}

#[test]
fn equally_old_update_is_discarded() {
    let g = graph_with(&[
        "2017-11-01T09:42:23+00:00 KRAKEN BTC USD 1000 0.0009",
        "2017-11-01T09:42:23+00:00 KRAKEN BTC USD 900 0.001",
    ]);
    let btc = index_of(&g, "KRAKEN", "BTC");
    let usd = index_of(&g, "KRAKEN", "USD");
    let fwd = g.find_edge(btc, usd).expect("edge exists");
    assert!(rat_is(&fwd.rate, 1000, 1));
}

#[test]
fn bridge_not_overwritten_by_later_updates() {
    let created = "2017-11-01T09:42:24+00:00";
    let g = graph_with(&[
        "2017-11-01T09:42:23+00:00 KRAKEN BTC USD 1000 0.0009",
        &format!("{created} GDAX BTC EUR 30000 0.00003"),
        "2017-11-01T09:50:00+00:00 KRAKEN BTC USD 1200 0.0008",
    ]);
    let kraken_btc = index_of(&g, "KRAKEN", "BTC");
    let gdax_btc = index_of(&g, "GDAX", "BTC");
    let bridge = g.find_edge(kraken_btc, gdax_btc).expect("bridge exists");
    assert!(rat_is(&bridge.rate, 1, 1));
    assert_eq!(bridge.timestamp, get_datetime_from_string(created).unwrap());
    let self_loop = g.find_edge(kraken_btc, kraken_btc).expect("self-loop exists");
    assert!(rat_is(&self_loop.rate, 1, 1));
}

#[test]
fn initial_table_reads_edges_and_zeroes() {
    let g = graph_with(&["2017-11-01T09:42:23+00:00 KRAKEN BTC USD 1000 0.0009"]);
    let t = make_best_rate_table(&g);
    let btc = index_of(&g, "KRAKEN", "BTC");
    let usd = index_of(&g, "KRAKEN", "USD");
    assert!(rat_is(&t.get(btc, usd), 1000, 1));
    assert!(rat_is(&t.get(btc, btc), 1, 1));
    // no arc back beyond the quoted one: usd -> btc exists, so check a
    // genuinely absent pair by adding an unrelated exchange
    let g2 = graph_with(&[
        "2017-11-01T09:42:23+00:00 KRAKEN BTC USD 1000 0.0009",
        "2017-11-01T09:42:24+00:00 GDAX ETH EUR 300 0.003",
    ]);
    let t2 = make_best_rate_table(&g2);
    let kb = index_of(&g2, "KRAKEN", "BTC");
    let ge = index_of(&g2, "GDAX", "ETH");
    assert!(rat_is(&t2.get(kb, ge), 0, 1));
}

#[test]
fn scenario_latest_quote_wins() {
    let g = graph_with(&[
        "2017-11-01T09:42:23+00:00 KRAKEN BTC USD 1000 0.0009",
        "2017-11-01T09:43:23+00:00 KRAKEN BTC USD 900 0.001",
    ]);
    let req = exchange_rate_request(&toks("EXCHANGE_RATE_REQUEST KRAKEN BTC KRAKEN USD"));
    let (best, path) = process_rate_request(&req, &g);
    let best = best.expect("both endpoints exist");
    assert!(rat_is(&best, 900, 1), "best rate reflects the newer quote, got {}/{}", best.num, best.den);
    assert!(path.is_some());
}

#[test]
fn scenario_two_hop_across_bridge() {
    let g = graph_with(&[
        "2017-11-01T09:42:23+00:00 GDAX BTC USD 995 0.0009",
        "2017-11-01T09:42:24+00:00 BITSTAMP BTC EUR 29000 0.00003",
        "2017-11-01T09:42:25+00:00 KRAKEN BTC USD 1000 0.0009",
    ]);
    let req = exchange_rate_request(&toks("EXCHANGE_RATE_REQUEST GDAX BTC KRAKEN USD"));
    let (best, path) = process_rate_request(&req, &g);
    let best = best.expect("both endpoints exist");
    assert!(rat_is(&best, 1000, 1), "best crosses the bridge, got {}/{}", best.num, best.den);
    let path = path.expect("a path exists");
    let gdax_btc = index_of(&g, "GDAX", "BTC");
    let kraken_btc = index_of(&g, "KRAKEN", "BTC");
    let kraken_usd = index_of(&g, "KRAKEN", "USD");
    assert_eq!(*path.first().unwrap(), gdax_btc);
    assert_eq!(*path.last().unwrap(), kraken_usd);
    assert!(path.contains(&kraken_btc), "the best path crosses the BTC bridge");
    assert!(path.len() <= g.vertex_count());
}

#[test]
fn scenario_unknown_endpoint_is_no_data() {
    let g = graph_with(&["2017-11-01T09:42:23+00:00 KRAKEN BTC USD 1000 0.0009"]);
    let req = exchange_rate_request(&toks("EXCHANGE_RATE_REQUEST NOWHERE XMR KRAKEN USD"));
    let (best, path) = process_rate_request(&req, &g);
    assert!(best.is_none());
    assert!(path.is_none());
}

#[test]
fn request_against_empty_graph_is_no_data() {
    let g = RateGraph::new();
    let req = exchange_rate_request(&toks("EXCHANGE_RATE_REQUEST KRAKEN BTC KRAKEN USD"));
    let (best, path) = process_rate_request(&req, &g);
    assert!(best.is_none());
    assert!(path.is_none());
}

#[test]
fn self_conversion_is_identity() {
    let g = graph_with(&[
        "2017-11-01T09:42:23+00:00 KRAKEN BTC USD 1000 0.0009",
        "2017-11-01T09:42:24+00:00 GDAX BTC USD 995 0.0009",
    ]);
    let req = exchange_rate_request(&toks("EXCHANGE_RATE_REQUEST KRAKEN BTC KRAKEN BTC"));
    let (best, path) = process_rate_request(&req, &g);
    let best = best.expect("vertex exists");
    assert!(rat_is(&best, 1, 1), "self-conversion is exactly 1, got {}/{}", best.num, best.den);
    let path = path.expect("the trivial path exists");
    assert_eq!(path.len(), 1);
}

#[test]
fn solved_rate_never_below_direct_edge() {
    let g = graph_with(&[
        "2017-11-01T09:42:23+00:00 KRAKEN BTC USD 1000 0.0009",
        "2017-11-01T09:42:24+00:00 GDAX BTC USD 995 0.0009",
    ]);
    let req = exchange_rate_request(&toks("EXCHANGE_RATE_REQUEST GDAX BTC GDAX USD"));
    let (best, _) = process_rate_request(&req, &g);
    let best = best.expect("both endpoints exist");
    // the direct GDAX edge quotes 995; the bridge to KRAKEN offers 1000
    assert!((best.num as u128) * 1 >= 995 * (best.den as u128));
    assert!(rat_is(&best, 1000, 1));
}

#[test]
fn unreachable_pair_reports_rate_zero() {
    // both endpoints exist but no arc connects the two currencies' components
    let g = graph_with(&[
        "2017-11-01T09:42:23+00:00 KRAKEN BTC USD 1000 0.0009",
        "2017-11-01T09:42:24+00:00 GDAX ETH EUR 300 0.003",
    ]);
    let req = exchange_rate_request(&toks("EXCHANGE_RATE_REQUEST KRAKEN BTC GDAX ETH"));
    let (best, _) = process_rate_request(&req, &g);
    let best = best.expect("both endpoints exist");
    assert!(rat_is(&best, 0, 1), "no known conversion reads as 0");
}

#[test]
fn same_currency_quote_does_not_displace_fresh_self_loop() {
    // the bridge pass lays the self-loop first with the update's own
    // timestamp, so the quoted self-pair of the same record is not newer
    let g = graph_with(&["2017-11-01T09:42:23+00:00 KRAKEN BTC BTC 2 2"]);
    let btc = index_of(&g, "KRAKEN", "BTC");
    let self_loop = g.find_edge(btc, btc).expect("self-loop exists");
    assert!(rat_is(&self_loop.rate, 1, 1));
}

#[test]
fn vertex_indices_are_stable_across_updates() {
    let mut g = graph_with(&["2017-11-01T09:42:23+00:00 KRAKEN BTC USD 1000 0.0009"]);
    let btc_before = index_of(&g, "KRAKEN", "BTC");
    let usd_before = index_of(&g, "KRAKEN", "USD");
    let u = update("2017-11-01T09:42:24+00:00 GDAX BTC EUR 30000 0.00003");
    apply_price_update(&u, &mut g);
    assert_eq!(index_of(&g, "KRAKEN", "BTC"), btc_before);
    assert_eq!(index_of(&g, "KRAKEN", "USD"), usd_before);
    assert_eq!(g.vertex_count(), 4);
}

#[test]
fn repeated_requests_answer_identically() {
    let g = graph_with(&[
        "2017-11-01T09:42:23+00:00 GDAX BTC USD 995 0.0009",
        "2017-11-01T09:42:24+00:00 BITSTAMP BTC EUR 29000 0.00003",
        "2017-11-01T09:42:25+00:00 KRAKEN BTC USD 1000 0.0009",
    ]);
    let req = exchange_rate_request(&toks("EXCHANGE_RATE_REQUEST GDAX BTC KRAKEN USD"));
    let (best1, path1) = process_rate_request(&req, &g);
    let (best2, path2) = process_rate_request(&req, &g);
    assert_eq!(best1.unwrap(), best2.unwrap());
    assert_eq!(path1.unwrap(), path2.unwrap());
}

#[test]
fn path_starts_and_ends_at_request_endpoints() {
    let g = graph_with(&[
        "2017-11-01T09:42:23+00:00 KRAKEN BTC USD 1000 0.0009",
        "2017-11-01T09:42:24+00:00 GDAX BTC USD 995 0.0009",
        "2017-11-01T09:42:25+00:00 GDAX USD EUR 0.9 1.1",
    ]);
    let req = exchange_rate_request(&toks("EXCHANGE_RATE_REQUEST KRAKEN BTC GDAX EUR"));
    let (_, path) = process_rate_request(&req, &g);
    let path = path.expect("a path exists");
    assert_eq!(*path.first().unwrap(), index_of(&g, "KRAKEN", "BTC"));
    assert_eq!(*path.last().unwrap(), index_of(&g, "GDAX", "EUR"));
    assert!(path.len() >= 1 && path.len() <= g.vertex_count());
    for i in path.iter() {
        assert!(g.vertex_at(*i).is_some());
    }
}
