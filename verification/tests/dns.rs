use whixp_transport::dns::SrvRecord;
use whixp_transport::dns::doh_select;
use whixp_transport::dns::doh_tier;
use whixp_transport::dns::first_reachable_index;
use whixp_transport::dns::parse_srv_answers;
use whixp_transport::dns::resolve_outcome;
use whixp_transport::dns::tier1_fallback;
use whixp_transport::dns::tier1_probe;
use whixp_transport::dns::parse_u16_str;
use whixp_transport::dns::resolve_xmpp;
use whixp_transport::dns::sort_srv_records;
use whixp_transport::dns::split_fields;
use whixp_transport::dns::srv_query_name;
use whixp_transport::dns::doh_query_url;
use whixp_transport::dns::trim_trailing_dots;
use whixp_transport::handshake::HandshakeError;

fn rec(priority: u16, weight: u16, port: u16, target: &str) -> SrvRecord {
    SrvRecord { priority, weight, port, target: target.to_string() }
}

#[test]
fn trim_removes_trailing_dots_only() {
    assert_eq!(trim_trailing_dots("example.com."), "example.com");
    assert_eq!(trim_trailing_dots("example.com..."), "example.com");
    assert_eq!(trim_trailing_dots("example.com"), "example.com");
    assert_eq!(trim_trailing_dots("..."), "");
    assert_eq!(trim_trailing_dots(""), "");
    assert_eq!(trim_trailing_dots(".a."), ".a");
}

#[test]
fn parse_u16_accepts_plain_decimals() {
    assert_eq!(parse_u16_str("0"), Some(0));
    assert_eq!(parse_u16_str("5222"), Some(5222));
    assert_eq!(parse_u16_str("65535"), Some(65535));
    assert_eq!(parse_u16_str("00042"), Some(42));
}

#[test]
fn parse_u16_rejects_bad_fields() {
    assert_eq!(parse_u16_str(""), None);
    assert_eq!(parse_u16_str("65536"), None);
    assert_eq!(parse_u16_str("99999999"), None);
    assert_eq!(parse_u16_str("12a"), None);
    assert_eq!(parse_u16_str("-1"), None);
    assert_eq!(parse_u16_str(" 1"), None);
}

#[test]
fn split_fields_on_whitespace_runs() {
    let fields = split_fields(" 10\t5  5222  a.example. ");
    assert_eq!(fields, vec!["10", "5", "5222", "a.example."]);
    assert!(split_fields("   ").is_empty());
    assert!(split_fields("").is_empty());
}

#[test]
fn srv_query_name_shape() {
    assert_eq!(
        srv_query_name("xmpp-client", "example.com"),
        "_xmpp-client._tcp.example.com"
    );
}

#[test]
fn doh_query_url_shape() {
    assert_eq!(
        doh_query_url("_xmpp-client._tcp.example.com"),
        "https://cloudflare-dns.com/dns-query?name=_xmpp-client._tcp.example.com&type=SRV"
    );
}

#[test]
fn srv_tie_break_prefers_lower_priority() {
    // Records (priority=10, weight=5, target=a) and (priority=5, weight=1,
    // target=b): b comes first.
    let sorted = sort_srv_records(vec![rec(10, 5, 1, "a"), rec(5, 1, 2, "b")]);
    assert_eq!(sorted[0].target, "b");
    assert_eq!(sorted[1].target, "a");
}

#[test]
fn srv_tie_break_uses_weight_within_priority() {
    let sorted = sort_srv_records(vec![
        rec(5, 9, 1, "heavy"),
        rec(5, 1, 2, "light"),
        rec(1, 50, 3, "first"),
    ]);
    assert_eq!(sorted[0].target, "first");
    assert_eq!(sorted[1].target, "light");
    assert_eq!(sorted[2].target, "heavy");
}

#[test]
fn parse_srv_answers_filters_and_parses() {
    let answers: Vec<(u32, String)> = vec![
        (33, "10 5 5222 a.example.".to_string()),
        (1, "192.0.2.1".to_string()),
        (33, "not numeric at all".to_string()),
        (33, "5 1 5223 b.example".to_string()),
        (33, "too few".to_string()),
    ];
    let records = parse_srv_answers(answers);
    assert_eq!(records.len(), 2);
    assert_eq!(records[0].priority, 10);
    assert_eq!(records[0].weight, 5);
    assert_eq!(records[0].port, 5222);
    assert_eq!(records[0].target, "a.example");
    assert_eq!(records[1].target, "b.example");
}

#[test]
fn doh_pipeline_selects_lowest_priority_first() {
    // The DNS-over-HTTPS tier: parse answers, sort, take the first.
    let answers: Vec<(u32, String)> = vec![
        (33, "10 5 5222 a.example.".to_string()),
        (33, "5 1 5223 b.example.".to_string()),
    ];
    let sorted = sort_srv_records(parse_srv_answers(answers));
    assert_eq!(sorted[0].target, "b.example");
    assert_eq!(sorted[0].port, 5223);
}

#[test]
fn resolve_rejects_empty_domain() {
    match resolve_xmpp("", 5222, None, false) {
        Err(HandshakeError::Connection(m)) => assert_eq!(m, "empty domain"),
        other => panic!("expected a connection error, got {:?}", other),
    }
    match resolve_xmpp("...", 5222, None, false) {
        Err(HandshakeError::Connection(m)) => assert_eq!(m, "empty domain"),
        other => panic!("expected a connection error, got {:?}", other),
    }
}

#[test]
fn resolve_passthrough_without_service() {
    let (host, port) = resolve_xmpp("example.com", 5222, None, false).unwrap();
    assert_eq!(host, "example.com");
    assert_eq!(port, 5222);
}

#[test]
fn resolve_trims_domain_dots() {
    let (host, port) = resolve_xmpp("example.com.", 5269, None, true).unwrap();
    assert_eq!(host, "example.com");
    assert_eq!(port, 5269);
}

#[test]
fn resolve_empty_service_is_passthrough() {
    let (host, port) = resolve_xmpp("example.com", 5222, Some(""), false).unwrap();
    assert_eq!(host, "example.com");
    assert_eq!(port, 5222);
    let (host, port) = resolve_xmpp("example.com", 5222, Some("..."), false).unwrap();
    assert_eq!(host, "example.com");
    assert_eq!(port, 5222);
}

#[test]
fn tier1_probe_takes_resolving_target() {
    let r = rec(5, 1, 5223, "b.example.");
    assert_eq!(tier1_probe(&r, true), Some(("b.example".to_string(), 5223)));
    assert_eq!(tier1_probe(&r, false), None);
}

#[test]
fn tier1_fallback_returns_first_record_trimmed() {
    let r = rec(10, 5, 5222, "a.example.");
    assert_eq!(tier1_fallback(&r), ("a.example".to_string(), 5222));
}

#[test]
fn doh_select_takes_lowest_priority_entry() {
    let answers: Vec<(u32, String)> = vec![
        (33, "10 5 5222 a.example.".to_string()),
        (33, "5 1 5223 b.example.".to_string()),
        (1, "192.0.2.1".to_string()),
    ];
    assert_eq!(doh_select(answers), Some(("b.example".to_string(), 5223)));
}

#[test]
fn doh_select_breaks_priority_ties_by_weight() {
    let answers: Vec<(u32, String)> = vec![
        (33, "5 9 5222 heavy.example.".to_string()),
        (33, "5 1 5223 light.example.".to_string()),
    ];
    assert_eq!(doh_select(answers), Some(("light.example".to_string(), 5223)));
}

#[test]
fn doh_select_none_without_parseable_answers() {
    assert_eq!(doh_select(Vec::new()), None);
    let answers: Vec<(u32, String)> = vec![
        (1, "192.0.2.1".to_string()),
        (33, "garbage".to_string()),
        (33, "too few".to_string()),
    ];
    assert_eq!(doh_select(answers), None);
}

#[test]
fn resolve_outcome_prefers_tier_one_then_tier_two() {
    let t1 = Some(("one.example".to_string(), 1));
    let t2 = Some(("two.example".to_string(), 2));
    assert_eq!(
        resolve_outcome(t1.clone(), t2.clone(), "d.example".to_string(), 9),
        ("one.example".to_string(), 1)
    );
    assert_eq!(
        resolve_outcome(None, t2, "d.example".to_string(), 9),
        ("two.example".to_string(), 2)
    );
    assert_eq!(
        resolve_outcome(None, None, "d.example".to_string(), 9),
        ("d.example".to_string(), 9)
    );
}

#[test]
fn doh_tier_rejects_nonzero_status() {
    let answers: Vec<(u32, String)> = vec![(33, "5 1 5223 b.example.".to_string())];
    assert_eq!(doh_tier(2, answers.clone()), None);
    assert_eq!(doh_tier(3, answers.clone()), None);
    assert_eq!(doh_tier(0, answers), Some(("b.example".to_string(), 5223)));
}

#[test]
fn first_reachable_index_picks_first_set_bit_else_zero() {
    assert_eq!(first_reachable_index(&vec![false, false, true, true]), 2);
    assert_eq!(first_reachable_index(&vec![true, false]), 0);
    assert_eq!(first_reachable_index(&vec![false, false, false]), 0);
    assert_eq!(first_reachable_index(&vec![false]), 0);
}
