//! Service discovery: SRV lookup through the system resolver, a DNS-over-HTTPS
//! fallback, and plain passthrough when both tiers fail. SRV-related failures
//! never surface as errors; only an empty domain is rejected.

use vstd::prelude::*;
use vstd::string::StrSliceExecFns;
use vstd::string::StringExecFns;
use vstd::multiset::Multiset;
use vstd::seq_lib::group_to_multiset_ensures;
use vstd::seq_lib::to_multiset_insert;
use crate::handshake::HandshakeError;

verus! {

broadcast use group_to_multiset_ensures, to_multiset_insert;

/// One SRV record: priority, weight, port, and target host.
#[derive(Debug)]
pub struct SrvRecord {
    pub priority: u16,
    pub weight: u16,
    pub port: u16,
    pub target: String,
}

// ---------------------------------------------------------------------------
// Character-level helpers: trailing-dot trimming and decimal parsing.
// ---------------------------------------------------------------------------

/// `s` with every trailing `.` removed.
pub open spec fn trim_dots(s: Seq<char>) -> Seq<char>
    decreases s.len(),
{
    if s.len() > 0 && s.last() == '.' {
        trim_dots(s.drop_last())
    } else {
        s
    }
}

/// Remove every trailing `.` from `s`.
pub fn trim_trailing_dots(s: &str) -> (r: String)
    ensures
        r@ == trim_dots(s@),
{
    let n: usize = s.unicode_len();
    assert(s@.subrange(0, n as int) =~= s@);
    let mut k: usize = n;
    while k > 0 && s.get_char(k - 1) == '.'
        invariant
            k <= n,
            n == s@.len(),
            trim_dots(s@) == trim_dots(s@.subrange(0, k as int)),
        decreases k,
    {
        proof {
            assert(s@.subrange(0, k as int).drop_last() =~= s@.subrange(0, k - 1));
        }
        k = k - 1;
    }
    proof {
        if k > 0 {
            assert(s@.subrange(0, k as int).last() == s@[k - 1]);
        }
        assert(trim_dots(s@.subrange(0, k as int)) == s@.subrange(0, k as int));
    }
    String::from_str(s.substring_char(0, k))
}

pub proof fn lemma_trim_dots_idempotent(s: Seq<char>)
    ensures
        trim_dots(trim_dots(s)) == trim_dots(s),
    decreases s.len(),
{
    if s.len() > 0 && s.last() == '.' {
        lemma_trim_dots_idempotent(s.drop_last());
    }
}

/// A decimal digit.
pub open spec fn is_dec_digit(c: char) -> bool {
    48 <= c as int <= 57
}

/// The numeric value of a digit sequence (most significant first).
pub open spec fn digits_val(s: Seq<char>) -> int
    decreases s.len(),
{
    if s.len() == 0 {
        0
    } else {
        digits_val(s.drop_last()) * 10 + (s.last() as int - 48)
    }
}

pub open spec fn all_digits(s: Seq<char>) -> bool {
    forall|i: int| 0 <= i < s.len() ==> is_dec_digit(#[trigger] s[i])
}

/// What a decimal field parses to: its value when it is one or more digits
/// and fits in sixteen bits, nothing otherwise.
pub open spec fn parse_u16_spec(s: Seq<char>) -> Option<u16> {
    if s.len() == 0 || !all_digits(s) || digits_val(s) > 65535 {
        None
    } else {
        Some(digits_val(s) as u16)
    }
}

proof fn lemma_digits_val_grows(s: Seq<char>, i: int)
    requires
        0 <= i <= s.len(),
        all_digits(s),
        digits_val(s.subrange(0, i)) > 65535,
    ensures
        digits_val(s) > 65535,
    decreases s.len() - i,
{
    if i == s.len() {
        assert(s.subrange(0, i) =~= s);
    } else {
        assert(s.subrange(0, i + 1).drop_last() =~= s.subrange(0, i));
        assert(s.subrange(0, i + 1).last() == s[i]);
        assert(digits_val(s.subrange(0, i + 1)) > 65535);
        lemma_digits_val_grows(s, i + 1);
    }
}

/// Parse a decimal field as a sixteen-bit number.
pub fn parse_u16_str(s: &str) -> (r: Option<u16>)
    ensures
        r == parse_u16_spec(s@),
{
    let n: usize = s.unicode_len();
    if n == 0 {
        return None;
    }
    let mut val: u32 = 0;
    let mut i: usize = 0;
    while i < n
        invariant
            i <= n,
            n == s@.len(),
            all_digits(s@.subrange(0, i as int)),
            val as int == digits_val(s@.subrange(0, i as int)),
            val <= 65535,
        decreases n - i,
    {
        let c = s.get_char(i);
        let cv = c as u32;
        if !(48 <= cv && cv <= 57) {
            assert(!is_dec_digit(s@[i as int]));
            return None;
        }
        proof {
            assert(s@.subrange(0, i + 1).drop_last() =~= s@.subrange(0, i as int));
            assert(s@.subrange(0, i + 1).last() == s@[i as int]);
        }
        val = val * 10 + (cv - 48);
        if val > 65535 {
            proof {
                if all_digits(s@) {
                    lemma_digits_val_grows(s@, i + 1);
                }
            }
            return None;
        }
        i = i + 1;
    }
    assert(s@.subrange(0, n as int) =~= s@);
    Some(val as u16)
}

// ---------------------------------------------------------------------------
// Whitespace-separated fields of an SRV payload string.
// ---------------------------------------------------------------------------

/// ASCII whitespace, as the field splitter recognizes it.
pub open spec fn is_ws_char(c: char) -> bool {
    c == ' ' || c == '\t' || c == '\n' || c == '\r'
}

/// First index at or after `i` holding whitespace (or the end).
pub open spec fn word_end(s: Seq<char>, i: int) -> int
    decreases s.len() - i + 1,
{
    if i < 0 || i >= s.len() {
        s.len() as int
    } else if !is_ws_char(s[i]) {
        word_end(s, i + 1)
    } else {
        i
    }
}

proof fn lemma_word_end_bounds(s: Seq<char>, i: int)
    requires
        0 <= i <= s.len(),
    ensures
        i <= word_end(s, i) <= s.len(),
    decreases s.len() - i + 1,
{
    if i < s.len() && !is_ws_char(s[i]) {
        lemma_word_end_bounds(s, i + 1);
    }
}

/// The maximal non-whitespace runs of `s` from index `i` on, in order.
pub open spec fn fields_from(s: Seq<char>, i: int) -> Seq<Seq<char>>
    decreases s.len() - i + 1,
    when 0 <= i
    via fields_from_decreases
{
    if i >= s.len() {
        Seq::<Seq<char>>::empty()
    } else if is_ws_char(s[i]) {
        fields_from(s, i + 1)
    } else {
        let k = word_end(s, i);
        seq![s.subrange(i, k)] + fields_from(s, k)
    }
}

#[via_fn]
proof fn fields_from_decreases(s: Seq<char>, i: int) {
    if i < s.len() && !is_ws_char(s[i]) {
        lemma_word_end_bounds(s, i + 1);
    }
}

/// The views of a list of field strings.
pub open spec fn fields_views(v: Seq<String>) -> Seq<Seq<char>> {
    v.map_values(|f: String| f@)
}

/// Split `s` into its whitespace-separated fields.
pub fn split_fields(s: &str) -> (r: Vec<String>)
    ensures
        fields_views(r@) =~= fields_from(s@, 0),
{
    let n: usize = s.unicode_len();
    let mut out: Vec<String> = Vec::new();
    let mut i: usize = 0;
    while i < n
        invariant
            i <= n,
            n == s@.len(),
            fields_from(s@, 0) =~= fields_views(out@) + fields_from(s@, i as int),
        decreases n - i,
    {
        let c = s.get_char(i);
        if c == ' ' || c == '\t' || c == '\n' || c == '\r' {
            i = i + 1;
        } else {
            let ghost start = i as int;
            let mut k: usize = i;
            while k < n && !(s.get_char(k) == ' ' || s.get_char(k) == '\t' || s.get_char(k)
                == '\n' || s.get_char(k) == '\r')
                invariant
                    i <= k <= n,
                    n == s@.len(),
                    word_end(s@, i as int) == word_end(s@, k as int),
                decreases n - k,
            {
                k = k + 1;
            }
            assert(word_end(s@, i as int) == k as int);
            let field = String::from_str(s.substring_char(i, k));
            proof {
                assert(fields_from(s@, i as int) =~= seq![s@.subrange(i as int, k as int)]
                    + fields_from(s@, k as int));
                assert(fields_views(out@.push(field)) =~= fields_views(out@).push(field@));
            }
            out.push(field);
            i = k;
        }
    }
    assert(fields_from(s@, n as int) =~= Seq::<Seq<char>>::empty());
    assert(fields_views(out@) + Seq::<Seq<char>>::empty() =~= fields_views(out@));
    out
}

// ---------------------------------------------------------------------------
// SRV payload parsing ("priority weight port target") and record ordering.
// ---------------------------------------------------------------------------

/// What one SRV payload string parses to: the three numeric fields and the
/// target with trailing dots trimmed, when at least four fields are present
/// and the numbers parse.
pub open spec fn spec_parse_srv_data(s: Seq<char>) -> Option<(u16, u16, u16, Seq<char>)> {
    let fs = fields_from(s, 0);
    if fs.len() >= 4 {
        match (parse_u16_spec(fs[0]), parse_u16_spec(fs[1]), parse_u16_spec(fs[2])) {
            (Some(p), Some(w), Some(pt)) => Some((p, w, pt, trim_dots(fs[3]))),
            _ => None,
        }
    } else {
        None
    }
}

/// Parse one SRV payload string.
pub fn parse_srv_data(s: &str) -> (r: Option<SrvRecord>)
    ensures
        match r {
            Some(rec) => spec_parse_srv_data(s@) == Some(
                (rec.priority, rec.weight, rec.port, rec.target@),
            ),
            None => spec_parse_srv_data(s@) is None,
        },
{
    let fields = split_fields(s);
    if fields.len() < 4 {
        return None;
    }
    assert(fields@[0]@ == fields_from(s@, 0)[0]);
    assert(fields@[1]@ == fields_from(s@, 0)[1]);
    assert(fields@[2]@ == fields_from(s@, 0)[2]);
    assert(fields@[3]@ == fields_from(s@, 0)[3]);
    let p = parse_u16_str(fields[0].as_str());
    let w = parse_u16_str(fields[1].as_str());
    let pt = parse_u16_str(fields[2].as_str());
    match (p, w, pt) {
        (Some(p), Some(w), Some(pt)) => {
            let target = trim_trailing_dots(fields[3].as_str());
            Some(SrvRecord { priority: p, weight: w, port: pt, target })
        },
        _ => None,
    }
}

/// SRV preference order: lower priority first, then lower weight — the
/// deterministic simplification of the standard weighted tie-break.
pub open spec fn record_leq(a: SrvRecord, b: SrvRecord) -> bool {
    a.priority < b.priority || (a.priority == b.priority && a.weight <= b.weight)
}

/// The same preference order on parsed SRV entry views.
pub open spec fn pw_leq(a: (u16, u16, u16, Seq<char>), b: (u16, u16, u16, Seq<char>)) -> bool {
    a.0 < b.0 || (a.0 == b.0 && a.1 <= b.1)
}

pub open spec fn srv_sorted(s: Seq<SrvRecord>) -> bool {
    forall|i: int, j: int| 0 <= i < j < s.len() ==> record_leq(#[trigger] s[i], #[trigger] s[j])
}

fn record_le(a: &SrvRecord, b: &SrvRecord) -> (r: bool)
    ensures
        r == record_leq(*a, *b),
{
    a.priority < b.priority || (a.priority == b.priority && a.weight <= b.weight)
}

/// Sort records by (priority, weight), keeping exactly the same records.
pub fn sort_srv_records(records: Vec<SrvRecord>) -> (r: Vec<SrvRecord>)
    ensures
        srv_sorted(r@),
        r@.to_multiset() == records@.to_multiset(),
        r@.len() == records@.len(),
{
    let mut input = records;
    let mut out: Vec<SrvRecord> = Vec::new();
    loop
        invariant
            srv_sorted(out@),
            out@.to_multiset().add(input@.to_multiset()) =~= records@.to_multiset(),
            out@.len() + input@.len() == records@.len(),
        ensures
            input@.len() == 0,
        decreases input@.len(),
    {
        let ghost in_before = input@;
        match input.pop() {
            Some(x) => {
                proof {
                    assert(in_before =~= input@.push(x));
                    assert(in_before.to_multiset() =~= input@.to_multiset().insert(x));
                }
                let mut j: usize = 0;
                while j < out.len() && record_le(&out[j], &x)
                    invariant
                        j <= out@.len(),
                        forall|t: int| 0 <= t < j ==> record_leq(#[trigger] out@[t], x),
                    decreases out@.len() - j,
                {
                    j = j + 1;
                }
                proof {
                    let old_out = out@;
                    assert forall|t: int| j <= t < old_out.len() implies record_leq(
                        x,
                        #[trigger] old_out[t],
                    ) by {
                        if t > j as int {
                            assert(record_leq(old_out[j as int], old_out[t]));
                        }
                    }
                    assert(old_out.insert(j as int, x).to_multiset() =~= old_out.to_multiset()
                        .insert(x));
                }
                out.insert(j, x);
                proof {
                    assert(out@.to_multiset().add(input@.to_multiset())
                        =~= records@.to_multiset());
                }
            },
            None => {
                break;
            },
        }
    }
    proof {
        assert(input@.to_multiset() =~= Multiset::<SrvRecord>::empty());
        assert(out@.to_multiset().add(Multiset::<SrvRecord>::empty()) =~= out@.to_multiset());
    }
    out
}

// ---------------------------------------------------------------------------
// Query-name and URL construction.
// ---------------------------------------------------------------------------

/// Build the SRV query name `_service._tcp.domain`.
pub fn srv_query_name(service: &str, domain: &str) -> (r: String)
    ensures
        r@ == "_"@ + service@ + "._tcp."@ + domain@,
{
    let mut s = String::from_str("_");
    s.append(service);
    s.append("._tcp.");
    s.append(domain);
    proof {
        assert(s@ =~= "_"@ + service@ + "._tcp."@ + domain@);
    }
    s
}

/// Build the DNS-JSON query URL for an SRV lookup against the fixed public
/// resolver endpoint.
pub fn doh_query_url(srv_name: &str) -> (r: String)
    ensures
        r@ == "https://cloudflare-dns.com/dns-query?name="@ + srv_name@ + "&type=SRV"@,
{
    let mut s = String::from_str("https://cloudflare-dns.com/dns-query?name=");
    s.append(srv_name);
    s.append("&type=SRV");
    proof {
        assert(s@ =~= "https://cloudflare-dns.com/dns-query?name="@ + srv_name@ + "&type=SRV"@);
    }
    s
}

// ---------------------------------------------------------------------------
// Trusted lookups: the system resolver, address checks, and the
// DNS-over-HTTPS fetch. Their results depend on the network, so their
// contracts state only what holds of every outcome.
// ---------------------------------------------------------------------------

#[verifier::external_type_specification]
#[verifier::external_body]
pub struct ExResolver(trust_dns_resolver::Resolver);

/// Relies on trust_dns_resolver::Resolver::from_system_conf: a resolver
/// built from the system configuration, or `None` when that fails.
#[verifier::external_body]
fn resolver_from_system_conf() -> (r: Option<trust_dns_resolver::Resolver>)
{
    trust_dns_resolver::Resolver::from_system_conf().ok()
}

/// Relies on trust_dns_resolver::Resolver::srv_lookup: the SRV records of
/// `name`, each handed back as its priority, weight, port and target text;
/// `None` on any lookup failure.
#[verifier::external_body]
fn srv_lookup_records(resolver: &trust_dns_resolver::Resolver, name: &str) -> (r: Option<
    Vec<SrvRecord>,
>)
{
    let lookup = resolver.srv_lookup(name).ok()?;
    Some(
        lookup.iter().map(|srv| SrvRecord {
            priority: srv.priority(),
            weight: srv.weight(),
            port: srv.port(),
            target: srv.target().to_utf8(),
        }).collect(),
    )
}

/// Relies on trust_dns_resolver::Resolver::lookup_ip: whether `host`
/// resolves to at least one address right now.
#[verifier::external_body]
fn resolver_has_address(resolver: &trust_dns_resolver::Resolver, host: &str) -> (r: bool)
{
    match resolver.lookup_ip(host) {
        Ok(l) => l.iter().next().is_some(),
        Err(_) => false,
    }
}

/// Relies on ureq::get: performs one HTTPS GET of `url` with the DNS-JSON
/// accept header and hands back the response body text, or `None` on any
/// transport failure.
#[verifier::external_body]
fn doh_fetch(url: &str) -> (r: Option<String>)
{
    let resp = match ureq::get(url).set("Accept", "application/dns-json").call() {
        Ok(resp) => resp,
        Err(_) => return None,
    };
    resp.into_string().ok()
}

/// What a DNS-JSON body holds: the numeric status and, for each answer, its
/// record type number and payload text. A function of the body text alone.
pub uninterp spec fn dns_json_parse(body: Seq<char>) -> Option<(u32, Seq<(u32, Seq<char>)>)>;

/// The views of a parsed answer list.
pub open spec fn answers_views(v: Seq<(u32, String)>) -> Seq<(u32, Seq<char>)> {
    v.map_values(|p: (u32, String)| (p.0, p.1@))
}

/// Relies on serde_json::from_str and serde_json::Value accessors: decodes a
/// DNS-JSON body into its `Status` number and the `(type, data)` pairs of its
/// `Answer` array, missing fields defaulting to zero or empty. The result is
/// a function of the body text alone, named `dns_json_parse`.
#[verifier::external_body]
fn parse_dns_json(body: &str) -> (r: Option<(u32, Vec<(u32, String)>)>)
    ensures
        match r {
            Some(p) => dns_json_parse(body@) matches Some(q) && q.0 == p.0 && q.1
                == answers_views(p.1@),
            None => dns_json_parse(body@) is None,
        },
{
    let v: serde_json::Value = serde_json::from_str(body).ok()?;
    let status = v.get("Status").and_then(|x| x.as_u64()).unwrap_or(0) as u32;
    let answers: Vec<(u32, String)> = match v.get("Answer").and_then(|x| x.as_array()) {
        Some(arr) => arr.iter().map(|a| (
            a.get("type").and_then(|x| x.as_u64()).unwrap_or(0) as u32,
            a.get("data").and_then(|x| x.as_str()).unwrap_or("").to_string(),
        )).collect(),
        None => Vec::new(),
    };
    Some((status, answers))
}

// ---------------------------------------------------------------------------
// Answer filtering and the resolver entry point.
// ---------------------------------------------------------------------------

/// The SRV records among DNS-JSON answers: type 33 entries whose payload
/// parses, in answer order.
pub open spec fn spec_srv_answers(ans: Seq<(u32, Seq<char>)>) -> Seq<(u16, u16, u16, Seq<char>)>
    decreases ans.len(),
{
    if ans.len() == 0 {
        Seq::<(u16, u16, u16, Seq<char>)>::empty()
    } else {
        let head: Seq<(u16, u16, u16, Seq<char>)> = if ans[0].0 == 33 {
            match spec_parse_srv_data(ans[0].1) {
                Some(t) => seq![t],
                None => Seq::<(u16, u16, u16, Seq<char>)>::empty(),
            }
        } else {
            Seq::<(u16, u16, u16, Seq<char>)>::empty()
        };
        head + spec_srv_answers(ans.drop_first())
    }
}

/// The views of a list of SRV records.
pub open spec fn records_views(rs: Seq<SrvRecord>) -> Seq<(u16, u16, u16, Seq<char>)> {
    rs.map_values(|rec: SrvRecord| (rec.priority, rec.weight, rec.port, rec.target@))
}

/// Every target among the parsed answers already has its trailing dots
/// trimmed (the payload parser trims them).
pub proof fn lemma_srv_answers_targets_trimmed(ans: Seq<(u32, Seq<char>)>)
    ensures
        forall|i: int|
            0 <= i < spec_srv_answers(ans).len() ==> (#[trigger] spec_srv_answers(ans)[i]).3
                == trim_dots(spec_srv_answers(ans)[i].3),
    decreases ans.len(),
{
    if ans.len() > 0 {
        lemma_srv_answers_targets_trimmed(ans.drop_first());
        let head: Seq<(u16, u16, u16, Seq<char>)> = if ans[0].0 == 33 {
            match spec_parse_srv_data(ans[0].1) {
                Some(t) => seq![t],
                None => Seq::<(u16, u16, u16, Seq<char>)>::empty(),
            }
        } else {
            Seq::<(u16, u16, u16, Seq<char>)>::empty()
        };
        let tail = spec_srv_answers(ans.drop_first());
        assert(spec_srv_answers(ans) == head + tail);
        if ans[0].0 == 33 {
            match spec_parse_srv_data(ans[0].1) {
                Some(t) => {
                    lemma_trim_dots_idempotent(fields_from(ans[0].1, 0)[3]);
                    assert(t.3 == trim_dots(t.3));
                },
                None => {},
            }
        }
        assert forall|i: int|
            0 <= i < spec_srv_answers(ans).len() implies (#[trigger] spec_srv_answers(ans)[i]).3
                == trim_dots(spec_srv_answers(ans)[i].3) by {
            if i < head.len() {
                assert(spec_srv_answers(ans)[i] == head[0]);
            } else {
                assert(spec_srv_answers(ans)[i] == tail[i - head.len()]);
            }
        }
    }
}

/// Keep the type-33 answers whose payload parses as an SRV record.
pub fn parse_srv_answers(answers: Vec<(u32, String)>) -> (r: Vec<SrvRecord>)
    ensures
        records_views(r@) =~= spec_srv_answers(answers_views(answers@)),
{
    let ghost target = spec_srv_answers(answers_views(answers@));
    let n: usize = answers.len();
    proof {
        assert(answers_views(answers@).subrange(0, n as int) =~= answers_views(answers@));
        assert(records_views(Seq::<SrvRecord>::empty()) =~= Seq::<
            (u16, u16, u16, Seq<char>),
        >::empty());
    }
    let mut out: Vec<SrvRecord> = Vec::new();
    let mut i: usize = 0;
    while i < n
        invariant
            i <= n,
            n == answers@.len(),
            target =~= records_views(out@) + spec_srv_answers(
                answers_views(answers@).subrange(i as int, n as int),
            ),
            target == spec_srv_answers(answers_views(answers@)),
        decreases n - i,
    {
        let ghost avs = answers_views(answers@);
        let ghost tail = avs.subrange(i as int, n as int);
        proof {
            assert(tail[0] == avs[i as int]);
            assert(tail.drop_first() =~= avs.subrange(i + 1, n as int));
        }
        let typ = answers[i].0;
        if typ == 33 {
            match parse_srv_data(answers[i].1.as_str()) {
                Some(rec) => {
                    proof {
                        assert(records_views(out@.push(rec)) =~= records_views(out@).push(
                            (rec.priority, rec.weight, rec.port, rec.target@),
                        ));
                    }
                    out.push(rec);
                },
                None => {},
            }
        }
        i = i + 1;
    }
    proof {
        assert(answers_views(answers@).subrange(n as int, n as int) =~= Seq::<
            (u32, Seq<char>),
        >::empty());
        assert(records_views(out@) + Seq::<(u16, u16, u16, Seq<char>)>::empty() =~= records_views(
            out@,
        ));
    }
    out
}

/// The effective service name: `None` when no service was given or it is
/// empty after trailing dots are trimmed.
pub open spec fn effective_service(service: Option<Seq<char>>) -> Option<Seq<char>> {
    match service {
        Some(s) => if trim_dots(s).len() == 0 {
            None
        } else {
            Some(trim_dots(s))
        },
        None => None,
    }
}

/// The view of an optional service argument.
pub open spec fn service_view(service: Option<&str>) -> Option<Seq<char>> {
    match service {
        Some(s) => Some(s@),
        None => None,
    }
}

/// One tier-1 probe, in preference order: a record whose target resolved to
/// an address is taken, as its trimmed target and SRV port; one whose target
/// did not resolve is passed over.
pub fn tier1_probe(record: &SrvRecord, has_address: bool) -> (r: Option<(String, u16)>)
    ensures
        has_address ==> (r matches Some(p) && p.0@ == trim_dots(record.target@) && p.1
            == record.port),
        !has_address ==> r is None,
{
    if has_address {
        Some((trim_trailing_dots(record.target.as_str()), record.port))
    } else {
        None
    }
}

/// Tier-1 fallback when no target resolved: the first record in preference
/// order, its target trimmed, regardless of reachability.
pub fn tier1_fallback(record: &SrvRecord) -> (r: (String, u16))
    ensures
        r.0@ == trim_dots(record.target@),
        r.1 == record.port,
{
    (trim_trailing_dots(record.target.as_str()), record.port)
}

/// The tier-1 preference rule over the per-target address-lookup outcomes:
/// the first index whose bit is set, or index 0 when no bit is.
pub fn first_reachable_index(has_addr: &Vec<bool>) -> (r: usize)
    requires
        has_addr@.len() > 0,
    ensures
        r < has_addr@.len(),
        (exists|t: int| 0 <= t < has_addr@.len() && has_addr@[t]) ==> (has_addr@[r as int] && (
        forall|t: int| 0 <= t < r ==> !has_addr@[t])),
        (forall|t: int| 0 <= t < has_addr@.len() ==> !has_addr@[t]) ==> r == 0,
{
    let n = has_addr.len();
    let mut i: usize = 0;
    while i < n
        invariant
            i <= n,
            n == has_addr@.len(),
            forall|t: int| 0 <= t < i ==> !has_addr@[t],
        decreases n - i,
    {
        if has_addr[i] {
            return i;
        }
        i = i + 1;
    }
    0
}

/// Tier-1 selection over records already in preference order: look up each
/// target in turn, stopping at the first that has an address; the contracted
/// index rule then takes that record, or falls back to the first record when
/// no target resolved. Every outcome is the trimmed target and SRV port of
/// one of the given records.
fn tier1_select(resolver: &trust_dns_resolver::Resolver, sorted: &Vec<SrvRecord>) -> (r: (
    String,
    u16,
))
    requires
        sorted@.len() > 0,
    ensures
        r.0@ == trim_dots(r.0@),
        exists|i: int|
            0 <= i < sorted@.len() && r.0@ == trim_dots((#[trigger] sorted@[i]).target@) && r.1
                == sorted@[i].port,
{
    let n = sorted.len();
    // Gather the address-lookup outcomes, in order, stopping at the first
    // hit so no lookup is wasted once a target has resolved.
    let mut has_addr: Vec<bool> = Vec::new();
    loop
        invariant_except_break
            has_addr@.len() < n,
            n == sorted@.len(),
            forall|t: int| 0 <= t < has_addr@.len() ==> !has_addr@[t],
        ensures
            0 < has_addr@.len() <= n,
            n == sorted@.len(),
            forall|t: int| 0 <= t < has_addr@.len() - 1 ==> !has_addr@[t],
        decreases n - has_addr@.len(),
    {
        let i = has_addr.len();
        let target = trim_trailing_dots(sorted[i].target.as_str());
        let resolved = resolver_has_address(resolver, target.as_str());
        has_addr.push(resolved);
        if resolved || has_addr.len() >= n {
            break;
        }
    }
    let idx = first_reachable_index(&has_addr);
    if has_addr[idx] {
        match tier1_probe(&sorted[idx], has_addr[idx]) {
            Some(p) => {
                proof {
                    lemma_trim_dots_idempotent(sorted@[idx as int].target@);
                    assert(p.0@ == trim_dots(sorted@[idx as int].target@));
                }
                p
            },
            None => {
                // Unreachable: a set bit always yields the record.
                assert(false);
                (String::new(), 0)
            },
        }
    } else {
        // No target resolved: fall back to the first record.
        let p = tier1_fallback(&sorted[0]);
        proof {
            lemma_trim_dots_idempotent(sorted@[0].target@);
            assert(p.0@ == trim_dots(sorted@[0].target@));
        }
        p
    }
}

/// What tier-2 selection promises of its result on a given answer list:
/// something is selected exactly when an answer parses, and the selection is
/// a parseable type-33 entry least in the (priority, weight) order — its
/// target already trimmed — with no reachability check.
pub open spec fn doh_selection_ok(r: Option<(String, u16)>, answers: Seq<(u32, String)>) -> bool {
    let parsed = spec_srv_answers(answers_views(answers));
    &&& (r is Some) == (parsed.len() > 0)
    &&& (r matches Some(p) ==> p.0@ == trim_dots(p.0@))
    &&& (r matches Some(p) ==> exists|i: int|
        0 <= i < parsed.len() && p.0@ == (#[trigger] parsed[i]).3 && p.1 == parsed[i].2 && (
        forall|j: int| 0 <= j < parsed.len() ==> pw_leq(parsed[i], #[trigger] parsed[j])))
}

/// Tier-2 selection among the answers of one decoded response.
pub fn doh_select(answers: Vec<(u32, String)>) -> (r: Option<(String, u16)>)
    ensures
        doh_selection_ok(r, answers@),
{
    let ghost parsed_views = spec_srv_answers(answers_views(answers@));
    let parsed = parse_srv_answers(answers);
    let ghost pv = parsed@;
    assert(records_views(pv).len() == parsed_views.len());
    if parsed.len() == 0 {
        return None;
    }
    let mut sorted = sort_srv_records(parsed);
    let ghost sv = sorted@;
    let first = sorted.remove(0);
    proof {
        assert(first == sv[0]);
        assert(sv.contains(sv[0]));
        assert(sv.to_multiset().count(sv[0]) > 0);
        assert(pv.to_multiset().count(sv[0]) > 0);
        assert(pv.contains(sv[0]));
        let w = choose|t: int| 0 <= t < pv.len() && pv[t] == sv[0];
        assert(records_views(pv)[w] == (pv[w].priority, pv[w].weight, pv[w].port, pv[w].target@));
        assert(parsed_views[w].3 == first.target@);
        assert(parsed_views[w].2 == first.port);
        assert forall|j: int| 0 <= j < parsed_views.len() implies pw_leq(
            parsed_views[w],
            #[trigger] parsed_views[j],
        ) by {
            assert(records_views(pv)[j] == (pv[j].priority, pv[j].weight, pv[j].port, pv[j].target@));
            assert(pv.contains(pv[j]));
            assert(pv.to_multiset().count(pv[j]) > 0);
            assert(sv.to_multiset().count(pv[j]) > 0);
            assert(sv.contains(pv[j]));
            let k = choose|k: int| 0 <= k < sv.len() && sv[k] == pv[j];
            if k > 0 {
                assert(record_leq(sv[0], sv[k]));
            }
            assert(record_leq(sv[0], pv[j]));
        }
        lemma_srv_answers_targets_trimmed(answers_views(answers@));
        assert(parsed_views[w].3 == trim_dots(parsed_views[w].3));
    }
    Some((first.target, first.port))
}

/// The whole of tier 2 for one decoded response: a nonzero DNS status fails
/// the tier outright; a zero status selects among the answers.
pub fn doh_tier(status: u32, answers: Vec<(u32, String)>) -> (r: Option<(String, u16)>)
    ensures
        status != 0 ==> r is None,
        status == 0 ==> doh_selection_ok(r, answers@),
{
    if status == 0 {
        doh_select(answers)
    } else {
        None
    }
}

/// The tier cascade: the first discovery tier that produced a target wins;
/// total exhaustion falls back to the passthrough pair, which is success,
/// never an error.
pub fn resolve_outcome(
    tier1: Option<(String, u16)>,
    tier2: Option<(String, u16)>,
    domain: String,
    port: u16,
) -> (r: (String, u16))
    ensures
        tier1 matches Some(p) ==> r == p,
        tier1 is None ==> (tier2 matches Some(p) ==> r == p),
        (tier1 is None && tier2 is None) ==> (r.0 == domain && r.1 == port),
{
    match tier1 {
        Some(p) => p,
        None => match tier2 {
            Some(p) => p,
            None => (domain, port),
        },
    }
}

/// Resolve a connection target. With no service name, the trimmed domain and
/// given port pass through unchanged. With one, SRV records are discovered
/// through the system resolver and then a DNS-over-HTTPS fallback, preferred
/// by (priority, weight); if both tiers fail, the trimmed domain and port
/// pass through. An empty domain is the only error, and the returned host
/// never carries a trailing dot.
pub fn resolve_xmpp(domain: &str, port: u16, service: Option<&str>, use_ipv6: bool) -> (r: Result<
    (String, u16),
    HandshakeError,
>)
    ensures
        trim_dots(domain@).len() == 0 ==> (r matches Err(e) && e matches HandshakeError::Connection(m) && m@ == "empty domain"@),
        trim_dots(domain@).len() > 0 ==> r is Ok,
        (trim_dots(domain@).len() > 0 && effective_service(service_view(service)) is None) ==> (r matches Ok(p) && p.0@ == trim_dots(domain@) && p.1 == port),
        r matches Ok(p) ==> p.0@ == trim_dots(p.0@),
{
    let d = trim_trailing_dots(domain);
    proof {
        lemma_trim_dots_idempotent(domain@);
    }
    if d.as_str().unicode_len() == 0 {
        return Err(HandshakeError::Connection(String::from_str("empty domain")));
    }
    let svc: Option<String> = match service {
        Some(s) => {
            let t = trim_trailing_dots(s);
            if t.as_str().unicode_len() == 0 {
                None
            } else {
                Some(t)
            }
        },
        None => None,
    };
    let svc = match svc {
        None => {
            return Ok((d, port));
        },
        Some(s) => s,
    };
    let qname = srv_query_name(svc.as_str(), d.as_str());

    // Tier 1: the system resolver, with the contracted selection above.
    let tier1: Option<(String, u16)> = match resolver_from_system_conf() {
        Some(resolver) => match srv_lookup_records(&resolver, qname.as_str()) {
            Some(records) => {
                if records.len() > 0 {
                    let sorted = sort_srv_records(records);
                    Some(tier1_select(&resolver, &sorted))
                } else {
                    None
                }
            },
            None => None,
        },
        None => None,
    };
    assert(tier1 matches Some(p) ==> p.0@ == trim_dots(p.0@));

    // Tier 2: the DNS-over-HTTPS fallback, only when tier 1 produced nothing.
    let tier2: Option<(String, u16)> = if tier1.is_some() {
        None
    } else {
        let url = doh_query_url(qname.as_str());
        match doh_fetch(url.as_str()) {
            Some(body) => match parse_dns_json(body.as_str()) {
                Some((status, answers)) => doh_tier(status, answers),
                None => None,
            },
            None => None,
        }
    };
    assert(tier2 matches Some(p) ==> p.0@ == trim_dots(p.0@));

    // Tier 3: passthrough on total exhaustion.
    let resolved = resolve_outcome(tier1, tier2, d, port);
    Ok(resolved)
}

} // verus!
