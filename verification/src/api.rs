//! Requests and answers of the H33 API: paths, status handling, plans.

use vstd::prelude::*;
use crate::text::{chars_eq, chars_of, push_str, slice_chars, string_of};
use crate::numfmt::{decimal, decimal_string};

verus! {

/// What a response's status means for the caller.
#[derive(Clone, Copy, PartialEq, Eq, Debug)]
pub enum ResponseKind {
    /// Not a 2xx status: an error.
    Failure,
    /// 204: no body, the value is JSON `null`.
    NoContent,
    /// Another 2xx status: the body is parsed as JSON (`null` when it
    /// does not parse).
    Body,
}

/// Classify a response status.
pub fn classify_status(status: u16) -> (k: ResponseKind)
    ensures
        k == ResponseKind::Failure <==> !(200 <= status < 300),
        k == ResponseKind::NoContent <==> status == 204,
{
    if !(200 <= status && status < 300) && status != 204 {
        ResponseKind::Failure
    } else if status == 204 {
        ResponseKind::NoContent
    } else {
        ResponseKind::Body
    }
}

/// The first `n` characters of `s` (all of it when shorter).
pub open spec fn take_chars(s: Seq<char>, n: int) -> Seq<char> {
    if s.len() <= n {
        s
    } else {
        s.take(n)
    }
}

fn prefix_chars(s: &str, n: usize) -> (r: Vec<char>)
    ensures
        r@ == take_chars(s@, n as int),
{
    let cs = chars_of(s);
    if cs.len() <= n {
        cs
    } else {
        let r = slice_chars(&cs, 0, n);
        assert(cs@.subrange(0, n as int) == cs@.take(n as int));
        r
    }
}

/// The error message for a failed request.
pub open spec fn spec_api_error_message(
    status: u16,
    url: Seq<char>,
    reason: Option<Seq<char>>,
    body: Seq<char>,
) -> Seq<char> {
    "H33 API "@ + decimal(status as nat) + " "@ + url + " → "@ + match reason {
        Some(r) => r,
        None => "error"@,
    } + ": "@ + take_chars(body, 200)
}

/// `H33 API <status> <url> → <reason>: <first 200 characters of body>`.
pub fn api_error_message(status: u16, url: &str, reason: Option<&str>, body: &str) -> (m: String)
    ensures
        m@ == spec_api_error_message(
            status,
            url@,
            match reason {
                Some(r) => Some(r@),
                None => None,
            },
            body@,
        ),
{
    let mut d: Vec<char> = Vec::new();
    push_str(&mut d, "H33 API ");
    push_str(&mut d, decimal_string(status as u64).as_str());
    push_str(&mut d, " ");
    push_str(&mut d, url);
    push_str(&mut d, " → ");
    let r = match reason {
        Some(r) => r,
        None => "error",
    };
    push_str(&mut d, r);
    push_str(&mut d, ": ");
    let b = prefix_chars(body, 200);
    let ghost before = d@;
    let mut i: usize = 0;
    while i < b.len()
        invariant
            i <= b@.len(),
            d@ == before + b@.take(i as int),
        decreases b@.len() - i,
    {
        d.push(b[i]);
        assert(b@.take(i + 1) == b@.take(i as int).push(b@[i as int]));
        i = i + 1;
    }
    assert(b@.take(b@.len() as int) == b@);
    string_of(&d)
}

// ---------------------------------------------------------------- paths

fn concat2(a: &str, b: &str) -> (r: String)
    ensures
        r@ == a@ + b@,
{
    let mut d: Vec<char> = Vec::new();
    push_str(&mut d, a);
    push_str(&mut d, b);
    assert(d@ == Seq::<char>::empty() + a@ + b@);
    string_of(&d)
}

/// `/v1/audit?limit=<limit>`.
pub fn audit_path(limit: u32) -> (p: String)
    ensures
        p@ == "/v1/audit?limit="@ + decimal(limit as nat),
{
    concat2("/v1/audit?limit=", decimal_string(limit as u64).as_str())
}

/// `/v1/bitcoin/verify/<attestation id>`.
pub fn bitcoin_verify_path(attestation_id: &str) -> (p: String)
    ensures
        p@ == "/v1/bitcoin/verify/"@ + attestation_id@,
{
    concat2("/v1/bitcoin/verify/", attestation_id)
}

/// `/v1/bitcoin/lookup?utxo=<percent-encoded utxo>`.
pub fn bitcoin_lookup_path(utxo: &str) -> (p: String)
    ensures
        p@ == "/v1/bitcoin/lookup?utxo="@ + crate::url::spec_urlencode(utxo@),
{
    concat2("/v1/bitcoin/lookup?utxo=", crate::url::urlencode(utxo).as_str())
}

/// `.h33/bitcoin-<attestation id>.json`, where an attestation bundle is saved.
pub fn bitcoin_bundle_path(attestation_id: &str) -> (p: String)
    ensures
        p@ == ".h33/bitcoin-"@ + attestation_id@ + ".json"@,
{
    let mut d: Vec<char> = Vec::new();
    push_str(&mut d, ".h33/bitcoin-");
    push_str(&mut d, attestation_id);
    push_str(&mut d, ".json");
    assert(d@ == Seq::<char>::empty() + ".h33/bitcoin-"@ + attestation_id@ + ".json"@);
    string_of(&d)
}

/// The start of the on-chain commitment shown after an attestation:
/// its first 32 characters.
pub fn commitment_preview(commitment: &str) -> (p: String)
    ensures
        p@ == take_chars(commitment@, 32),
{
    string_of(&prefix_chars(commitment, 32))
}

// ---------------------------------------------------------------- plans

/// A subscription plan.
pub struct PlanInfo {
    /// Identifier used with `--tier`.
    pub slug: &'static str,
    /// Display name.
    pub name: &'static str,
    /// Monthly units.
    pub units: &'static str,
    /// Monthly price.
    pub price: &'static str,
}

/// The plan identifiers, in order.
pub open spec fn plan_slugs() -> Seq<Seq<char>> {
    seq!["starter"@, "pro"@, "business"@, "growth"@, "scale"@]
}

/// Names, monthly units and prices of the plans, in order.
pub open spec fn plan_details() -> Seq<(Seq<char>, Seq<char>, Seq<char>)> {
    seq![
        ("Starter"@, "5,000/mo"@, "$349/mo"@),
        ("Pro"@, "15,000/mo"@, "$899/mo"@),
        ("Business"@, "50,000/mo"@, "$2,499/mo"@),
        ("Growth"@, "175,000/mo"@, "$6,999/mo"@),
        ("Scale"@, "500,000/mo"@, "$17,999/mo"@),
    ]
}

/// The plans on offer.
pub fn plans() -> (v: Vec<PlanInfo>)
    ensures
        v@.len() == 5,
        forall|i: int| 0 <= i < 5 ==> #[trigger] v@[i].slug@ == plan_slugs()[i],
        forall|i: int|
            0 <= i < 5 ==> (#[trigger] v@[i].name@, v@[i].units@, v@[i].price@)
                == plan_details()[i],
{
    vec![
        PlanInfo { slug: "starter", name: "Starter", units: "5,000/mo", price: "$349/mo" },
        PlanInfo { slug: "pro", name: "Pro", units: "15,000/mo", price: "$899/mo" },
        PlanInfo { slug: "business", name: "Business", units: "50,000/mo", price: "$2,499/mo" },
        PlanInfo { slug: "growth", name: "Growth", units: "175,000/mo", price: "$6,999/mo" },
        PlanInfo { slug: "scale", name: "Scale", units: "500,000/mo", price: "$17,999/mo" },
    ]
}

/// Whether a tier names one of the plans.
pub fn is_valid_tier(tier: &str) -> (b: bool)
    ensures
        b == plan_slugs().contains(tier@),
{
    let ps = plans();
    let t = chars_of(tier);
    let mut i: usize = 0;
    while i < ps.len()
        invariant
            t@ == tier@,
            ps@.len() == 5,
            forall|j: int| 0 <= j < 5 ==> #[trigger] ps@[j].slug@ == plan_slugs()[j],
            i <= 5,
            forall|j: int| 0 <= j < i ==> plan_slugs()[j] != tier@,
        decreases 5 - i,
    {
        if chars_eq(&chars_of(ps[i].slug), &t) {
            assert(plan_slugs()[i as int] == tier@);
            return true;
        }
        i = i + 1;
    }
    false
}

/// The error for a tier that names no plan.
pub fn invalid_tier_message(tier: &str) -> (m: String)
    ensures
        m@ == "Invalid tier '"@ + tier@ + "'. Valid: starter, pro, business, growth, scale"@,
{
    let mut d: Vec<char> = Vec::new();
    push_str(&mut d, "Invalid tier '");
    push_str(&mut d, tier);
    push_str(&mut d, "'. Valid: starter, pro, business, growth, scale");
    assert(d@ == Seq::<char>::empty() + "Invalid tier '"@ + tier@
        + "'. Valid: starter, pro, business, growth, scale"@);
    string_of(&d)
}

/// The subscription endpoint host: the public H33 hosts are answered
/// by the auth service directly.
pub open spec fn spec_subscription_base(auth_base: Seq<char>) -> Seq<char> {
    if auth_base == "https://h33.ai"@ || auth_base == "https://api.h33.ai"@ {
        "https://auth-api.z101.ai"@
    } else {
        auth_base
    }
}

/// The base URL for subscription requests.
pub fn subscription_base(auth_base: &str) -> (r: &str)
    ensures
        r@ == spec_subscription_base(auth_base@),
{
    let a = chars_of(auth_base);
    if chars_eq(&a, &chars_of("https://h33.ai")) || chars_eq(&a, &chars_of("https://api.h33.ai")) {
        "https://auth-api.z101.ai"
    } else {
        auth_base
    }
}

} // verus!

verus! {

// ---------------------------------------------------------------- how results are shown

/// Band of a HICS grade.
#[derive(Clone, Copy, PartialEq, Eq, Debug)]
pub enum GradeBand {
    /// `A+` or `A`.
    Excellent,
    /// `B`.
    Good,
    /// `C`.
    Fair,
    /// Anything else.
    Poor,
}

/// The band of a HICS grade.
pub fn grade_band(grade: &str) -> (b: GradeBand)
    ensures
        b == GradeBand::Excellent <==> (grade@ == "A+"@ || grade@ == "A"@),
        b == GradeBand::Good <==> grade@ == "B"@,
        b == GradeBand::Fair <==> grade@ == "C"@,
{
    proof {
        reveal_strlit("A+");
        reveal_strlit("A");
        reveal_strlit("B");
        reveal_strlit("C");
        assert("B"@[0] != "A"@[0] && "B"@.len() != "A+"@.len());
        assert("C"@[0] != "A"@[0] && "C"@.len() != "A+"@.len() && "C"@[0] != "B"@[0]);
    }
    let g = chars_of(grade);
    if chars_eq(&g, &chars_of("A+")) || chars_eq(&g, &chars_of("A")) {
        GradeBand::Excellent
    } else if chars_eq(&g, &chars_of("B")) {
        GradeBand::Good
    } else if chars_eq(&g, &chars_of("C")) {
        GradeBand::Fair
    } else {
        GradeBand::Poor
    }
}

/// Outcome of an audit log entry.
#[derive(Clone, Copy, PartialEq, Eq, Debug)]
pub enum OutcomeKind {
    /// `success`.
    Success,
    /// `denied`.
    Denied,
    /// Anything else.
    Other,
}

/// The kind of an audit outcome.
pub fn outcome_kind(outcome: &str) -> (k: OutcomeKind)
    ensures
        k == OutcomeKind::Success <==> outcome@ == "success"@,
        k == OutcomeKind::Denied <==> outcome@ == "denied"@,
{
    proof {
        reveal_strlit("success");
        reveal_strlit("denied");
        assert("denied"@[0] != "success"@[0]);
    }
    let o = chars_of(outcome);
    if chars_eq(&o, &chars_of("success")) {
        OutcomeKind::Success
    } else if chars_eq(&o, &chars_of("denied")) {
        OutcomeKind::Denied
    } else {
        OutcomeKind::Other
    }
}

/// Severity of a detection rule.
#[derive(Clone, Copy, PartialEq, Eq, Debug)]
pub enum SeverityLevel {
    /// `critical`.
    Critical,
    /// `high`.
    High,
    /// Anything else.
    Other,
}

/// The level of a rule severity.
pub fn severity_level(severity: &str) -> (k: SeverityLevel)
    ensures
        k == SeverityLevel::Critical <==> severity@ == "critical"@,
        k == SeverityLevel::High <==> severity@ == "high"@,
{
    proof {
        reveal_strlit("critical");
        reveal_strlit("high");
        assert("high"@[0] != "critical"@[0]);
    }
    let s = chars_of(severity);
    if chars_eq(&s, &chars_of("critical")) {
        SeverityLevel::Critical
    } else if chars_eq(&s, &chars_of("high")) {
        SeverityLevel::High
    } else {
        SeverityLevel::Other
    }
}

/// Whether a tenant status is `active`.
pub fn is_active_status(status: &str) -> (b: bool)
    ensures
        b == (status@ == "active"@),
{
    chars_eq(&chars_of(status), &chars_of("active"))
}

} // verus!

verus! {

/// The longest lifetime, in seconds, an agent token can be minted with.
pub const MAX_TOKEN_TTL: u64 = 86400;

/// Whether a requested token lifetime is within the documented maximum.
pub fn ttl_in_range(ttl: u64) -> (b: bool)
    ensures
        b == (ttl <= MAX_TOKEN_TTL),
{
    ttl <= MAX_TOKEN_TTL
}

} // verus!
