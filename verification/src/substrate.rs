//! Offline verification of the `X-H33-*` attestation headers of an HTTP
//! response, through `h33_substrate_verifier`.

use vstd::prelude::*;

verus! {

#[verifier::external_type_specification]
#[verifier::external_body]
pub struct ExVerifierError(h33_substrate_verifier::VerifierError);

/// The four attestation headers of a response.
pub struct SubstrateHeaders {
    /// `X-H33-Substrate`: hex SHA3-256 of the body.
    pub substrate: String,
    /// `X-H33-Receipt`: hex of the 42-byte receipt.
    pub receipt: String,
    /// `X-H33-Algorithms`: comma-separated algorithm names.
    pub algorithms: String,
    /// `X-H33-Substrate-Ts`: milliseconds since the epoch.
    pub timestamp_ms: u64,
}

/// Per-check verdicts of a verification.
pub struct SubstrateReport {
    /// The body hashes to the `X-H33-Substrate` value.
    pub body_hash_matches: bool,
    /// The receipt decodes to a well-formed receipt.
    pub receipt_well_formed: bool,
    /// The algorithm names agree with the receipt's flags.
    pub algorithms_match_flags: bool,
    /// The header timestamp equals the receipt's.
    pub timestamps_agree: bool,
    /// The receipt's algorithm flag byte, where the receipt parsed.
    pub receipt_flags: Option<u8>,
    /// The SHA3-256 of the body, as computed.
    pub computed_body_hash: Vec<u8>,
}

/// A report as values.
pub type ReportFields = (bool, bool, bool, bool, Option<u8>, Seq<u8>);

/// The values of a report.
pub open spec fn report_fields(r: SubstrateReport) -> ReportFields {
    (
        r.body_hash_matches,
        r.receipt_well_formed,
        r.algorithms_match_flags,
        r.timestamps_agree,
        r.receipt_flags,
        r.computed_body_hash@,
    )
}

/// What `Verifier::verify` yields for a body and the four header values:
/// a report, or none where the headers are malformed.
pub uninterp spec fn substrate_verdict(
    body: Seq<u8>,
    substrate: Seq<char>,
    receipt: Seq<char>,
    algorithms: Seq<char>,
    timestamp_ms: u64,
) -> Option<ReportFields>;

/// `h33_substrate_verifier::Verifier::verify` on the headers: the report
/// is named; as the crate documents, its computed hash is the SHA3-256 of
/// the body, a substrate header that is not 64 bytes long is an error, and
/// a substrate header holding the body's hash in lower-case hex matches.
/// What else makes the headers malformed, and the other three verdicts,
/// are left to the name.
#[verifier::external_body]
fn run_verifier(body: &[u8], h: &SubstrateHeaders) -> (r: Result<
    SubstrateReport,
    h33_substrate_verifier::VerifierError,
>)
    ensures
        r is Ok <==> substrate_verdict(
            body@,
            h.substrate@,
            h.receipt@,
            h.algorithms@,
            h.timestamp_ms,
        ) is Some,
        r matches Ok(rep) ==> Some(report_fields(rep)) == substrate_verdict(
            body@,
            h.substrate@,
            h.receipt@,
            h.algorithms@,
            h.timestamp_ms,
        ),
        r matches Ok(rep) ==> rep.computed_body_hash@ == crate::digest::sha3_256(body@),
        vstd::utf8::encode_utf8(h.substrate@).len() != 64 ==> r is Err,
        h.substrate@ == crate::digest::hex_lower(crate::digest::sha3_256(body@)) ==> (r matches Ok(
            rep,
        ) ==> rep.body_hash_matches),
{
    let headers = h33_substrate_verifier::Headers::from_strs(&h.substrate, &h.receipt, &h.algorithms, h.timestamp_ms);
    h33_substrate_verifier::Verifier::new().verify(body, &headers).map(|v| SubstrateReport {
        body_hash_matches: v.body_hash_matches,
        receipt_well_formed: v.receipt_well_formed,
        algorithms_match_flags: v.algorithms_match_flags,
        timestamps_agree: v.timestamps_agree,
        receipt_flags: v.flags_from_receipt.map(|f| f.as_byte()),
        computed_body_hash: v.computed_body_hash.to_vec(),
    })
}

/// Run the four structural checks on a response body and its headers.
pub fn verify_response(body: &[u8], headers: &SubstrateHeaders) -> (r: Result<
    SubstrateReport,
    h33_substrate_verifier::VerifierError,
>)
    ensures
        r is Ok <==> substrate_verdict(
            body@,
            headers.substrate@,
            headers.receipt@,
            headers.algorithms@,
            headers.timestamp_ms,
        ) is Some,
        r matches Ok(rep) ==> Some(report_fields(rep)) == substrate_verdict(
            body@,
            headers.substrate@,
            headers.receipt@,
            headers.algorithms@,
            headers.timestamp_ms,
        ),
        r matches Ok(rep) ==> rep.computed_body_hash@ == crate::digest::sha3_256(body@),
        vstd::utf8::encode_utf8(headers.substrate@).len() != 64 ==> r is Err,
        headers.substrate@ == crate::digest::hex_lower(crate::digest::sha3_256(body@)) ==> (r matches Ok(
            rep,
        ) ==> rep.body_hash_matches),
{
    run_verifier(body, headers)
}

/// The response is attested when all four checks pass.
pub open spec fn spec_is_valid(r: SubstrateReport) -> bool {
    r.body_hash_matches && r.receipt_well_formed && r.algorithms_match_flags && r.timestamps_agree
}

/// Whether all four checks passed.
pub fn is_valid(r: &SubstrateReport) -> (b: bool)
    ensures
        b == spec_is_valid(*r),
{
    r.body_hash_matches && r.receipt_well_formed && r.algorithms_match_flags && r.timestamps_agree
}

/// The first check that failed, in the order body, receipt, algorithms,
/// timestamp; `verified` when none did.
pub open spec fn spec_summary(r: SubstrateReport) -> Seq<char> {
    if !r.body_hash_matches {
        "body hash mismatch — response body does not match X-H33-Substrate"@
    } else if !r.receipt_well_formed {
        "receipt malformed — X-H33-Receipt failed structural parsing"@
    } else if !r.algorithms_match_flags {
        "algorithm disagreement — X-H33-Algorithms does not match receipt flags"@
    } else if !r.timestamps_agree {
        "timestamp disagreement — X-H33-Substrate-Ts does not match receipt verified_at_ms"@
    } else {
        "verified"@
    }
}

/// A short description of the first failed check.
pub fn summary(r: &SubstrateReport) -> (s: &'static str)
    ensures
        s@ == spec_summary(*r),
{
    if !r.body_hash_matches {
        "body hash mismatch — response body does not match X-H33-Substrate"
    } else if !r.receipt_well_formed {
        "receipt malformed — X-H33-Receipt failed structural parsing"
    } else if !r.algorithms_match_flags {
        "algorithm disagreement — X-H33-Algorithms does not match receipt flags"
    } else if !r.timestamps_agree {
        "timestamp disagreement — X-H33-Substrate-Ts does not match receipt verified_at_ms"
    } else {
        "verified"
    }
}

/// A valid report is summarised as `verified`, and only a valid one.
pub proof fn lemma_summary_verified(r: SubstrateReport)
    ensures
        spec_is_valid(r) <==> spec_summary(r) == "verified"@,
{
    reveal_strlit("verified");
    reveal_strlit("body hash mismatch — response body does not match X-H33-Substrate");
    reveal_strlit("receipt malformed — X-H33-Receipt failed structural parsing");
    reveal_strlit("algorithm disagreement — X-H33-Algorithms does not match receipt flags");
    reveal_strlit(
        "timestamp disagreement — X-H33-Substrate-Ts does not match receipt verified_at_ms",
    );
    assert("verified"@.len() == 8);
    assert("body hash mismatch — response body does not match X-H33-Substrate"@.len() != 8);
    assert("receipt malformed — X-H33-Receipt failed structural parsing"@.len() != 8);
    assert("algorithm disagreement — X-H33-Algorithms does not match receipt flags"@.len()
        != 8);
    assert("timestamp disagreement — X-H33-Substrate-Ts does not match receipt verified_at_ms"@.len()
        != 8);
}

} // verus!
