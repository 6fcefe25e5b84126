//! Token classification: which header a credential travels in.

use vstd::prelude::*;
use crate::text::{chars_of, has_prefix, starts_with};

verus! {

/// Auth mode for API calls.
pub enum Auth<'a> {
    /// `X-API-Key` header (API keys: `h33_live_*`, `h33_sandbox_*`, `ck_*`).
    ApiKey(&'a str),
    /// `Authorization: Bearer` header (agent tokens: `cka_*`).
    Bearer(&'a str),
    /// No auth.
    NoAuth,
}

/// Tokens starting with `h33_` or `ck_` are API keys.
pub open spec fn is_api_key_token(t: Seq<char>) -> bool {
    starts_with(t, "h33_"@) || starts_with(t, "ck_"@)
}

/// Detect the auth type from a token's prefix: `h33_*` and `ck_*` go in
/// `X-API-Key`; `cka_*` and anything else (JWTs, legacy tokens) as a
/// bearer token. The token itself is passed on unchanged.
pub fn detect_auth(token: &str) -> (a: Auth<'_>)
    ensures
        is_api_key_token(token@) ==> a == Auth::ApiKey(token),
        !is_api_key_token(token@) ==> a == Auth::Bearer(token),
        starts_with(token@, "h33_"@) ==> a == Auth::ApiKey(token),
        starts_with(token@, "ck_"@) ==> a == Auth::ApiKey(token),
        !starts_with(token@, "h33_"@) && !starts_with(token@, "ck_"@) ==> a == Auth::Bearer(token),
{
    let t = chars_of(token);
    if has_prefix(&t, &chars_of("h33_")) || has_prefix(&t, &chars_of("ck_")) {
        Auth::ApiKey(token)
    } else {
        Auth::Bearer(token)
    }
}

/// An agent capability token starts with `cka_`.
pub open spec fn spec_is_agent_token(t: Seq<char>) -> bool {
    starts_with(t, "cka_"@)
}

/// Whether a token is a `cka_*` agent capability token (the only kind
/// the MCP server may be started with).
pub fn is_agent_token(token: &str) -> (b: bool)
    ensures
        b == spec_is_agent_token(token@),
{
    has_prefix(&chars_of(token), &chars_of("cka_"))
}

/// Every `h33_*` key and every `ck_*` key travels in `X-API-Key`,
/// whatever follows the prefix (`h33_live_`, `h33_sandbox_`, `h33_test_`,
/// `h33_offline_` ...); every other token is a bearer token.
pub proof fn lemma_api_key_prefixes(t: Seq<char>)
    ensures
        starts_with(t, "h33_"@) ==> is_api_key_token(t),
        starts_with(t, "ck_"@) ==> is_api_key_token(t),
        is_api_key_token(t) ==> starts_with(t, "h33_"@) || starts_with(t, "ck_"@),
{
}

} // verus!
