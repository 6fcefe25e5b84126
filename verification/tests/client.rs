use h33_cli::auth::{detect_auth, Auth};
use h33_cli::url::join_url;

#[test]
fn test_join_url_basic() {
    assert_eq!(
        join_url("https://h33.ai", "/api/h33/keys/sandbox"),
        "https://h33.ai/api/h33/keys/sandbox"
    );
}

#[test]
fn test_join_url_trailing_slash() {
    assert_eq!(
        join_url("https://h33.ai/", "/api/h33/keys/sandbox"),
        "https://h33.ai/api/h33/keys/sandbox"
    );
}

#[test]
fn test_join_url_no_leading_slash() {
    assert_eq!(
        join_url("https://api.h33.ai", "v1/hics/scan"),
        "https://api.h33.ai/v1/hics/scan"
    );
}

#[test]
fn test_join_url_gateway_paths() {
    assert_eq!(
        join_url("https://api.h33.ai", "/v1/hics/scan"),
        "https://api.h33.ai/v1/hics/scan"
    );
    assert_eq!(
        join_url("https://api.h33.ai", "/v1/substrate/verify"),
        "https://api.h33.ai/v1/substrate/verify"
    );
    assert_eq!(
        join_url("https://api.h33.ai", "/v1/agent_tokens"),
        "https://api.h33.ai/v1/agent_tokens"
    );
}

#[test]
fn test_join_url_auth_paths() {
    assert_eq!(
        join_url("https://h33.ai", "/api/h33/keys/sandbox"),
        "https://h33.ai/api/h33/keys/sandbox"
    );
    assert_eq!(
        join_url("https://h33.ai", "/api/h33/keys"),
        "https://h33.ai/api/h33/keys"
    );
}

#[test]
fn test_join_url_staging_override() {
    assert_eq!(
        join_url("https://staging.api.h33.ai", "/v1/hics/scan"),
        "https://staging.api.h33.ai/v1/hics/scan"
    );
    assert_eq!(
        join_url("https://staging.h33.ai", "/api/h33/keys/sandbox"),
        "https://staging.h33.ai/api/h33/keys/sandbox"
    );
}

#[test]
fn test_join_url_health() {
    assert_eq!(
        join_url("https://api.h33.ai", "/health"),
        "https://api.h33.ai/health"
    );
}

#[test]
fn test_join_url_no_double_slash() {
    // Trailing slash on base + leading slash on path = no double slash
    assert_eq!(
        join_url("https://h33.ai/", "/api/status"),
        "https://h33.ai/api/status"
    );
}

#[test]
fn test_detect_auth_api_key() {
    assert!(matches!(detect_auth("h33_live_abc123"), Auth::ApiKey(_)));
    assert!(matches!(detect_auth("h33_sand_abc123"), Auth::ApiKey(_)));
    assert!(matches!(detect_auth("ck_live_abc"), Auth::ApiKey(_)));
}

#[test]
fn test_detect_auth_bearer() {
    assert!(matches!(detect_auth("cka_abc123"), Auth::Bearer(_)));
}

#[test]
fn test_detect_auth_jwt_fallback() {
    // JWTs and unknown tokens → Bearer
    assert!(matches!(detect_auth("eyJhbGciOiJIUzI1NiJ9.xxx"), Auth::Bearer(_)));
}
