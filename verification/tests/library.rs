use h33_cli::api::{
    api_error_message, audit_path, bitcoin_bundle_path, bitcoin_lookup_path, bitcoin_verify_path,
    classify_status, commitment_preview, grade_band, invalid_tier_message, is_active_status,
    is_valid_tier, outcome_kind, plans, severity_level, subscription_base, ttl_in_range,
    GradeBand, OutcomeKind, ResponseKind, SeverityLevel, MAX_TOKEN_TTL,
};
use h33_cli::auth::{detect_auth, is_agent_token, Auth};
use h33_cli::config::{
    agent_token, api_base, api_key, attestation_credential, env_or_file, from_h33_config,
    parse_env_file,
    require_agent_token, require_api_key, ConfigError, ConfigKey, ConfigSources,
};
use h33_cli::digest::{compute_fingerprint, hex_short, SourceFile};
use h33_cli::doctor::{
    config_check, endpoint_label, endpoint_reachable, key_checks_for_status, key_env_label,
    key_suffix, key_suffix_is_defined, quota_exhausted, tally, tls_check, Check,
};
use h33_cli::numfmt::{decimal_string, format_number};
use h33_cli::rules::{
    is_detect_extension, is_fingerprint_extension, is_skipped_dir, parse_rules, scan_content,
    within_scan_size,
};
use h33_cli::substrate::{is_valid, summary, verify_response, SubstrateHeaders};
use h33_cli::json::{parse_baseline, parse_ownership_proof};
use h33_cli::url::{is_url, join_url, urlencode};
use sha3::Digest;

fn sources(
    env: &[(&str, &str)],
    h33: Option<&str>,
    dotenv: Option<&str>,
    local: Option<&str>,
) -> ConfigSources {
    ConfigSources {
        env: env.iter().map(|(k, v)| (k.to_string(), v.to_string())).collect(),
        h33_config: h33.map(|s| s.to_string()),
        dotenv: dotenv.map(|s| s.to_string()),
        dotenv_local: local.map(|s| s.to_string()),
    }
}

// ---------------------------------------------------------------- url

#[test]
fn join_url_trailing_slashes_all_removed() {
    assert_eq!(join_url("https://h33.ai///", "health"), "https://h33.ai/health");
    assert_eq!(join_url("", "/x"), "/x");
    assert_eq!(join_url("https://h33.ai", ""), "https://h33.ai/");
}

#[test]
fn is_url_schemes() {
    assert!(is_url("http://example.com"));
    assert!(is_url("https://api.h33.ai/v1/substrate/public-keys"));
    assert!(!is_url("ftp://x"));
    assert!(!is_url("HTTPS://x"));
    assert!(!is_url("a1b2c3"));
    assert!(!is_url("http:/x"));
}

#[test]
fn urlencode_examples() {
    assert_eq!(urlencode("abcXYZ019-_.~"), "abcXYZ019-_.~");
    assert_eq!(urlencode("a b"), "a%20b");
    assert_eq!(urlencode("txid:0"), "txid%3A0");
    assert_eq!(urlencode("é"), "%C3%A9");
    assert_eq!(urlencode("€"), "%E2%82%AC");
    assert_eq!(urlencode("😀"), "%F0%9F%98%80");
    assert_eq!(urlencode(""), "");
}

#[test]
fn urlencode_roundtrip_on_concrete_values() {
    for s in ["hello world/?", "ünïcödé", "a+b=c&d", "😀:1"] {
        let enc = urlencode(s);
        let mut out = Vec::new();
        let b = enc.as_bytes();
        let mut i = 0;
        while i < b.len() {
            if b[i] == b'%' {
                out.push(u8::from_str_radix(&enc[i + 1..i + 3], 16).unwrap());
                i += 3;
            } else {
                out.push(b[i]);
                i += 1;
            }
        }
        assert_eq!(out, s.as_bytes());
    }
}

// ---------------------------------------------------------------- auth

#[test]
fn detect_auth_keeps_token() {
    match detect_auth("ck_test_1") {
        Auth::ApiKey(t) => assert_eq!(t, "ck_test_1"),
        _ => panic!("expected an API key"),
    }
    match detect_auth("cka_1") {
        Auth::Bearer(t) => assert_eq!(t, "cka_1"),
        _ => panic!("expected a bearer token"),
    }
    assert!(matches!(detect_auth(""), Auth::Bearer("")));
    assert!(matches!(detect_auth("h33"), Auth::Bearer(_)));
}

#[test]
fn agent_token_prefix() {
    assert!(is_agent_token("cka_AQAA"));
    assert!(!is_agent_token("ck_live_abc"));
    assert!(!is_agent_token("cka"));
}

// ---------------------------------------------------------------- .env files

#[test]
fn parse_env_file_entries() {
    let text = "# comment\n\n[section]\nA=1\n  B = two words  \nC=\"quoted\"\nD='single'\nnoequals\nE=a=b\r\nF=\"\"\n";
    let got = parse_env_file(text);
    let want: Vec<(String, String)> = vec![
        ("A".into(), "1".into()),
        ("B".into(), "two words".into()),
        ("C".into(), "quoted".into()),
        ("D".into(), "single".into()),
        ("E".into(), "a=b".into()),
        ("F".into(), "".into()),
    ];
    assert_eq!(got, want);
}

#[test]
fn parse_env_file_mismatched_quotes_kept() {
    let got = parse_env_file("A=\"x'\nB='y");
    assert_eq!(got, vec![("A".to_string(), "\"x'".to_string()), ("B".to_string(), "'y".to_string())]);
}

#[test]
fn env_file_lone_quote_kept() {
    assert_eq!(
        parse_env_file("K=\"\n"),
        vec![("K".to_string(), "\"".to_string())]
    );
    assert_eq!(parse_env_file("B = '  "), vec![("B".to_string(), "'".to_string())]);
    assert_eq!(parse_env_file("A=\"\"\n"), vec![("A".to_string(), "".to_string())]);
}

#[test]
fn h33_config_values() {
    let text = "[auth]\napi_key = \"h33_live_abc\"\nagent_token=''\nagent_token = cka_1\n";
    assert_eq!(from_h33_config(text, ConfigKey::ApiKey), Some("h33_live_abc".to_string()));
    assert_eq!(from_h33_config(text, ConfigKey::AgentToken), Some("cka_1".to_string()));
    assert_eq!(from_h33_config(text, ConfigKey::ApiBase), None);
    assert_eq!(from_h33_config("api_base = \"\n", ConfigKey::ApiBase), Some("\"".to_string()));
}

#[test]
fn h33_config_key_must_match_exactly() {
    let text = "[auth]\napi_key_old = \"y\"\napi_key = \"x\"\n";
    assert_eq!(from_h33_config(text, ConfigKey::ApiKey), Some("x".to_string()));
    assert_eq!(from_h33_config("api_keys = z\n", ConfigKey::ApiKey), None);
    assert_eq!(from_h33_config("  api_key   =  'w'  ", ConfigKey::ApiKey), Some("w".to_string()));
}

#[test]
fn lookup_priority() {
    let s = sources(
        &[("H33_API_KEY", "from_env")],
        Some("api_key = from_config\napi_base = https://config"),
        Some("H33_API_KEY=from_dotenv\nH33_AGENT_TOKEN=cka_dotenv\nH33_API_BASE="),
        Some("H33_API_BASE=https://local\nH33_AGENT_TOKEN=cka_local"),
    );
    assert_eq!(api_key(&s), Some("from_env".to_string()));
    assert_eq!(api_base(&s), Some("https://config".to_string()));
    assert_eq!(agent_token(&s), Some("cka_dotenv".to_string()));
    let s2 = sources(&[("H33_API_KEY", "")], None, Some("H33_API_KEY=a\nH33_API_KEY=b"), None);
    assert_eq!(env_or_file(&s2, ConfigKey::ApiKey), Some("b".to_string()));
    let s3 = sources(&[], None, Some("H33_API_BASE="), Some("H33_API_BASE=https://local"));
    assert_eq!(api_base(&s3), Some("https://local".to_string()));
}

#[test]
fn require_values() {
    let empty = sources(&[], None, None, None);
    assert_eq!(require_api_key(&empty), Err(ConfigError::MissingApiKey));
    assert_eq!(require_agent_token(&empty), Err(ConfigError::MissingAgentToken));
    assert_eq!(attestation_credential(&empty), Err(ConfigError::MissingCredential));
    assert_eq!(
        ConfigError::MissingApiKey.message(),
        "H33_API_KEY not found. Run 'h33 init' to set up your account."
    );
    let s = sources(&[("H33_AGENT_TOKEN", "cka_x")], None, None, None);
    assert_eq!(require_agent_token(&s), Ok("cka_x".to_string()));
    assert_eq!(attestation_credential(&s), Ok("cka_x".to_string()));
}

#[test]
fn lookup_with_lone_quote_values() {
    let s = sources(&[], None, Some("OTHER=\"\nH33_API_KEY=k\n"), None);
    assert_eq!(api_key(&s), Some("k".to_string()));
    let s = sources(&[("H33_API_KEY", "")], None, None, Some("H33_API_KEY='\n"));
    assert_eq!(env_or_file(&s, ConfigKey::ApiKey), Some("'".to_string()));
}

// ---------------------------------------------------------------- numbers

#[test]
fn format_number_examples() {
    assert_eq!(format_number(0), "0");
    assert_eq!(format_number(999), "999");
    assert_eq!(format_number(1000), "1,000");
    assert_eq!(format_number(10000), "10,000");
    assert_eq!(format_number(1234567), "1,234,567");
    assert_eq!(format_number(u64::MAX), "18,446,744,073,709,551,615");
    assert_eq!(decimal_string(1234567), "1234567");
}

// ---------------------------------------------------------------- rules

const RULES: &str = "rules:\n- id: RSA-001\n  pattern: 'RSA\\.generate'\n  substrate_domain_id: \"0x01\"\n  severity: critical\n- id: BAD\n  pattern: \"([\"\n  severity: low\n- id: ECDSA\n  pattern: ecdsa\n- id: NOPAT\n  severity: high\n";

#[test]
fn parse_rules_reads_rules() {
    let rules = parse_rules(RULES);
    assert_eq!(rules.len(), 2);
    assert_eq!(rules[0].id, "RSA-001");
    assert_eq!(rules[0].pattern.source_str(), "RSA\\.generate");
    assert_eq!(rules[0].domain, "0x01");
    assert_eq!(rules[0].severity, "critical");
    // the invalid pattern is dropped, and its severity carries over
    assert_eq!(rules[1].id, "ECDSA");
    assert_eq!(rules[1].pattern.source_str(), "ecdsa");
    assert_eq!(rules[1].domain, "");
    assert_eq!(rules[1].severity, "low");
}

#[test]
fn parse_rules_edge_forms() {
    let rules = parse_rules("-id:X\n\tpattern:  \"a b\"  \n");
    assert_eq!(rules.len(), 1);
    assert_eq!(rules[0].id, "X");
    assert_eq!(rules[0].pattern.source_str(), "a b");
    let rules = parse_rules("- id: Y\n  pattern: x\n  pattern: '\n");
    assert_eq!(rules[0].pattern.source_str(), "'");
    assert!(parse_rules("").is_empty());
    assert!(parse_rules("- id: Z\n").is_empty());
}

#[test]
fn scan_content_hits() {
    let rules = parse_rules(RULES);
    let hits = scan_content(&rules, "let k = RSA.generate(2048);\nnothing here\necdsa and RSA.generate\n");
    assert_eq!(hits, vec![(0, 1), (0, 3), (1, 3)]);
    assert!(scan_content(&rules, "").is_empty());
}

#[test]
fn scan_filters() {
    assert!(is_skipped_dir("node_modules"));
    assert!(is_skipped_dir(".venv"));
    assert!(!is_skipped_dir("src"));
    assert!(is_detect_extension("sol"));
    assert!(is_detect_extension("rs"));
    assert!(!is_detect_extension("md"));
    assert!(is_fingerprint_extension("py"));
    assert!(!is_fingerprint_extension("go"));
    assert!(within_scan_size(1_048_576));
    assert!(!within_scan_size(1_048_577));
}

// ---------------------------------------------------------------- digests

#[test]
fn fingerprint_of_nothing_is_sha3_of_empty() {
    let (fp, n) = compute_fingerprint(&Vec::new());
    assert_eq!(fp, "a7ffc6f8bf1ed76651c14756a061d662f580ff4de43b49fa82d80a4b80f8434a");
    assert_eq!(n, 0);
}

#[test]
fn fingerprint_hashes_paths_and_contents() {
    let files = vec![
        SourceFile { rel_path: "a.rs".into(), content: b"fn a() {}".to_vec() },
        SourceFile { rel_path: "b/c.py".into(), content: b"print(1)".to_vec() },
    ];
    let (fp, n) = compute_fingerprint(&files);
    let want = hex::encode(sha3::Sha3_256::digest(b"a.rsfn a() {}b/c.pyprint(1)"));
    assert_eq!(fp, want);
    assert_eq!(n, 2);
}

#[test]
fn hex_short_examples() {
    assert_eq!(hex_short(&[0xde, 0xad, 0xbe, 0xef]), "deadbeef");
    assert_eq!(hex_short(&[0u8; 8]), "0000000000000000");
    assert_eq!(hex_short(&[0x01, 0x23, 0x45, 0x67, 0x89, 0xab, 0xcd, 0xef, 0xff]), "01234567…abcdefff");
}

// ---------------------------------------------------------------- substrate headers

fn attested(body: &[u8], ts: u64, flags: u8, algorithms: &str) -> SubstrateHeaders {
    let mut receipt = String::from("01");
    receipt.push_str(&"cc".repeat(32));
    receipt.push_str(&format!("{:016x}", ts));
    receipt.push_str(&format!("{:02x}", flags));
    SubstrateHeaders {
        substrate: hex::encode(sha3::Sha3_256::digest(body)),
        receipt,
        algorithms: algorithms.to_string(),
        timestamp_ms: ts,
    }
}

#[test]
fn verify_response_valid() {
    let body = b"{\"ok\":true}";
    let h = attested(body, 1_733_942_731_234, 7, "ML-DSA-65,FALCON-512,SPHINCS+-SHA2-128f");
    let r = verify_response(body, &h).ok().unwrap();
    assert!(is_valid(&r));
    assert_eq!(summary(&r), "verified");
    assert_eq!(r.receipt_flags, Some(7));
    assert_eq!(r.computed_body_hash, sha3::Sha3_256::digest(body).to_vec());
}

#[test]
fn verify_response_failures() {
    let body = b"{\"ok\":true}";
    let h = attested(b"other", 5, 7, "ML-DSA-65,FALCON-512,SPHINCS+-SHA2-128f");
    let r = verify_response(body, &h).ok().unwrap();
    assert!(!is_valid(&r));
    assert_eq!(summary(&r), "body hash mismatch — response body does not match X-H33-Substrate");
    let mut h = attested(body, 5, 7, "ML-DSA-65,FALCON-512,SPHINCS+-SHA2-128f");
    h.timestamp_ms = 6;
    let r = verify_response(body, &h).ok().unwrap();
    assert_eq!(
        summary(&r),
        "timestamp disagreement — X-H33-Substrate-Ts does not match receipt verified_at_ms"
    );
    let mut h = attested(body, 5, 7, "ML-DSA-65");
    let r = verify_response(body, &h).ok().unwrap();
    assert_eq!(summary(&r), "algorithm disagreement — X-H33-Algorithms does not match receipt flags");
    h.substrate = "abcd".to_string();
    assert!(verify_response(body, &h).is_err());
}

// ---------------------------------------------------------------- doctor

#[test]
fn doctor_config_check() {
    let c = config_check(Some("h33_sandbox_abcdef1234"));
    assert!(c.passed);
    assert_eq!(c.name, "Config");
    assert_eq!(c.detail, "Sandbox key configured (…1234)");
    assert_eq!(config_check(Some("h33_live_x")).detail, "Live key configured (…ve_x)");
    assert_eq!(config_check(Some("ck")).detail, "Key key configured (…ck)");
    let c = config_check(None);
    assert!(!c.passed);
    assert_eq!(c.detail, "No API key found. Run `h33 init` or set H33_API_KEY.");
    assert_eq!(key_env_label("h33_offline_1"), "Sandbox");
    assert_eq!(key_env_label("h33_test_1"), "Test");
    assert_eq!(key_suffix("abé"), "abé");
    assert_eq!(key_suffix("xabé"), "abé");
    assert!(key_suffix_is_defined("xxabé"));
    assert!(!key_suffix_is_defined("x€é"));
}

#[test]
fn doctor_connectivity_checks() {
    let t = tls_check(true, true);
    assert!(t.passed);
    assert_eq!(t.detail, "Certificate chains valid (rustls)");
    assert_eq!(tls_check(true, false).detail, "One endpoint has TLS issues");
    assert_eq!(tls_check(false, false).detail, "Cannot verify — both endpoints unreachable");
    assert_eq!(endpoint_label("/api/status"), "Auth Reachable");
    assert_eq!(endpoint_label("/health"), "API Reachable");
    assert!(endpoint_reachable(403));
    assert!(!endpoint_reachable(502));
    assert!(key_checks_for_status(200).is_none());
    let (k, q) = key_checks_for_status(401).unwrap();
    assert_eq!(k.detail, "HTTP 401 — key rejected");
    assert_eq!(q.detail, "Cannot check — key invalid");
    let (k, q) = key_checks_for_status(500).unwrap();
    assert_eq!(k.detail, "HTTP 500");
    assert_eq!(q.detail, "Cannot check");
    assert!(quota_exhausted(0, 10));
    assert!(!quota_exhausted(0, 0));
    let checks = vec![Check::pass("a", String::new()), Check::fail("b", String::new())];
    assert_eq!(tally(&checks), (2, 1));
}

// ---------------------------------------------------------------- api

#[test]
fn response_status_classes() {
    assert_eq!(classify_status(200), ResponseKind::Body);
    assert_eq!(classify_status(204), ResponseKind::NoContent);
    assert_eq!(classify_status(301), ResponseKind::Failure);
    assert_eq!(classify_status(404), ResponseKind::Failure);
}

#[test]
fn error_message_truncates_body() {
    let body = "x".repeat(250);
    let m = api_error_message(404, "https://api.h33.ai/v1/x", Some("Not Found"), &body);
    assert_eq!(m, format!("H33 API 404 https://api.h33.ai/v1/x → Not Found: {}", "x".repeat(200)));
    assert_eq!(api_error_message(599, "u", None, ""), "H33 API 599 u → error: ");
}

#[test]
fn request_paths() {
    assert_eq!(audit_path(20), "/v1/audit?limit=20");
    assert_eq!(bitcoin_verify_path("att_1"), "/v1/bitcoin/verify/att_1");
    assert_eq!(bitcoin_lookup_path("abc:0"), "/v1/bitcoin/lookup?utxo=abc%3A0");
    assert_eq!(bitcoin_bundle_path("att_1"), ".h33/bitcoin-att_1.json");
    assert_eq!(commitment_preview(&"ab".repeat(20)), "ab".repeat(16));
    assert_eq!(commitment_preview("short"), "short");
}

#[test]
fn plans_and_tiers() {
    assert_eq!(plans().len(), 5);
    assert!(is_valid_tier("growth"));
    assert!(!is_valid_tier("enterprise"));
    assert_eq!(
        invalid_tier_message("gold"),
        "Invalid tier 'gold'. Valid: starter, pro, business, growth, scale"
    );
    assert_eq!(subscription_base("https://h33.ai"), "https://auth-api.z101.ai");
    assert_eq!(subscription_base("https://api.h33.ai"), "https://auth-api.z101.ai");
    assert_eq!(subscription_base("http://localhost:8080"), "http://localhost:8080");
}

#[test]
fn display_classes() {
    assert_eq!(grade_band("A+"), GradeBand::Excellent);
    assert_eq!(grade_band("B"), GradeBand::Good);
    assert_eq!(grade_band("C"), GradeBand::Fair);
    assert_eq!(grade_band("?"), GradeBand::Poor);
    assert_eq!(outcome_kind("denied"), OutcomeKind::Denied);
    assert_eq!(outcome_kind("error"), OutcomeKind::Other);
    assert_eq!(severity_level("critical"), SeverityLevel::Critical);
    assert_eq!(severity_level("medium"), SeverityLevel::Other);
    assert!(is_active_status("active"));
    assert!(!is_active_status("suspended"));
}

#[test]
fn urlencode_output_is_url_safe() {
    for s in ["a b/c?d=e&f", "😀 é €", "~._-"] {
        for c in urlencode(s).chars() {
            assert!(c.is_ascii_alphanumeric() || "-_.~%".contains(c));
            assert!(!c.is_ascii_lowercase() || s.contains(c));
        }
    }
}

#[test]
fn join_url_ends_with_path_and_single_slash() {
    for (b, p) in [("https://h33.ai//", "/x/y"), ("https://h33.ai", "x"), ("h", "")] {
        let u = join_url(b, p);
        assert!(u.ends_with(p));
        assert!(!u.contains("//x"));
    }
}

#[test]
fn join_url_shared_prefix_not_repeated() {
    assert_eq!(join_url("https://h33.ai/api", "/api/status"), "https://h33.ai/api/status");
    assert_eq!(join_url("https://api.h33.ai/v1/", "/v1/hics/scan"), "https://api.h33.ai/v1/hics/scan");
    assert_eq!(join_url("https://x.io/a/b", "/a/b/c"), "https://x.io/a/b/c");
    assert_eq!(join_url("https://x.io/a/b", "a/b"), "https://x.io/a/b");
    assert_eq!(join_url("https://x.io/a/a", "/a/a/x"), "https://x.io/a/a/x");
}

#[test]
fn join_url_only_whole_segments_shared() {
    assert_eq!(join_url("https://x.io/api", "/apis/x"), "https://x.io/api/apis/x");
    assert_eq!(join_url("https://x.io/myapi", "/api/x"), "https://x.io/myapi/api/x");
    assert_eq!(join_url("https://h33.ai", "/h33.ai/x"), "https://h33.ai/h33.ai/x");
    assert_eq!(join_url("https://h33.ai", "//h33.ai/x"), "https://h33.ai//h33.ai/x");
}

/// The reader's line forms agree with the regular expressions they stand for.
#[test]
fn rule_lines_agree_with_regex_forms() {
    let id_re = regex::Regex::new(r"^-\s*id:\s*(\S+)").unwrap();
    let pat_re = regex::Regex::new(r#"^\s+pattern:\s*['"]?(.+?)['"]?\s*$"#).unwrap();
    let dom_re = regex::Regex::new(r#"^\s+substrate_domain_id:\s*['"]?(\S+?)['"]?\s*$"#).unwrap();
    let sev_re = regex::Regex::new(r"^\s+severity:\s*(\S+)").unwrap();

    let pattern_lines = [
        "  pattern: abc",
        "  pattern: 'abc'",
        "  pattern: \"abc\"  ",
        "  pattern:abc'",
        "  pattern: ' ",
        "  pattern: '",
        "  pattern: \"\"",
        "  pattern:  ",
        "  pattern: a b c ",
        "\u{a0}pattern:\u{2003}x\u{3000}",
        "  pattern: 'a'b'",
        "  pattern: ''x''",
        "\tpattern:\t\"q\"\t",
    ];
    for line in pattern_lines {
        let want = pat_re.captures(line).map(|c| c[1].to_string());
        let text = format!("- id: R\n{}\n", line);
        let got = parse_rules(&text).first().map(|r| r.pattern.source_str().to_string());
        match &want {
            Some(p) if regex::Regex::new(p).is_ok() => assert_eq!(got.as_deref(), Some(p.as_str()), "{line:?}"),
            Some(_) => assert!(got.is_none(), "{line:?}"),
            None => assert!(got.is_none(), "{line:?}"),
        }
    }

    let domain_lines = [
        "  substrate_domain_id: 0x01",
        "  substrate_domain_id: '0x01'",
        "  substrate_domain_id: \"0x01\"   ",
        "  substrate_domain_id: '",
        "  substrate_domain_id: 'x",
        "  substrate_domain_id: x'",
        "  substrate_domain_id: ''",
        "  substrate_domain_id: 'a b'",
        "  substrate_domain_id:   ",
        "  substrate_domain_id:x",
    ];
    for line in domain_lines {
        let want = dom_re.captures(line).map(|c| c[1].to_string()).unwrap_or_default();
        let text = format!("- id: R\n  pattern: p\n{}\n", line);
        let rules = parse_rules(&text);
        assert_eq!(rules[0].domain, want, "{line:?}");
    }

    let severity_lines = ["  severity: high", "  severity:high extra", "\tseverity:   ", " severity: 'x'"];
    for line in severity_lines {
        let want = sev_re.captures(line).map(|c| c[1].to_string()).unwrap_or_default();
        let text = format!("- id: R\n  pattern: p\n{}\n", line);
        assert_eq!(parse_rules(&text)[0].severity, want, "{line:?}");
    }

    let id_lines = ["- id: A", "-id:B", "-  id:   C  D", "- id:", "-\tid:\u{2009}E"];
    for line in id_lines {
        let want = id_re.captures(line).map(|c| c[1].to_string());
        let text = format!("{}\n  pattern: p\n", line);
        let got = parse_rules(&text).first().map(|r| r.id.clone());
        assert_eq!(got, want, "{line:?}");
    }
}

// ---------------------------------------------------------------- json files

#[test]
fn ownership_proof_parses_json_documents() {
    let v = parse_ownership_proof("{\"sig\": \"ab\", \"n\": [1, 2]}").unwrap();
    assert_eq!(v["sig"], serde_json::Value::String("ab".to_string()));
    assert_eq!(v["n"][1], serde_json::Value::from(2));
    let expected = serde_json::from_str::<serde_json::Value>("not json").unwrap_err().to_string();
    assert_eq!(parse_ownership_proof("not json"), Err(expected));
    assert!(parse_ownership_proof("").is_err());
}

#[test]
fn baseline_parses_json_documents() {
    let v = parse_baseline("{\"score\": 87, \"grade\": \"B\"}").unwrap();
    assert_eq!(v["score"], serde_json::Value::from(87));
    assert!(parse_baseline("{\"score\": ").is_err());
}

// ---------------------------------------------------------------- tokens

#[test]
fn ttl_limit() {
    assert_eq!(MAX_TOKEN_TTL, 86400);
    assert!(ttl_in_range(3600));
    assert!(ttl_in_range(86400));
    assert!(!ttl_in_range(86401));
    assert!(ttl_in_range(0));
}
