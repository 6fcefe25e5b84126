//! The checks `doctor` reports: what each probe's outcome means.

use vstd::prelude::*;
use crate::text::{chars_of, contains_chars, contains_seq, has_prefix, push_str, starts_with, string_of};
use crate::url::utf8_encode;

verus! {

/// One line of the doctor report.
pub struct Check {
    /// What was checked.
    pub name: &'static str,
    /// Whether it passed.
    pub passed: bool,
    /// What was found.
    pub detail: String,
}

impl Check {
    /// A passed check.
    pub fn pass(name: &'static str, detail: String) -> (c: Check)
        ensures
            c.name == name,
            c.passed,
            c.detail == detail,
    {
        Check { name, passed: true, detail }
    }

    /// A failed check.
    pub fn fail(name: &'static str, detail: String) -> (c: Check)
        ensures
            c.name == name,
            !c.passed,
            c.detail == detail,
    {
        Check { name, passed: false, detail }
    }
}

fn owned(s: &str) -> (r: String)
    ensures
        r@ == s@,
{
    string_of(&chars_of(s))
}

// ---------------------------------------------------------------- the key

/// Number of bytes in the UTF-8 encoding of `s`.
pub open spec fn utf8_len(s: Seq<char>) -> nat
    decreases s.len(),
{
    if s.len() == 0 {
        0
    } else {
        utf8_encode(s[0]).len() + utf8_len(s.drop_first())
    }
}

/// The characters at the end of `s` whose encoding is exactly its last
/// `n` bytes; none where byte `len - n` falls inside a character.
pub open spec fn byte_tail(s: Seq<char>, n: int) -> Option<Seq<char>>
    decreases s.len(),
{
    if n == 0 {
        Some(seq![])
    } else if s.len() == 0 || n < 0 {
        None
    } else {
        let w = utf8_encode(s.last()).len() as int;
        if w > n {
            None
        } else {
            match byte_tail(s.drop_last(), n - w) {
                Some(t) => Some(t.push(s.last())),
                None => None,
            }
        }
    }
}

/// The last four bytes of a key fall on a character boundary (or the key
/// is shorter than four bytes).
pub open spec fn key_suffix_defined(key: Seq<char>) -> bool {
    utf8_len(key) < 4 || byte_tail(key, 4) is Some
}

/// The key as shown: its last four bytes, or all of it when shorter.
pub open spec fn spec_key_suffix(key: Seq<char>) -> Seq<char> {
    if utf8_len(key) < 4 {
        key
    } else {
        byte_tail(key, 4)->0
    }
}

fn char_width(c: char) -> (w: usize)
    ensures
        w == utf8_encode(c).len(),
        1 <= w <= 4,
{
    let v = c as u32;
    if v < 0x80 {
        1
    } else if v < 0x800 {
        2
    } else if v < 0x10000 {
        3
    } else {
        4
    }
}

/// Whether the key's last four bytes fall on a character boundary.
pub fn key_suffix_is_defined(key: &str) -> (b: bool)
    ensures
        b == key_suffix_defined(key@),
{
    match tail_scan(key) {
        (acc, _) => acc <= 4,
    }
}

/// Scans the key from its end until four bytes are covered.
fn tail_scan(key: &str) -> (r: (usize, usize))
    ensures
        r.0 <= 4 ==> (utf8_len(key@) < 4 ==> r.1 == 0) && (utf8_len(key@) >= 4 ==> byte_tail(
            key@,
            4,
        ) == Some(key@.skip(r.1 as int))) && (utf8_len(key@) < 4 || r.0 == 4),
        r.0 > 4 ==> utf8_len(key@) >= 4 && byte_tail(key@, 4) is None,
        r.1 <= key@.len(),
{
    let cs = chars_of(key);
    let ghost s = key@;
    let mut k = cs.len();
    let mut acc: usize = 0;
    assert(s.skip(s.len() as int) =~= Seq::<char>::empty());
    assert(s.take(s.len() as int) == s);
    while k > 0 && acc < 4
        invariant
            cs@ == s,
            k <= s.len(),
            acc <= 7,
            acc == utf8_len(s.skip(k as int)),
            acc <= 4 ==> byte_tail(s, 4) == (match byte_tail(s.take(k as int), 4 - acc) {
                Some(t) => Some(t + s.skip(k as int)),
                None => None,
            }),
            acc > 4 ==> byte_tail(s, 4) is None,
        decreases k,
    {
        let c = cs[k - 1];
        let w = char_width(c);
        let ghost pre = s.take(k as int);
        assert(pre.last() == c);
        assert(pre.drop_last() == s.take(k - 1));
        assert(s.skip(k - 1) == seq![c] + s.skip(k as int));
        assert(s.skip(k - 1)[0] == c);
        assert(s.skip(k - 1).drop_first() == s.skip(k as int));
        proof {
            if w <= 4 - acc {
                match byte_tail(s.take(k - 1), 4 - acc - w) {
                    Some(t) => {
                        assert(t.push(c) + s.skip(k as int) == t + s.skip(k - 1));
                    },
                    None => {},
                }
            }
        }
        acc = acc + w;
        k = k - 1;
    }
    proof {
        if acc <= 4 {
            if acc < 4 {
                assert(k == 0);
                assert(s.skip(0) == s);
            } else {
                assert(byte_tail(s.take(k as int), 0) == Some(Seq::<char>::empty()));
                assert(Seq::<char>::empty() + s.skip(k as int) == s.skip(k as int));
                lemma_utf8_len_skip(s, k as int);
            }
        } else {
            lemma_utf8_len_skip(s, k as int);
        }
    }
    (acc, k)
}

proof fn lemma_utf8_len_skip(s: Seq<char>, k: int)
    requires
        0 <= k <= s.len(),
    ensures
        utf8_len(s) >= utf8_len(s.skip(k)),
    decreases k,
{
    if k > 0 {
        lemma_utf8_len_skip(s.drop_first(), k - 1);
        assert(s.drop_first().skip(k - 1) == s.skip(k));
    } else {
        assert(s.skip(0) == s);
    }
}

/// The last four bytes of the key (the whole key when shorter).
pub fn key_suffix(key: &str) -> (r: String)
    requires
        key_suffix_defined(key@),
    ensures
        r@ == spec_key_suffix(key@),
{
    let (_, k) = tail_scan(key);
    let cs = chars_of(key);
    string_of(&crate::text::slice_chars(&cs, k, cs.len()))
}

/// The environment a key belongs to, by its prefix.
pub open spec fn spec_key_env_label(key: Seq<char>) -> Seq<char> {
    if starts_with(key, "h33_sand"@) || starts_with(key, "h33_offline"@) {
        "Sandbox"@
    } else if starts_with(key, "h33_live"@) {
        "Live"@
    } else if starts_with(key, "h33_test"@) {
        "Test"@
    } else {
        "Key"@
    }
}

/// The environment a key belongs to: `Sandbox`, `Live`, `Test` or `Key`.
pub fn key_env_label(key: &str) -> (r: &'static str)
    ensures
        r@ == spec_key_env_label(key@),
{
    let k = chars_of(key);
    if has_prefix(&k, &chars_of("h33_sand")) || has_prefix(&k, &chars_of("h33_offline")) {
        "Sandbox"
    } else if has_prefix(&k, &chars_of("h33_live")) {
        "Live"
    } else if has_prefix(&k, &chars_of("h33_test")) {
        "Test"
    } else {
        "Key"
    }
}

/// The `Config` check: passes with the key's environment and last four
/// bytes when a key is configured.
pub fn config_check(api_key: Option<&str>) -> (c: Check)
    requires
        api_key matches Some(k) ==> key_suffix_defined(k@),
    ensures
        c.name@ == "Config"@,
        c.passed == api_key is Some,
        api_key matches Some(k) ==> c.detail@ == spec_key_env_label(k@) + " key configured (…"@
            + spec_key_suffix(k@) + ")"@,
        api_key is None ==> c.detail@ == "No API key found. Run `h33 init` or set H33_API_KEY."@,
{
    match api_key {
        Some(key) => {
            let mut d: Vec<char> = Vec::new();
            push_str(&mut d, key_env_label(key));
            push_str(&mut d, " key configured (…");
            let suffix = key_suffix(key);
            push_str(&mut d, suffix.as_str());
            push_str(&mut d, ")");
            assert(d@ == Seq::<char>::empty() + spec_key_env_label(key@) + " key configured (…"@
                + spec_key_suffix(key@) + ")"@);
            Check::pass("Config", string_of(&d))
        },
        None => Check::fail("Config", owned("No API key found. Run `h33 init` or set H33_API_KEY.")),
    }
}

// ---------------------------------------------------------------- connectivity

/// The `TLS` check from the two reachability checks: valid when both
/// endpoints answered over HTTPS.
pub fn tls_check(auth_reachable: bool, api_reachable: bool) -> (c: Check)
    ensures
        c.name@ == "TLS"@,
        c.passed == (auth_reachable && api_reachable),
        auth_reachable && api_reachable ==> c.detail@ == "Certificate chains valid (rustls)"@,
        (auth_reachable != api_reachable) ==> c.detail@ == "One endpoint has TLS issues"@,
        (!auth_reachable && !api_reachable) ==> c.detail@
            == "Cannot verify — both endpoints unreachable"@,
{
    if auth_reachable && api_reachable {
        Check::pass("TLS", owned("Certificate chains valid (rustls)"))
    } else if auth_reachable || api_reachable {
        Check::fail("TLS", owned("One endpoint has TLS issues"))
    } else {
        Check::fail("TLS", owned("Cannot verify — both endpoints unreachable"))
    }
}

/// The name of a reachability check: the auth endpoint's path holds
/// `status`.
pub open spec fn spec_endpoint_label(path: Seq<char>) -> Seq<char> {
    if contains_seq(path, "status"@) {
        "Auth Reachable"@
    } else {
        "API Reachable"@
    }
}

/// The name of the reachability check for a path.
pub fn endpoint_label(path: &str) -> (r: &'static str)
    ensures
        r@ == spec_endpoint_label(path@),
{
    if contains_chars(&chars_of(path), &chars_of("status")) {
        "Auth Reachable"
    } else {
        "API Reachable"
    }
}

/// Any HTTP answer below 500, 401 and 403 included, means the endpoint
/// is reachable.
pub fn endpoint_reachable(status: u16) -> (b: bool)
    ensures
        b == (status < 500),
{
    status < 500
}

/// The two checks for an authenticated quota request that did not
/// answer 200: none for 200, where the answer's body decides.
pub fn key_checks_for_status(status: u16) -> (r: Option<(Check, Check)>)
    ensures
        status == 200 <==> r is None,
        r matches Some(p) ==> !p.0.passed && !p.1.passed && p.0.name@ == "Key Valid"@
            && p.1.name@ == "Quota"@,
        r matches Some(p) ==> (status == 401 || status == 403) ==> p.0.detail@ == "HTTP "@
            + crate::numfmt::decimal(status as nat) + " — key rejected"@ && p.1.detail@
            == "Cannot check — key invalid"@,
        r matches Some(p) ==> !(status == 401 || status == 403) ==> p.0.detail@ == "HTTP "@
            + crate::numfmt::decimal(status as nat) && p.1.detail@ == "Cannot check"@,
{
    if status == 200 {
        return None;
    }
    let mut d: Vec<char> = Vec::new();
    push_str(&mut d, "HTTP ");
    let code = crate::numfmt::decimal_string(status as u64);
    push_str(&mut d, code.as_str());
    if status == 401 || status == 403 {
        push_str(&mut d, " — key rejected");
        assert(d@ == Seq::<char>::empty() + "HTTP "@ + crate::numfmt::decimal(status as nat)
            + " — key rejected"@);
        Some(
            (
                Check::fail("Key Valid", string_of(&d)),
                Check::fail("Quota", owned("Cannot check — key invalid")),
            ),
        )
    } else {
        assert(d@ == Seq::<char>::empty() + "HTTP "@ + crate::numfmt::decimal(status as nat));
        Some((Check::fail("Key Valid", string_of(&d)), Check::fail("Quota", owned("Cannot check"))))
    }
}

/// The quota is exhausted when nothing remains of a positive quota.
pub fn quota_exhausted(remaining: u64, quota: u64) -> (b: bool)
    ensures
        b == (remaining == 0 && quota > 0),
{
    remaining == 0 && quota > 0
}

/// The number of passed checks.
pub open spec fn passed_count(cs: Seq<Check>) -> nat
    decreases cs.len(),
{
    if cs.len() == 0 {
        0
    } else {
        passed_count(cs.drop_last()) + if cs.last().passed {
            1nat
        } else {
            0nat
        }
    }
}

/// Counts the passed checks: `(total, passed)`.
pub fn tally(checks: &Vec<Check>) -> (r: (usize, usize))
    ensures
        r.0 == checks@.len(),
        r.1 == passed_count(checks@),
        r.1 <= r.0,
{
    let mut passed: usize = 0;
    let mut i: usize = 0;
    assert(checks@.take(0) =~= Seq::<Check>::empty());
    while i < checks.len()
        invariant
            i <= checks@.len(),
            passed == passed_count(checks@.take(i as int)),
            passed <= i,
        decreases checks@.len() - i,
    {
        assert(checks@.take(i + 1).drop_last() == checks@.take(i as int));
        assert(checks@.take(i + 1).last() == checks@[i as int]);
        if checks[i].passed {
            passed = passed + 1;
        }
        i = i + 1;
    }
    assert(checks@.take(checks@.len() as int) == checks@);
    (checks.len(), passed)
}

} // verus!
