//! URL joining and URL-shaped checks.

use vstd::prelude::*;
use crate::text::{chars_of, string_of};

verus! {

/// `s` with every trailing `/` removed.
pub open spec fn trim_trailing_slashes(s: Seq<char>) -> Seq<char>
    decreases s.len(),
{
    if s.len() > 0 && s.last() == '/' {
        trim_trailing_slashes(s.drop_last())
    } else {
        s
    }
}

/// The path with a leading `/`, added when it has none.
pub open spec fn slashed(path: Seq<char>) -> Seq<char> {
    if path.len() > 0 && path[0] == '/' {
        path
    } else {
        seq!['/'] + path
    }
}

/// The first `k` characters of the slashed path `np` are a run of whole
/// leading segments: a non-empty first segment, cut at a `/` or at the end.
pub open spec fn leading_run(np: Seq<char>, k: int) -> bool {
    &&& 2 <= k <= np.len()
    &&& np[1] != '/'
    &&& (k == np.len() || np[k] == '/')
}

/// `b` ends with `p`, and `p` does not continue a `/` of `b` (so a match
/// never reaches into the `//` before a host).
pub open spec fn ends_with_run(b: Seq<char>, p: Seq<char>) -> bool {
    &&& p.len() <= b.len()
    &&& b.subrange(b.len() - p.len(), b.len() as int) == p
    &&& (b.len() == p.len() || b[b.len() - p.len() - 1] != '/')
}

/// The longest run of leading segments of `np`, no longer than `k`, that
/// the base `b` already ends with; 0 when there is none.
pub open spec fn shared_len(b: Seq<char>, np: Seq<char>, k: int) -> int
    decreases k,
{
    if k < 2 {
        0
    } else if leading_run(np, k) && ends_with_run(b, np.take(k)) {
        k
    } else {
        shared_len(b, np, k - 1)
    }
}

/// The URL that `join_url` builds: the base without trailing slashes, then
/// the path with a leading `/`, less the run of its leading segments that
/// the base already ends with.
pub open spec fn spec_join_url(base: Seq<char>, path: Seq<char>) -> Seq<char> {
    let b = trim_trailing_slashes(base);
    let np = slashed(path);
    b + np.skip(shared_len(b, np, np.len() as int))
}

/// Whether `b` ends with the first `k` characters of `np`, in the sense of
/// `ends_with_run`.
fn ends_with_prefix(b: &Vec<char>, np: &Vec<char>, k: usize) -> (r: bool)
    requires
        k <= np.len(),
    ensures
        r == ends_with_run(b@, np@.take(k as int)),
{
    if k > b.len() {
        return false;
    }
    let off: usize = b.len() - k;
    let mut i: usize = 0;
    while i < k
        invariant
            k <= np.len(),
            off + k == b.len(),
            i <= k,
            forall|j: int| 0 <= j < i ==> b@[off + j] == np@[j],
        decreases k - i,
    {
        if b[off + i] != np[i] {
            assert(b@.subrange(off as int, b@.len() as int)[i as int] != np@.take(k as int)[i as int]);
            return false;
        }
        i = i + 1;
    }
    assert(b@.subrange(off as int, b@.len() as int) =~= np@.take(k as int));
    off == 0 || b[off - 1] != '/'
}

/// The length of the run that `join_url` leaves out of the path.
fn shared_prefix_len(b: &Vec<char>, np: &Vec<char>) -> (n: usize)
    ensures
        n == shared_len(b@, np@, np@.len() as int),
{
    let mut k: usize = np.len();
    while k >= 2
        invariant
            k <= np.len(),
            shared_len(b@, np@, np@.len() as int) == shared_len(b@, np@, k as int),
        decreases k,
    {
        let run = np[1] != '/' && (k == np.len() || np[k] == '/');
        if run && ends_with_prefix(b, np, k) {
            return k;
        }
        k = k - 1;
    }
    0
}

/// Join a base URL and a path, avoiding double slashes and a repeated path
/// prefix.
pub fn join_url(base: &str, path: &str) -> (url: String)
    ensures
        url@ == spec_join_url(base@, path@),
{
    let mut b = chars_of(base);
    while b.len() > 0 && b[b.len() - 1] == '/'
        invariant
            trim_trailing_slashes(b@) == trim_trailing_slashes(base@),
        decreases b.len(),
    {
        b.pop();
    }
    let p = chars_of(path);
    let mut np: Vec<char> = Vec::new();
    if !(p.len() > 0 && p[0] == '/') {
        np.push('/');
    }
    let mut i: usize = 0;
    let ghost lead = np@;
    while i < p.len()
        invariant
            i <= p@.len(),
            np@ == lead + p@.take(i as int),
        decreases p@.len() - i,
    {
        np.push(p[i]);
        assert(p@.take(i + 1) == p@.take(i as int).push(p@[i as int]));
        i = i + 1;
    }
    assert(p@.take(p@.len() as int) == p@);
    assert(np@ == slashed(path@));
    let n = shared_prefix_len(&b, &np);
    proof {
        lemma_shared_len(b@, np@, np@.len() as int);
    }
    let mut j: usize = n;
    let ghost start = b@;
    while j < np.len()
        invariant
            n <= j <= np@.len(),
            b@ == start + np@.subrange(n as int, j as int),
        decreases np@.len() - j,
    {
        b.push(np[j]);
        assert(np@.subrange(n as int, j + 1) == np@.subrange(n as int, j as int).push(np@[j as int]));
        j = j + 1;
    }
    assert(np@.subrange(n as int, np@.len() as int) == np@.skip(n as int));
    string_of(&b)
}

} // verus!

verus! {

/// A target is a URL when it starts with `http://` or `https://`.
pub open spec fn spec_is_url(s: Seq<char>) -> bool {
    crate::text::starts_with(s, "http://"@) || crate::text::starts_with(s, "https://"@)
}

/// Whether `s` starts with `http://` or `https://`.
pub fn is_url(s: &str) -> (b: bool)
    ensures
        b == spec_is_url(s@),
{
    let cs = chars_of(s);
    let a = chars_of("http://");
    let b = chars_of("https://");
    crate::text::has_prefix(&cs, &a) || crate::text::has_prefix(&cs, &b)
}

// ---------------------------------------------------------------- percent encoding

/// ASCII letters and digits, `-`, `_`, `.` and `~` pass unencoded.
pub open spec fn is_unreserved(c: char) -> bool {
    ('a' <= c && c <= 'z') || ('A' <= c && c <= 'Z') || ('0' <= c && c <= '9') || c == '-' || c
        == '_' || c == '.' || c == '~'
}

/// The UTF-8 encoding of a character.
pub open spec fn utf8_encode(c: char) -> Seq<u8> {
    let v = c as u32 as int;
    if v < 0x80 {
        seq![v as u8]
    } else if v < 0x800 {
        seq![(0xC0 + v / 64) as u8, (0x80 + v % 64) as u8]
    } else if v < 0x10000 {
        seq![(0xE0 + v / 4096) as u8, (0x80 + (v / 64) % 64) as u8, (0x80 + v % 64) as u8]
    } else {
        seq![
            (0xF0 + v / 262144) as u8,
            (0x80 + (v / 4096) % 64) as u8,
            (0x80 + (v / 64) % 64) as u8,
            (0x80 + v % 64) as u8,
        ]
    }
}

/// The UTF-8 encoding of a string.
pub open spec fn utf8_bytes(s: Seq<char>) -> Seq<u8>
    decreases s.len(),
{
    if s.len() == 0 {
        seq![]
    } else {
        utf8_encode(s[0]) + utf8_bytes(s.drop_first())
    }
}

/// Upper-case hexadecimal digits.
pub open spec fn hex_digits_upper() -> Seq<char> {
    seq!['0', '1', '2', '3', '4', '5', '6', '7', '8', '9', 'A', 'B', 'C', 'D', 'E', 'F']
}

/// The upper-case hexadecimal digit of `d` (`0 <= d < 16`).
pub open spec fn hex_upper(d: int) -> char {
    hex_digits_upper()[d]
}

/// `%XX` for one byte, in upper-case hex.
pub open spec fn percent_byte(b: u8) -> Seq<char> {
    seq!['%', hex_upper(b as int / 16), hex_upper(b as int % 16)]
}

/// `%XX` for each byte.
pub open spec fn percent_bytes(bs: Seq<u8>) -> Seq<char>
    decreases bs.len(),
{
    if bs.len() == 0 {
        seq![]
    } else {
        percent_byte(bs[0]) + percent_bytes(bs.drop_first())
    }
}

/// A character as `urlencode` writes it.
pub open spec fn encode_char(c: char) -> Seq<char> {
    if is_unreserved(c) {
        seq![c]
    } else {
        percent_bytes(utf8_encode(c))
    }
}

/// The percent-encoding of a string.
pub open spec fn spec_urlencode(s: Seq<char>) -> Seq<char>
    decreases s.len(),
{
    if s.len() == 0 {
        seq![]
    } else {
        encode_char(s[0]) + spec_urlencode(s.drop_first())
    }
}

fn hex_digit_upper(d: u8) -> (c: char)
    requires
        d < 16,
    ensures
        c == hex_upper(d as int),
{
    match d {
        0 => '0',
        1 => '1',
        2 => '2',
        3 => '3',
        4 => '4',
        5 => '5',
        6 => '6',
        7 => '7',
        8 => '8',
        9 => '9',
        10 => 'A',
        11 => 'B',
        12 => 'C',
        13 => 'D',
        14 => 'E',
        _ => 'F',
    }
}

fn utf8_of(c: char) -> (r: Vec<u8>)
    ensures
        r@ == utf8_encode(c),
{
    let v = c as u32;
    if v < 0x80 {
        vec![v as u8]
    } else if v < 0x800 {
        vec![(0xC0 + v / 64) as u8, (0x80 + v % 64) as u8]
    } else if v < 0x10000 {
        vec![(0xE0 + v / 4096) as u8, (0x80 + (v / 64) % 64) as u8, (0x80 + v % 64) as u8]
    } else {
        vec![
            (0xF0 + v / 262144) as u8,
            (0x80 + (v / 4096) % 64) as u8,
            (0x80 + (v / 64) % 64) as u8,
            (0x80 + v % 64) as u8,
        ]
    }
}

/// Percent-encode a string for a URL query: unreserved ASCII characters
/// stay, every other character becomes `%XX` for each byte of its UTF-8
/// encoding, in upper-case hex.
pub fn urlencode(s: &str) -> (r: String)
    ensures
        r@ == spec_urlencode(s@),
{
    let cs = chars_of(s);
    let mut out: Vec<char> = Vec::new();
    let mut i: usize = 0;
    assert(cs@.skip(0) == cs@);
    while i < cs.len()
        invariant
            cs@ == s@,
            i <= cs@.len(),
            spec_urlencode(s@) == out@ + spec_urlencode(cs@.skip(i as int)),
        decreases cs@.len() - i,
    {
        let c = cs[i];
        assert(cs@.skip(i as int)[0] == c);
        assert(cs@.skip(i as int).drop_first() == cs@.skip(i + 1));
        let ghost before = out@;
        if ('a' <= c && c <= 'z') || ('A' <= c && c <= 'Z') || ('0' <= c && c <= '9') || c == '-'
            || c == '_' || c == '.' || c == '~' {
            out.push(c);
        } else {
            let bs = utf8_of(c);
            let mut j: usize = 0;
            assert(bs@.skip(0) == bs@);
            while j < bs.len()
                invariant
                    j <= bs@.len(),
                    before + percent_bytes(bs@) == out@ + percent_bytes(bs@.skip(j as int)),
                decreases bs@.len() - j,
            {
                let b = bs[j];
                assert(bs@.skip(j as int)[0] == b);
                assert(bs@.skip(j as int).drop_first() == bs@.skip(j + 1));
                out.push('%');
                out.push(hex_digit_upper(b / 16));
                out.push(hex_digit_upper(b % 16));
                j = j + 1;
            }
            assert(bs@.skip(bs@.len() as int) =~= Seq::<u8>::empty());
        }
        i = i + 1;
    }
    assert(cs@.skip(cs@.len() as int) =~= Seq::<char>::empty());
    string_of(&out)
}

} // verus!

verus! {

/// The value of a hexadecimal digit (either case).
pub open spec fn hex_value(c: char) -> Option<int> {
    if '0' <= c && c <= '9' {
        Some(c as u32 - '0' as u32)
    } else if 'A' <= c && c <= 'F' {
        Some(c as u32 - 'A' as u32 + 10)
    } else if 'a' <= c && c <= 'f' {
        Some(c as u32 - 'a' as u32 + 10)
    } else {
        None
    }
}

/// Percent-decoding: `%XX` gives the byte `XX`, any other character the
/// bytes of its UTF-8 encoding.
pub open spec fn percent_decode(s: Seq<char>) -> Seq<u8>
    decreases s.len(),
{
    if s.len() == 0 {
        seq![]
    } else if s[0] == '%' && s.len() >= 3 && hex_value(s[1]) is Some && hex_value(s[2]) is Some {
        seq![(hex_value(s[1])->0 * 16 + hex_value(s[2])->0) as u8] + percent_decode(s.skip(3))
    } else {
        utf8_encode(s[0]) + percent_decode(s.drop_first())
    }
}

proof fn lemma_hex_digit_roundtrip(d: int)
    requires
        0 <= d < 16,
    ensures
        hex_value(hex_upper(d)) == Some(d),
{
    if d == 0 {} else if d == 1 {} else if d == 2 {} else if d == 3 {} else if d == 4 {
    } else if d == 5 {} else if d == 6 {} else if d == 7 {} else if d == 8 {} else if d == 9 {
    } else if d == 10 {} else if d == 11 {} else if d == 12 {} else if d == 13 {
    } else if d == 14 {} else {}
}

proof fn lemma_decode_percent_bytes(bs: Seq<u8>, rest: Seq<char>)
    ensures
        percent_decode(percent_bytes(bs) + rest) == bs + percent_decode(rest),
    decreases bs.len(),
{
    if bs.len() == 0 {
        assert(percent_bytes(bs) + rest == rest);
        assert(bs + percent_decode(rest) == percent_decode(rest));
    } else {
        let b = bs[0];
        let tail = percent_bytes(bs.drop_first()) + rest;
        let s = percent_bytes(bs) + rest;
        lemma_hex_digit_roundtrip(b as int / 16);
        lemma_hex_digit_roundtrip(b as int % 16);
        assert(s == percent_byte(b) + tail);
        assert(s[0] == '%');
        assert(s[1] == hex_upper(b as int / 16));
        assert(s[2] == hex_upper(b as int % 16));
        assert(s.skip(3) == tail);
        lemma_decode_percent_bytes(bs.drop_first(), rest);
        assert(bs == seq![b] + bs.drop_first());
    }
}

/// Percent-decoding undoes `urlencode`: the bytes it gives back are the
/// UTF-8 encoding of the input string.
pub proof fn lemma_urlencode_roundtrip(s: Seq<char>)
    ensures
        percent_decode(spec_urlencode(s)) == utf8_bytes(s),
    decreases s.len(),
{
    if s.len() > 0 {
        let c = s[0];
        let rest = spec_urlencode(s.drop_first());
        lemma_urlencode_roundtrip(s.drop_first());
        if is_unreserved(c) {
            let e = seq![c] + rest;
            assert(e[0] == c);
            assert(e.drop_first() == rest);
        } else {
            lemma_decode_percent_bytes(utf8_encode(c), rest);
        }
    }
}

/// Strings made of unreserved characters are left as they are.
pub proof fn lemma_urlencode_unreserved(s: Seq<char>)
    requires
        forall|i: int| 0 <= i < s.len() ==> is_unreserved(#[trigger] s[i]),
    ensures
        spec_urlencode(s) == s,
    decreases s.len(),
{
    if s.len() > 0 {
        lemma_urlencode_unreserved(s.drop_first());
        assert(s == seq![s[0]] + s.drop_first());
    }
}

} // verus!

verus! {

proof fn lemma_trim_trailing_slashes(s: Seq<char>)
    ensures
        trim_trailing_slashes(s).len() > 0 ==> trim_trailing_slashes(s).last() != '/',
        trim_trailing_slashes(s).len() <= s.len(),
    decreases s.len(),
{
    if s.len() > 0 && s.last() == '/' {
        lemma_trim_trailing_slashes(s.drop_last());
    }
}

/// `shared_len` picks the longest matching run up to `k`, or 0.
pub proof fn lemma_shared_len(b: Seq<char>, np: Seq<char>, k: int)
    ensures
        0 <= shared_len(b, np, k),
        shared_len(b, np, k) <= if k < 0 { 0 } else { k },
        shared_len(b, np, k) != 0 ==> leading_run(np, shared_len(b, np, k)) && ends_with_run(
            b,
            np.take(shared_len(b, np, k)),
        ),
        forall|j: int|
            shared_len(b, np, k) < j <= k ==> !(#[trigger] leading_run(np, j) && ends_with_run(
                b,
                np.take(j),
            )),
    decreases k,
{
    if k >= 2 && !(leading_run(np, k) && ends_with_run(b, np.take(k))) {
        lemma_shared_len(b, np, k - 1);
    }
}

/// A trailing slash on the base makes no difference.
pub proof fn lemma_join_url_trailing_slash(base: Seq<char>, path: Seq<char>)
    ensures
        spec_join_url(base.push('/'), path) == spec_join_url(base, path),
{
    assert(base.push('/').drop_last() == base);
}

/// The joined URL starts with the base (its trailing slashes removed) and
/// ends with the whole path, with a leading `/`.
pub proof fn lemma_join_url_ends_with_path(base: Seq<char>, path: Seq<char>)
    ensures
        ({
            let u = spec_join_url(base, path);
            let b = trim_trailing_slashes(base);
            let np = slashed(path);
            &&& u.len() >= b.len()
            &&& u.len() >= np.len()
            &&& u.take(b.len() as int) == b
            &&& u.skip(u.len() - np.len()) == np
        }),
{
    let b = trim_trailing_slashes(base);
    let np = slashed(path);
    let n = shared_len(b, np, np.len() as int);
    lemma_shared_len(b, np, np.len() as int);
    let u = b + np.skip(n);
    assert(u.take(b.len() as int) =~= b);
    if n == 0 {
        assert(u.skip(u.len() - np.len()) =~= np);
    } else {
        assert(b.subrange(b.len() - n, b.len() as int) == np.take(n));
        assert forall|i: int| 0 <= i < np.len() implies #[trigger] u.skip(u.len() - np.len())[i]
            == np[i] by {
            if i < n {
                assert(b.subrange(b.len() - n, b.len() as int)[i] == np.take(n)[i]);
            }
        }
        assert(u.skip(u.len() - np.len()) =~= np);
    }
}

/// Exactly one slash stands where the path is joined on: the base does not
/// end with a slash, and what follows it, if anything, starts with one.
pub proof fn lemma_join_url_single_slash(base: Seq<char>, path: Seq<char>)
    ensures
        ({
            let u = spec_join_url(base, path);
            let b = trim_trailing_slashes(base);
            &&& b.len() > 0 ==> u[b.len() - 1] != '/'
            &&& u.len() > b.len() ==> u[b.len() as int] == '/'
        }),
{
    lemma_trim_trailing_slashes(base);
    let b = trim_trailing_slashes(base);
    let np = slashed(path);
    let n = shared_len(b, np, np.len() as int);
    lemma_shared_len(b, np, np.len() as int);
    let u = b + np.skip(n);
    if b.len() > 0 {
        assert(u[b.len() - 1] == b.last());
    }
    if u.len() > b.len() {
        assert(u[b.len() as int] == np[n]);
    }
}

/// When the base already ends with a run of the path's leading segments,
/// that run is not repeated: the URL is the base followed by what comes
/// after the longest such run, which is at least as long as the given one.
pub proof fn lemma_join_url_no_repeat(base: Seq<char>, path: Seq<char>, k: int)
    requires
        leading_run(slashed(path), k),
        ends_with_run(trim_trailing_slashes(base), slashed(path).take(k)),
    ensures
        ({
            let b = trim_trailing_slashes(base);
            let np = slashed(path);
            let j = shared_len(b, np, np.len() as int);
            &&& k <= j
            &&& leading_run(np, j)
            &&& ends_with_run(b, np.take(j))
            &&& spec_join_url(base, path) == b + np.skip(j)
        }),
{
    let b = trim_trailing_slashes(base);
    let np = slashed(path);
    lemma_shared_len(b, np, np.len() as int);
    assert(leading_run(np, k));
}

/// When the base ends with no run of the path's leading segments, the URL
/// is the base, then the whole path with a leading `/`.
pub proof fn lemma_join_url_plain(base: Seq<char>, path: Seq<char>)
    requires
        forall|k: int|
            !(#[trigger] leading_run(slashed(path), k) && ends_with_run(
                trim_trailing_slashes(base),
                slashed(path).take(k),
            )),
    ensures
        spec_join_url(base, path) == trim_trailing_slashes(base) + slashed(path),
{
    let b = trim_trailing_slashes(base);
    let np = slashed(path);
    let n = shared_len(b, np, np.len() as int);
    lemma_shared_len(b, np, np.len() as int);
    if n != 0 {
        assert(leading_run(np, n));
    }
    assert(np.skip(0) =~= np);
}

} // verus!

verus! {

/// The characters `urlencode` writes: unreserved ones, `%`, and the
/// upper-case hex digits.
pub open spec fn is_url_safe(c: char) -> bool {
    is_unreserved(c) || c == '%' || hex_digits_upper().contains(c)
}

proof fn lemma_percent_bytes_safe(bs: Seq<u8>)
    ensures
        forall|i: int| 0 <= i < percent_bytes(bs).len() ==> is_url_safe(#[trigger] percent_bytes(bs)[i]),
    decreases bs.len(),
{
    if bs.len() > 0 {
        lemma_percent_bytes_safe(bs.drop_first());
        let b = bs[0];
        let p = percent_byte(b);
        let r = percent_bytes(bs.drop_first());
        assert(hex_digits_upper()[b as int / 16] == p[1]);
        assert(hex_digits_upper()[b as int % 16] == p[2]);
        assert forall|i: int| 0 <= i < (p + r).len() implies is_url_safe(#[trigger] (p + r)[i]) by {
            if i >= 3 {
                assert((p + r)[i] == r[i - 3]);
            } else if i == 0 {
            } else if i == 1 {
                assert(hex_digits_upper().contains(p[1]));
            } else {
                assert(hex_digits_upper().contains(p[2]));
            }
        }
    }
}

/// `urlencode` writes only unreserved characters, `%` and upper-case hex
/// digits, so its output can stand in a URL query as it is.
pub proof fn lemma_urlencode_url_safe(s: Seq<char>)
    ensures
        forall|i: int| 0 <= i < spec_urlencode(s).len() ==> is_url_safe(#[trigger] spec_urlencode(s)[i]),
    decreases s.len(),
{
    if s.len() > 0 {
        lemma_urlencode_url_safe(s.drop_first());
        let e = encode_char(s[0]);
        let r = spec_urlencode(s.drop_first());
        if !is_unreserved(s[0]) {
            lemma_percent_bytes_safe(utf8_encode(s[0]));
        }
        assert forall|i: int| 0 <= i < (e + r).len() implies is_url_safe(#[trigger] (e + r)[i]) by {
            if i < e.len() {
                assert((e + r)[i] == e[i]);
            } else {
                assert((e + r)[i] == r[i - e.len()]);
            }
        }
    }
}

} // verus!
