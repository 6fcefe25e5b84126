//! Detection rules: the rules-file reader and the line scanner.
//!
//! A rules file is read line by line. `- id: X` starts a rule,
//! `  pattern: P`, `  substrate_domain_id: D` and `  severity: S` set its
//! fields. A rule is kept when it has an id and a pattern and the pattern
//! compiles as a regular expression.

use vstd::prelude::*;
use crate::text::{chars_eq, chars_of, is_ws, lines, split_lines, string_of, slice_chars};

verus! {

// ---------------------------------------------------------------- regex

#[verifier::external_type_specification]
#[verifier::external_body]
pub struct ExRegex(regex::Regex);

/// Whether `regex::Regex::new` accepts a pattern.
pub uninterp spec fn regex_compiles(pattern: Seq<char>) -> bool;

/// Whether a compiled pattern matches somewhere in a haystack
/// (`regex::Regex::is_match`).
pub uninterp spec fn regex_is_match(pattern: Seq<char>, haystack: Seq<char>) -> bool;

/// A compiled regular expression together with its source. The fields
/// are private and `compile_pattern` is the only constructor, so the
/// regex is always the compilation of the source.
pub struct Pattern {
    source: String,
    regex: regex::Regex,
}

impl Pattern {
    /// The source text of the pattern.
    pub closed spec fn source(&self) -> Seq<char> {
        self.source@
    }

    /// The source text of the pattern.
    pub fn source_str(&self) -> (s: &str)
        ensures
            s@ == self.source(),
    {
        self.source.as_str()
    }
}

/// `regex::Regex::new`: the pattern compiles or it does not; which
/// patterns compile is not stated here beyond its name.
#[verifier::external_body]
fn compile_pattern(pattern: &str) -> (r: Option<Pattern>)
    ensures
        r is Some <==> regex_compiles(pattern@),
        r matches Some(p) ==> p.source() == pattern@,
{
    match regex::Regex::new(pattern) {
        Ok(regex) => Some(Pattern { source: pattern.to_string(), regex }),
        Err(_) => None,
    }
}

/// `regex::Regex::is_match` on the compiled pattern.
#[verifier::external_body]
fn pattern_matches(p: &Pattern, haystack: &str) -> (b: bool)
    ensures
        b == regex_is_match(p.source(), haystack@),
{
    p.regex.is_match(haystack)
}

// ---------------------------------------------------------------- runs of characters

/// Length of the run of whitespace at the start of `s`.
pub open spec fn ws_prefix_len(s: Seq<char>) -> nat
    decreases s.len(),
{
    if s.len() > 0 && is_ws(s[0]) {
        1 + ws_prefix_len(s.drop_first())
    } else {
        0
    }
}

/// Length of the run of non-whitespace at the start of `s`.
pub open spec fn nonws_prefix_len(s: Seq<char>) -> nat
    decreases s.len(),
{
    if s.len() > 0 && !is_ws(s[0]) {
        1 + nonws_prefix_len(s.drop_first())
    } else {
        0
    }
}

/// Length of the run of whitespace at the end of `s`.
pub open spec fn ws_suffix_len(s: Seq<char>) -> nat
    decreases s.len(),
{
    if s.len() > 0 && is_ws(s.last()) {
        1 + ws_suffix_len(s.drop_last())
    } else {
        0
    }
}

proof fn lemma_ws_prefix(s: Seq<char>)
    ensures
        ws_prefix_len(s) <= s.len(),
        forall|j: int| 0 <= j < ws_prefix_len(s) ==> is_ws(#[trigger] s[j]),
        ws_prefix_len(s) < s.len() ==> !is_ws(s[ws_prefix_len(s) as int]),
    decreases s.len(),
{
    if s.len() > 0 && is_ws(s[0]) {
        lemma_ws_prefix(s.drop_first());
        assert forall|j: int| 0 <= j < ws_prefix_len(s) implies is_ws(#[trigger] s[j]) by {
            if j > 0 {
                assert(s[j] == s.drop_first()[j - 1]);
            }
        }
    }
}

proof fn lemma_nonws_prefix(s: Seq<char>)
    ensures
        nonws_prefix_len(s) <= s.len(),
        forall|j: int| 0 <= j < nonws_prefix_len(s) ==> !is_ws(#[trigger] s[j]),
        nonws_prefix_len(s) < s.len() ==> is_ws(s[nonws_prefix_len(s) as int]),
    decreases s.len(),
{
    if s.len() > 0 && !is_ws(s[0]) {
        lemma_nonws_prefix(s.drop_first());
        assert forall|j: int| 0 <= j < nonws_prefix_len(s) implies !is_ws(#[trigger] s[j]) by {
            if j > 0 {
                assert(s[j] == s.drop_first()[j - 1]);
            }
        }
    }
}

proof fn lemma_ws_suffix(s: Seq<char>, k: int)
    requires
        0 <= k < s.len(),
        !is_ws(s[k]),
    ensures
        ws_suffix_len(s) <= s.len() - 1 - k,
    decreases s.len(),
{
    if s.len() > 0 && is_ws(s.last()) {
        lemma_ws_suffix(s.drop_last(), k);
    }
}

/// Length of the whitespace run of `s` starting at `from`.
fn ws_run(s: &Vec<char>, from: usize) -> (n: usize)
    requires
        from <= s@.len(),
    ensures
        n == ws_prefix_len(s@.skip(from as int)),
        from + n <= s@.len(),
{
    let mut i = from;
    assert(s@.skip(from as int).skip(0) == s@.skip(from as int));
    while i < s.len() && crate::text::char_is_ws(s[i])
        invariant
            from <= i <= s@.len(),
            ws_prefix_len(s@.skip(from as int)) == (i - from) + ws_prefix_len(s@.skip(i as int)),
        decreases s@.len() - i,
    {
        assert(s@.skip(i as int)[0] == s@[i as int]);
        assert(s@.skip(i as int).drop_first() == s@.skip(i + 1));
        i = i + 1;
    }
    i - from
}

/// Length of the non-whitespace run of `s` starting at `from`.
fn nonws_run(s: &Vec<char>, from: usize) -> (n: usize)
    requires
        from <= s@.len(),
    ensures
        n == nonws_prefix_len(s@.skip(from as int)),
        from + n <= s@.len(),
{
    let mut i = from;
    while i < s.len() && !crate::text::char_is_ws(s[i])
        invariant
            from <= i <= s@.len(),
            nonws_prefix_len(s@.skip(from as int)) == (i - from) + nonws_prefix_len(
                s@.skip(i as int),
            ),
        decreases s@.len() - i,
    {
        assert(s@.skip(i as int)[0] == s@[i as int]);
        assert(s@.skip(i as int).drop_first() == s@.skip(i + 1));
        i = i + 1;
    }
    i - from
}

/// Length of the whitespace run at the end of `s`.
fn ws_tail(s: &Vec<char>) -> (n: usize)
    ensures
        n == ws_suffix_len(s@),
        n <= s@.len(),
{
    let mut i = s.len();
    assert(s@.take(s@.len() as int) == s@);
    while i > 0 && crate::text::char_is_ws(s[i - 1])
        invariant
            i <= s@.len(),
            ws_suffix_len(s@) == (s@.len() - i) + ws_suffix_len(s@.take(i as int)),
        decreases i,
    {
        assert(s@.take(i as int).last() == s@[i - 1]);
        assert(s@.take(i as int).drop_last() == s@.take(i - 1));
        i = i - 1;
    }
    s.len() - i
}

/// `kw` stands in `s` at position `p`.
pub open spec fn keyword_at(s: Seq<char>, p: int, kw: Seq<char>) -> bool {
    0 <= p && p + kw.len() <= s.len() && s.subrange(p, p + kw.len()) == kw
}

fn has_keyword_at(s: &Vec<char>, p: usize, kw: &Vec<char>) -> (b: bool)
    ensures
        b == keyword_at(s@, p as int, kw@),
{
    if p > s.len() || kw.len() > s.len() - p {
        return false;
    }
    let mut i: usize = 0;
    let n = s.len();
    while i < kw.len()
        invariant
            n == s@.len(),
            p + kw@.len() <= s@.len(),
            i <= kw@.len(),
            forall|j: int| 0 <= j < i ==> s@[p + j] == kw@[j],
        decreases kw@.len() - i,
    {
        assert(p + i < s@.len());
        if s[p + i] != kw[i] {
            assert(s@.subrange(p as int, p + kw@.len())[i as int] != kw@[i as int]);
            return false;
        }
        i = i + 1;
    }
    assert(s@.subrange(p as int, p + kw@.len()) == kw@);
    true
}

/// A single or double quote.
pub open spec fn is_quote(c: char) -> bool {
    c == '\'' || c == '"'
}

// ---------------------------------------------------------------- the four line forms

/// `^-\s*id:\s*(\S+)`: the capture, if the line matches.
pub open spec fn id_capture(line: Seq<char>) -> Option<Seq<char>> {
    if line.len() > 0 && line[0] == '-' {
        let p: int = 1 + ws_prefix_len(line.skip(1)) as int;
        if keyword_at(line, p, "id:"@) {
            let q: int = p + 3 + ws_prefix_len(line.skip(p + 3));
            let n: int = nonws_prefix_len(line.skip(q)) as int;
            if n > 0 {
                Some(line.subrange(q, q + n))
            } else {
                None
            }
        } else {
            None
        }
    } else {
        None
    }
}

/// `^\s+severity:\s*(\S+)`: the capture, if the line matches.
pub open spec fn severity_capture(line: Seq<char>) -> Option<Seq<char>> {
    if line.len() > 0 && is_ws(line[0]) {
        let p: int = ws_prefix_len(line) as int;
        if keyword_at(line, p, "severity:"@) {
            let q: int = p + 9 + ws_prefix_len(line.skip(p + 9));
            let n: int = nonws_prefix_len(line.skip(q)) as int;
            if n > 0 {
                Some(line.subrange(q, q + n))
            } else {
                None
            }
        } else {
            None
        }
    } else {
        None
    }
}

/// `^\s+pattern:\s*['"]?(.+?)['"]?\s*$`: the capture, if the line matches.
///
/// After `pattern:` and its whitespace `w`, one opening quote is taken
/// when something follows it; the lazy capture then ends before the
/// trailing whitespace and one closing quote, but holds at least one
/// character. When nothing but whitespace follows `pattern:`, the
/// capture is its last whitespace character.
pub open spec fn pattern_capture(line: Seq<char>) -> Option<Seq<char>> {
    if line.len() > 0 && is_ws(line[0]) {
        let p: int = ws_prefix_len(line) as int;
        if keyword_at(line, p, "pattern:"@) {
            let b: int = p + 8;
            let len = line.len() as int;
            let w: int = b + ws_prefix_len(line.skip(b));
            if w == len {
                if w == b {
                    None
                } else {
                    Some(line.subrange(w - 1, w))
                }
            } else {
                let s: int = if is_quote(line[w]) && w + 1 < len {
                    w + 1
                } else {
                    w
                };
                let e0: int = len - ws_suffix_len(line);
                let e: int = if e0 >= s + 2 && is_quote(line[e0 - 1]) {
                    e0 - 1
                } else if e0 >= s + 1 {
                    e0
                } else {
                    s + 1
                };
                Some(line.subrange(s, e))
            }
        } else {
            None
        }
    } else {
        None
    }
}

/// `^\s+substrate_domain_id:\s*['"]?(\S+?)['"]?\s*$`: the capture, if the
/// line matches. Only whitespace may follow the non-whitespace run; an
/// opening quote is taken when more follows it, a closing quote is left
/// out when the capture keeps a character.
pub open spec fn domain_capture(line: Seq<char>) -> Option<Seq<char>> {
    if line.len() > 0 && is_ws(line[0]) {
        let p: int = ws_prefix_len(line) as int;
        if keyword_at(line, p, "substrate_domain_id:"@) {
            let b: int = p + 20;
            let len = line.len() as int;
            let w: int = b + ws_prefix_len(line.skip(b));
            if w == len {
                None
            } else {
                let q: int = w + nonws_prefix_len(line.skip(w));
                if q + ws_prefix_len(line.skip(q)) != len {
                    None
                } else {
                    let s: int = if is_quote(line[w]) && q >= w + 2 {
                        w + 1
                    } else {
                        w
                    };
                    let e: int = if q >= s + 2 && is_quote(line[q - 1]) {
                        q - 1
                    } else {
                        q
                    };
                    Some(line.subrange(s, e))
                }
            }
        } else {
            None
        }
    } else {
        None
    }
}

fn id_of(line: &Vec<char>) -> (r: Option<String>)
    ensures
        r matches Some(v) ==> id_capture(line@) == Some(v@),
        r is None ==> id_capture(line@) is None,
{
    if !(line.len() > 0 && line[0] == '-') {
        return None;
    }
    let p = 1 + ws_run(line, 1);
    let kw = chars_of("id:");
    proof {
        reveal_strlit("id:");
    }
    if !has_keyword_at(line, p, &kw) {
        return None;
    }
    let q = p + 3 + ws_run(line, p + 3);
    let n = nonws_run(line, q);
    if n > 0 {
        Some(string_of(&slice_chars(line, q, q + n)))
    } else {
        None
    }
}

fn severity_of(line: &Vec<char>) -> (r: Option<String>)
    ensures
        r matches Some(v) ==> severity_capture(line@) == Some(v@),
        r is None ==> severity_capture(line@) is None,
{
    if !(line.len() > 0 && crate::text::char_is_ws(line[0])) {
        return None;
    }
    let p = ws_run(line, 0);
    assert(line@.skip(0) == line@);
    let kw = chars_of("severity:");
    proof {
        reveal_strlit("severity:");
    }
    if !has_keyword_at(line, p, &kw) {
        return None;
    }
    let q = p + 9 + ws_run(line, p + 9);
    let n = nonws_run(line, q);
    if n > 0 {
        Some(string_of(&slice_chars(line, q, q + n)))
    } else {
        None
    }
}

fn pattern_of(line: &Vec<char>) -> (r: Option<String>)
    ensures
        r matches Some(v) ==> pattern_capture(line@) == Some(v@),
        r is None ==> pattern_capture(line@) is None,
{
    if !(line.len() > 0 && crate::text::char_is_ws(line[0])) {
        return None;
    }
    let p = ws_run(line, 0);
    assert(line@.skip(0) == line@);
    let kw = chars_of("pattern:");
    proof {
        reveal_strlit("pattern:");
    }
    if !has_keyword_at(line, p, &kw) {
        return None;
    }
    let b = p + 8;
    let len = line.len();
    let w = b + ws_run(line, b);
    if w == len {
        if w == b {
            None
        } else {
            Some(string_of(&slice_chars(line, w - 1, w)))
        }
    } else {
        proof {
            lemma_ws_prefix(line@.skip(b as int));
            assert(line@.skip(b as int)[w - b] == line@[w as int]);
            lemma_ws_suffix(line@, w as int);
        }
        let s = if (line[w] == '\'' || line[w] == '"') && w + 1 < len {
            w + 1
        } else {
            w
        };
        let e0 = len - ws_tail(line);
        let e = if e0 > s && e0 - s >= 2 && (line[e0 - 1] == '\'' || line[e0 - 1] == '"') {
            e0 - 1
        } else if e0 > s {
            e0
        } else {
            s + 1
        };
        Some(string_of(&slice_chars(line, s, e)))
    }
}

fn domain_of(line: &Vec<char>) -> (r: Option<String>)
    ensures
        r matches Some(v) ==> domain_capture(line@) == Some(v@),
        r is None ==> domain_capture(line@) is None,
{
    if !(line.len() > 0 && crate::text::char_is_ws(line[0])) {
        return None;
    }
    let p = ws_run(line, 0);
    assert(line@.skip(0) == line@);
    let kw = chars_of("substrate_domain_id:");
    proof {
        reveal_strlit("substrate_domain_id:");
    }
    if !has_keyword_at(line, p, &kw) {
        return None;
    }
    let b = p + 20;
    let len = line.len();
    let w = b + ws_run(line, b);
    if w == len {
        return None;
    }
    let q = w + nonws_run(line, w);
    if q + ws_run(line, q) != len {
        return None;
    }
    proof {
        lemma_ws_prefix(line@.skip(b as int));
        assert(line@.skip(b as int)[w - b] == line@[w as int]);
        lemma_nonws_prefix(line@.skip(w as int));
        assert(line@.skip(w as int)[0] == line@[w as int]);
    }
    let s = if (line[w] == '\'' || line[w] == '"') && q - w >= 2 {
        w + 1
    } else {
        w
    };
    let e = if q > s && q - s >= 2 && (line[q - 1] == '\'' || line[q - 1] == '"') {
        q - 1
    } else {
        q
    };
    Some(string_of(&slice_chars(line, s, e)))
}

} // verus!

verus! {

// ---------------------------------------------------------------- the reader

/// A rule as values: id, pattern, substrate domain id, severity.
pub type RuleFields = (Seq<char>, Seq<char>, Seq<char>, Seq<char>);

/// What the reader holds between lines.
pub struct ReaderState {
    /// Id of the rule being read.
    pub id: Option<Seq<char>>,
    /// Pattern of the rule being read.
    pub pattern: Option<Seq<char>>,
    /// Last domain seen and not yet used.
    pub domain: Seq<char>,
    /// Last severity seen and not yet used.
    pub severity: Seq<char>,
    /// The rules kept so far.
    pub rules: Seq<RuleFields>,
}

/// The state before the first line.
pub open spec fn initial_state() -> ReaderState {
    ReaderState { id: None, pattern: None, domain: seq![], severity: seq![], rules: seq![] }
}

/// Closing the rule being read: both id and pattern are cleared; the rule
/// is kept when it has both and its pattern compiles, and then domain and
/// severity start over empty.
pub open spec fn flush(st: ReaderState) -> ReaderState {
    match (st.id, st.pattern) {
        (Some(id), Some(pat)) => if regex_compiles(pat) {
            ReaderState {
                id: None,
                pattern: None,
                domain: seq![],
                severity: seq![],
                rules: st.rules.push((id, pat, st.domain, st.severity)),
            }
        } else {
            ReaderState { id: None, pattern: None, ..st }
        },
        _ => ReaderState { id: None, pattern: None, ..st },
    }
}

/// One line: an id line closes the rule being read and starts a new one;
/// otherwise the first of pattern, domain and severity that the line
/// gives is recorded.
pub open spec fn step(st: ReaderState, line: Seq<char>) -> ReaderState {
    match id_capture(line) {
        Some(id) => ReaderState { id: Some(id), ..flush(st) },
        None => match pattern_capture(line) {
            Some(p) => ReaderState { pattern: Some(p), ..st },
            None => match domain_capture(line) {
                Some(d) => ReaderState { domain: d, ..st },
                None => match severity_capture(line) {
                    Some(v) => ReaderState { severity: v, ..st },
                    None => st,
                },
            },
        },
    }
}

/// The state after reading `ls` in order.
pub open spec fn read_lines(ls: Seq<Seq<char>>) -> ReaderState
    decreases ls.len(),
{
    if ls.len() == 0 {
        initial_state()
    } else {
        step(read_lines(ls.drop_last()), ls.last())
    }
}

/// The rules a rules file yields.
pub open spec fn spec_parse_rules(text: Seq<char>) -> Seq<RuleFields> {
    flush(read_lines(lines(text))).rules
}

/// A detection rule.
pub struct Rule {
    /// Rule id.
    pub id: String,
    /// The compiled pattern.
    pub pattern: Pattern,
    /// Substrate domain id.
    pub domain: String,
    /// Severity.
    pub severity: String,
}

/// A rule as values.
pub open spec fn rule_fields(r: Rule) -> RuleFields {
    (r.id@, r.pattern.source(), r.domain@, r.severity@)
}

/// A list of rules as values.
pub open spec fn rules_fields(rs: Seq<Rule>) -> Seq<RuleFields> {
    rs.map_values(|r: Rule| rule_fields(r))
}

/// Closes the rule being read (see `flush`).
fn close_rule(
    out: &mut Vec<Rule>,
    id: Option<String>,
    pattern: Option<String>,
    domain: String,
    severity: String,
) -> (r: (String, String))
    ensures
        ({
            let st = ReaderState {
                id: match id {
                    Some(s) => Some(s@),
                    None => None,
                },
                pattern: match pattern {
                    Some(s) => Some(s@),
                    None => None,
                },
                domain: domain@,
                severity: severity@,
                rules: rules_fields(old(out)@),
            };
            &&& rules_fields(final(out)@) == flush(st).rules
            &&& r.0@ == flush(st).domain
            &&& r.1@ == flush(st).severity
        }),
{
    match (id, pattern) {
        (Some(id), Some(pat)) => {
            match compile_pattern(pat.as_str()) {
                Some(p) => {
                    let ghost before = out@;
                    out.push(Rule { id, pattern: p, domain, severity });
                    assert(rules_fields(out@) == rules_fields(before).push(
                        rule_fields(out@[out@.len() - 1]),
                    ));
                    (String::new(), String::new())
                },
                None => (domain, severity),
            }
        },
        _ => (domain, severity),
    }
}

/// Minimal rules-file reader: picks out `- id:`, `pattern:`,
/// `substrate_domain_id:` and `severity:` lines (see `step`), keeping the
/// rules whose pattern compiles.
pub fn parse_rules(text: &str) -> (r: Vec<Rule>)
    ensures
        rules_fields(r@) == spec_parse_rules(text@),
{
    let ls = split_lines(&chars_of(text));
    let ghost lsv = lines(text@);
    let mut out: Vec<Rule> = Vec::new();
    let mut cur_id: Option<String> = None;
    let mut cur_pattern: Option<String> = None;
    let mut cur_domain = String::new();
    let mut cur_severity = String::new();
    let mut k: usize = 0;
    assert(lsv.take(0) =~= Seq::<Seq<char>>::empty());
    assert(rules_fields(out@) =~= Seq::<RuleFields>::empty());
    while k < ls.len()
        invariant
            lsv == lines(text@),
            ls@.len() == lsv.len(),
            forall|j: int| 0 <= j < ls@.len() ==> #[trigger] ls@[j]@ == lsv[j],
            k <= ls@.len(),
            read_lines(lsv.take(k as int)) == (ReaderState {
                id: match cur_id {
                    Some(s) => Some(s@),
                    None => None,
                },
                pattern: match cur_pattern {
                    Some(s) => Some(s@),
                    None => None,
                },
                domain: cur_domain@,
                severity: cur_severity@,
                rules: rules_fields(out@),
            }),
        decreases ls@.len() - k,
    {
        assert(lsv.take(k + 1).drop_last() == lsv.take(k as int));
        assert(lsv.take(k + 1).last() == lsv[k as int]);
        let line = &ls[k];
        match id_of(line) {
            Some(id) => {
                let (d, s) = close_rule(&mut out, cur_id, cur_pattern, cur_domain, cur_severity);
                cur_id = Some(id);
                cur_pattern = None;
                cur_domain = d;
                cur_severity = s;
            },
            None => match pattern_of(line) {
                Some(p) => {
                    cur_pattern = Some(p);
                },
                None => match domain_of(line) {
                    Some(d) => {
                        cur_domain = d;
                    },
                    None => match severity_of(line) {
                        Some(v) => {
                            cur_severity = v;
                        },
                        None => {},
                    },
                },
            },
        }
        k = k + 1;
    }
    assert(lsv.take(lsv.len() as int) == lsv);
    let _ = close_rule(&mut out, cur_id, cur_pattern, cur_domain, cur_severity);
    out
}

} // verus!

verus! {

// ---------------------------------------------------------------- scanning

/// The hits of the first `upto` rules on one line: `(rule index, line number)`
/// for each rule whose pattern matches the line, in rule order.
pub open spec fn line_hits(rs: Seq<RuleFields>, line: Seq<char>, line_no: int, upto: int) -> Seq<
    (int, int),
>
    decreases upto,
{
    if upto <= 0 {
        seq![]
    } else {
        line_hits(rs, line, line_no, upto - 1) + if regex_is_match(rs[upto - 1].1, line) {
            seq![(upto - 1, line_no)]
        } else {
            seq![]
        }
    }
}

/// The hits of all rules on all lines, line by line (lines numbered from 1).
pub open spec fn scan_hits(rs: Seq<RuleFields>, ls: Seq<Seq<char>>) -> Seq<(int, int)>
    decreases ls.len(),
{
    if ls.len() == 0 {
        seq![]
    } else {
        scan_hits(rs, ls.drop_last()) + line_hits(rs, ls.last(), ls.len() as int, rs.len() as int)
    }
}

/// The view of a list of index pairs.
pub open spec fn hits_view(v: Seq<(usize, usize)>) -> Seq<(int, int)> {
    v.map_values(|p: (usize, usize)| (p.0 as int, p.1 as int))
}

/// Match every line of a file's content against every rule: the result
/// lists `(rule index, line number)` for each match, by line and then
/// by rule; lines are numbered from 1.
pub fn scan_content(rules: &Vec<Rule>, content: &str) -> (r: Vec<(usize, usize)>)
    ensures
        hits_view(r@) == scan_hits(rules_fields(rules@), lines(content@)),
{
    let ls = split_lines(&chars_of(content));
    let ghost lsv = lines(content@);
    let ghost rs = rules_fields(rules@);
    let mut out: Vec<(usize, usize)> = Vec::new();
    let mut k: usize = 0;
    assert(lsv.take(0) =~= Seq::<Seq<char>>::empty());
    assert(hits_view(out@) =~= Seq::<(int, int)>::empty());
    while k < ls.len()
        invariant
            lsv == lines(content@),
            rs == rules_fields(rules@),
            ls@.len() == lsv.len(),
            forall|j: int| 0 <= j < ls@.len() ==> #[trigger] ls@[j]@ == lsv[j],
            k <= ls@.len(),
            hits_view(out@) == scan_hits(rs, lsv.take(k as int)),
        decreases ls@.len() - k,
    {
        assert(lsv.take(k + 1).drop_last() == lsv.take(k as int));
        assert(lsv.take(k + 1).last() == lsv[k as int]);
        let line = string_of(&ls[k]);
        let ln = k + 1;
        let ghost base = hits_view(out@);
        let mut j: usize = 0;
        while j < rules.len()
            invariant
                rs == rules_fields(rules@),
                k < ls@.len(),
                line@ == lsv[k as int],
                ln == k + 1,
                j <= rules@.len(),
                hits_view(out@) == base + line_hits(rs, lsv[k as int], k + 1, j as int),
            decreases rules@.len() - j,
        {
            let ghost prev = out@;
            if pattern_matches(&rules[j].pattern, line.as_str()) {
                out.push((j, ln));
                assert(hits_view(out@) == hits_view(prev).push((j as int, ln as int)));
            } else {
                assert(out@ == prev);
            }
            assert(rs[j as int].1 == rules@[j as int].pattern.source());
            j = j + 1;
        }
        k = k + 1;
    }
    assert(lsv.take(lsv.len() as int) == lsv);
    out
}

// ---------------------------------------------------------------- what gets scanned

/// Directories that are never descended into.
pub open spec fn skipped_dir_names() -> Seq<Seq<char>> {
    seq![
        "node_modules"@,
        ".git"@,
        "dist"@,
        "build"@,
        ".next"@,
        "target"@,
        ".venv"@,
        "venv"@,
    ]
}

/// File extensions the detector reads.
pub open spec fn detect_extensions() -> Seq<Seq<char>> {
    seq![
        "js"@,
        "ts"@,
        "jsx"@,
        "tsx"@,
        "py"@,
        "go"@,
        "rs"@,
        "rb"@,
        "java"@,
        "kt"@,
        "cs"@,
        "php"@,
        "sh"@,
        "c"@,
        "cpp"@,
        "h"@,
        "hpp"@,
        "sol"@,
    ]
}

/// File extensions that go into a project fingerprint.
pub open spec fn fingerprint_extensions() -> Seq<Seq<char>> {
    seq!["rs"@, "ts"@, "js"@, "py"@]
}

fn in_list(name: &str, list: &Vec<&str>) -> (b: bool)
    ensures
        b == list@.map_values(|s: &str| s@).contains(name@),
{
    let n = chars_of(name);
    let ghost views = list@.map_values(|s: &str| s@);
    let mut i: usize = 0;
    while i < list.len()
        invariant
            n@ == name@,
            views == list@.map_values(|s: &str| s@),
            i <= list@.len(),
            forall|j: int| 0 <= j < i ==> views[j] != name@,
        decreases list@.len() - i,
    {
        if chars_eq(&chars_of(list[i]), &n) {
            assert(views[i as int] == name@);
            return true;
        }
        i = i + 1;
    }
    false
}

/// A directory that the detector and the fingerprint pass over.
pub fn is_skipped_dir(name: &str) -> (b: bool)
    ensures
        b == skipped_dir_names().contains(name@),
{
    let list = vec!["node_modules", ".git", "dist", "build", ".next", "target", ".venv", "venv"];
    let b = in_list(name, &list);
    assert(list@.map_values(|s: &str| s@) =~= skipped_dir_names());
    b
}

/// A file extension the detector reads.
pub fn is_detect_extension(ext: &str) -> (b: bool)
    ensures
        b == detect_extensions().contains(ext@),
{
    let list = vec![
        "js",
        "ts",
        "jsx",
        "tsx",
        "py",
        "go",
        "rs",
        "rb",
        "java",
        "kt",
        "cs",
        "php",
        "sh",
        "c",
        "cpp",
        "h",
        "hpp",
        "sol",
    ];
    let b = in_list(ext, &list);
    assert(list@.map_values(|s: &str| s@) =~= detect_extensions());
    b
}

/// A file extension that goes into a project fingerprint.
pub fn is_fingerprint_extension(ext: &str) -> (b: bool)
    ensures
        b == fingerprint_extensions().contains(ext@),
{
    let list = vec!["rs", "ts", "js", "py"];
    let b = in_list(ext, &list);
    assert(list@.map_values(|s: &str| s@) =~= fingerprint_extensions());
    b
}

/// The detector reads files up to 1 MiB.
pub open spec fn spec_within_scan_size(len: u64) -> bool {
    len <= 1048576
}

/// Whether a file of this size is read by the detector (files whose
/// size cannot be read count as empty).
pub fn within_scan_size(len: u64) -> (b: bool)
    ensures
        b == spec_within_scan_size(len),
{
    len <= 1048576
}

} // verus!

verus! {

/// Every rule kept so far has a pattern that compiles.
pub open spec fn all_compile(rs: Seq<RuleFields>) -> bool {
    forall|i: int| 0 <= i < rs.len() ==> regex_compiles(#[trigger] rs[i].1)
}

proof fn lemma_flush_keeps_compiling(st: ReaderState)
    requires
        all_compile(st.rules),
    ensures
        all_compile(flush(st).rules),
        flush(st).rules.len() <= st.rules.len() + 1,
{
    match (st.id, st.pattern) {
        (Some(id), Some(pat)) => {
            if regex_compiles(pat) {
                let r = st.rules.push((id, pat, st.domain, st.severity));
                assert forall|i: int| 0 <= i < r.len() implies regex_compiles(#[trigger] r[i].1) by {
                    if i < st.rules.len() {
                        assert(r[i] == st.rules[i]);
                    }
                }
            }
        },
        _ => {},
    }
}

proof fn lemma_read_lines_compiling(ls: Seq<Seq<char>>)
    ensures
        all_compile(read_lines(ls).rules),
    decreases ls.len(),
{
    if ls.len() > 0 {
        lemma_read_lines_compiling(ls.drop_last());
        lemma_flush_keeps_compiling(read_lines(ls.drop_last()));
    }
}

/// Every rule read from a rules file has a pattern that compiles.
pub proof fn lemma_parsed_rules_compile(text: Seq<char>)
    ensures
        all_compile(spec_parse_rules(text)),
{
    lemma_read_lines_compiling(lines(text));
    lemma_flush_keeps_compiling(read_lines(lines(text)));
}

/// An id with no pattern before the next id gives no rule: a file whose
/// lines give ids only yields nothing.
pub proof fn lemma_ids_alone_give_nothing(ls: Seq<Seq<char>>)
    requires
        forall|i: int| 0 <= i < ls.len() ==> pattern_capture(#[trigger] ls[i]) is None,
    ensures
        read_lines(ls).pattern is None,
        read_lines(ls).rules.len() == 0,
    decreases ls.len(),
{
    if ls.len() > 0 {
        assert forall|i: int| 0 <= i < ls.drop_last().len() implies pattern_capture(
            #[trigger] ls.drop_last()[i],
        ) is None by {
            assert(ls.drop_last()[i] == ls[i]);
        }
        lemma_ids_alone_give_nothing(ls.drop_last());
        assert(pattern_capture(ls[ls.len() - 1]) is None);
    }
}

/// After a rule is kept, domain and severity start over empty: the reader
/// carries nothing of the kept rule into the next one, so a rule whose own
/// lines give no severity (domain) has an empty one.
pub proof fn lemma_kept_rule_starts_over(
    ls: Seq<Seq<char>>,
    id_line: Seq<char>,
    block: Seq<Seq<char>>,
)
    requires
        id_capture(id_line) is Some,
        read_lines(ls).id is Some,
        read_lines(ls).pattern matches Some(p) && regex_compiles(p),
        forall|i: int| 0 <= i < block.len() ==> id_capture(#[trigger] block[i]) is None,
    ensures
        ({
            let before = read_lines(ls);
            let after = read_lines(ls.push(id_line) + block);
            &&& after.id == id_capture(id_line)
            &&& after.rules == before.rules.push(
                (before.id->0, before.pattern->0, before.domain, before.severity),
            )
            &&& (forall|i: int| 0 <= i < block.len() ==> severity_capture(#[trigger] block[i]) is None)
                ==> after.severity == Seq::<char>::empty()
            &&& (forall|i: int| 0 <= i < block.len() ==> domain_capture(#[trigger] block[i]) is None)
                ==> after.domain == Seq::<char>::empty()
        }),
    decreases block.len(),
{
    let all = ls.push(id_line) + block;
    if block.len() == 0 {
        assert(all == ls.push(id_line));
        assert(ls.push(id_line).drop_last() == ls);
    } else {
        let rest = block.drop_last();
        assert forall|i: int| 0 <= i < rest.len() implies id_capture(#[trigger] rest[i]) is None by {
            assert(rest[i] == block[i]);
        }
        lemma_kept_rule_starts_over(ls, id_line, rest);
        assert(all.drop_last() == ls.push(id_line) + rest);
        assert(all.last() == block[block.len() - 1]);
        if forall|i: int| 0 <= i < block.len() ==> severity_capture(#[trigger] block[i]) is None {
            assert forall|i: int| 0 <= i < rest.len() implies severity_capture(
                #[trigger] rest[i],
            ) is None by {
                assert(rest[i] == block[i]);
            }
            assert(severity_capture(block[block.len() - 1]) is None);
        }
        if forall|i: int| 0 <= i < block.len() ==> domain_capture(#[trigger] block[i]) is None {
            assert forall|i: int| 0 <= i < rest.len() implies domain_capture(#[trigger] rest[i])
                is None by {
                assert(rest[i] == block[i]);
            }
            assert(domain_capture(block[block.len() - 1]) is None);
        }
        assert(id_capture(block[block.len() - 1]) is None);
    }
}

/// A rule that follows a kept rule and has no severity line of its own
/// is read with an empty severity: the last rule of the file is then its
/// id, its pattern, and `""` for severity.
pub proof fn lemma_rule_without_severity_line(
    text: Seq<char>,
    ls: Seq<Seq<char>>,
    id_line: Seq<char>,
    block: Seq<Seq<char>>,
)
    requires
        lines(text) == ls.push(id_line) + block,
        id_capture(id_line) is Some,
        read_lines(ls).id is Some,
        read_lines(ls).pattern matches Some(p) && regex_compiles(p),
        forall|i: int| 0 <= i < block.len() ==> id_capture(#[trigger] block[i]) is None,
        forall|i: int| 0 <= i < block.len() ==> severity_capture(#[trigger] block[i]) is None,
        read_lines(lines(text)).pattern matches Some(q) && regex_compiles(q),
    ensures
        spec_parse_rules(text).len() == read_lines(ls).rules.len() + 2,
        spec_parse_rules(text).last().0 == id_capture(id_line)->0,
        spec_parse_rules(text).last().1 == read_lines(lines(text)).pattern->0,
        spec_parse_rules(text).last().3 == Seq::<char>::empty(),
{
    lemma_kept_rule_starts_over(ls, id_line, block);
}

proof fn lemma_line_hits_sound(rs: Seq<RuleFields>, line: Seq<char>, line_no: int, upto: int)
    requires
        upto <= rs.len(),
    ensures
        forall|k: int|
            0 <= k < line_hits(rs, line, line_no, upto).len() ==> {
                let h = #[trigger] line_hits(rs, line, line_no, upto)[k];
                &&& 0 <= h.0 < upto
                &&& h.1 == line_no
                &&& regex_is_match(rs[h.0].1, line)
            },
    decreases upto,
{
    if upto > 0 {
        lemma_line_hits_sound(rs, line, line_no, upto - 1);
        let prev = line_hits(rs, line, line_no, upto - 1);
        let extra = if regex_is_match(rs[upto - 1].1, line) {
            seq![(upto - 1, line_no)]
        } else {
            seq![]
        };
        assert forall|k: int| 0 <= k < (prev + extra).len() implies {
            let h = #[trigger] (prev + extra)[k];
            &&& 0 <= h.0 < upto
            &&& h.1 == line_no
            &&& regex_is_match(rs[h.0].1, line)
        } by {
            if k < prev.len() {
                assert((prev + extra)[k] == prev[k]);
            } else {
                assert((prev + extra)[k] == extra[k - prev.len()]);
            }
        }
    }
}

/// Every hit names an existing rule and an existing line, and that
/// rule's pattern matches that line.
pub proof fn lemma_scan_hits_sound(rs: Seq<RuleFields>, ls: Seq<Seq<char>>)
    ensures
        forall|k: int|
            0 <= k < scan_hits(rs, ls).len() ==> {
                let h = #[trigger] scan_hits(rs, ls)[k];
                &&& 0 <= h.0 < rs.len()
                &&& 1 <= h.1 <= ls.len()
                &&& regex_is_match(rs[h.0].1, ls[h.1 - 1])
            },
    decreases ls.len(),
{
    if ls.len() > 0 {
        lemma_scan_hits_sound(rs, ls.drop_last());
        lemma_line_hits_sound(rs, ls.last(), ls.len() as int, rs.len() as int);
        let prev = scan_hits(rs, ls.drop_last());
        let extra = line_hits(rs, ls.last(), ls.len() as int, rs.len() as int);
        assert forall|k: int| 0 <= k < (prev + extra).len() implies {
            let h = #[trigger] (prev + extra)[k];
            &&& 0 <= h.0 < rs.len()
            &&& 1 <= h.1 <= ls.len()
            &&& regex_is_match(rs[h.0].1, ls[h.1 - 1])
        } by {
            if k < prev.len() {
                assert((prev + extra)[k] == prev[k]);
                let h = prev[k];
                assert(ls.drop_last()[h.1 - 1] == ls[h.1 - 1]);
            } else {
                assert((prev + extra)[k] == extra[k - prev.len()]);
                assert(ls.last() == ls[ls.len() - 1]);
            }
        }
    }
}

} // verus!
