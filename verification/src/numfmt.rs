//! Decimal rendering of integers.

use vstd::prelude::*;
use crate::text::{slice_chars, string_of};

verus! {

/// The decimal digit characters.
pub open spec fn decimal_digits() -> Seq<char> {
    seq!['0', '1', '2', '3', '4', '5', '6', '7', '8', '9']
}

/// The decimal representation of `n`, without leading zeros.
pub open spec fn decimal(n: nat) -> Seq<char>
    decreases n,
{
    if n < 10 {
        seq![decimal_digits()[n as int]]
    } else {
        decimal(n / 10).push(decimal_digits()[(n % 10) as int])
    }
}

fn digit_char(d: u64) -> (c: char)
    requires
        d < 10,
    ensures
        c == decimal_digits()[d as int],
{
    match d {
        0 => '0',
        1 => '1',
        2 => '2',
        3 => '3',
        4 => '4',
        5 => '5',
        6 => '6',
        7 => '7',
        8 => '8',
        _ => '9',
    }
}

/// The decimal digits of `n`.
pub fn decimal_chars(n: u64) -> (r: Vec<char>)
    ensures
        r@ == decimal(n as nat),
    decreases n,
{
    if n < 10 {
        vec![digit_char(n)]
    } else {
        let mut r = decimal_chars(n / 10);
        r.push(digit_char(n % 10));
        r
    }
}

/// The decimal representation of `n` as a string.
pub fn decimal_string(n: u64) -> (r: String)
    ensures
        r@ == decimal(n as nat),
{
    string_of(&decimal_chars(n))
}

/// Digits with a `,` between each group of three, counted from the right.
pub open spec fn group_thousands(d: Seq<char>) -> Seq<char>
    decreases d.len(),
{
    if d.len() <= 3 {
        d
    } else {
        group_thousands(d.take(d.len() - 3)) + seq![','] + d.skip(d.len() - 3)
    }
}

/// `n` in decimal with thousands separators, as in `1,234,567`.
pub open spec fn spec_format_number(n: u64) -> Seq<char> {
    group_thousands(decimal(n as nat))
}

proof fn lemma_decimal_len(n: nat)
    ensures
        decimal(n).len() >= 1,
    decreases n,
{
    if n >= 10 {
        lemma_decimal_len(n / 10);
    }
}

/// Format a number with thousands separators: `1234567` gives `1,234,567`.
pub fn format_number(n: u64) -> (r: String)
    ensures
        r@ == spec_format_number(n),
        r@.len() > 0,
        forall|i: int| 0 <= i < r@.len() ==> (#[trigger] r@[i] == ',' <==> (i > 0 && (r@.len() - i) % 4 == 0)),
        strip_commas(r@) == decimal(n as nat),
{
    proof {
        lemma_format_number_commas(n);
        lemma_format_number_digits(n);
    }
    let d = decimal_chars(n);
    proof {
        lemma_decimal_len(n as nat);
    }
    let len = d.len();
    let first = if len % 3 == 0 {
        3
    } else {
        len % 3
    };
    let mut out = slice_chars(&d, 0, first);
    assert(d@.subrange(0, first as int) == d@.take(first as int));
    let mut i = first;
    while i < len
        invariant
            len == d@.len(),
            1 <= first <= i <= len,
            (len - i) % 3 == 0,
            out@ == group_thousands(d@.take(i as int)),
        decreases len - i,
    {
        assert(i + 3 <= len);
        let ghost prev = out@;
        out.push(',');
        out.push(d[i]);
        out.push(d[i + 1]);
        out.push(d[i + 2]);
        let ghost t = d@.take(i + 3);
        assert(t.take(t.len() - 3) == d@.take(i as int));
        assert(t.skip(t.len() - 3) == seq![d@[i as int], d@[i + 1], d@[i + 2]]);
        assert(out@ == prev + seq![','] + seq![d@[i as int], d@[i + 1], d@[i + 2]]);
        assert(group_thousands(t) == group_thousands(t.take(t.len() - 3)) + seq![','] + t.skip(
            t.len() - 3,
        ));
        i = i + 3;
    }
    assert(d@.take(len as int) == d@);
    string_of(&out)
}

/// `s` with its commas removed.
pub open spec fn strip_commas(s: Seq<char>) -> Seq<char>
    decreases s.len(),
{
    if s.len() == 0 {
        s
    } else if s[0] == ',' {
        strip_commas(s.drop_first())
    } else {
        seq![s[0]] + strip_commas(s.drop_first())
    }
}

proof fn lemma_strip_concat(a: Seq<char>, b: Seq<char>)
    ensures
        strip_commas(a + b) == strip_commas(a) + strip_commas(b),
    decreases a.len(),
{
    if a.len() > 0 {
        lemma_strip_concat(a.drop_first(), b);
        assert((a + b).drop_first() == a.drop_first() + b);
        assert((a + b)[0] == a[0]);
    } else {
        assert(a + b == b);
    }
}

proof fn lemma_strip_no_comma(d: Seq<char>)
    requires
        forall|i: int| 0 <= i < d.len() ==> #[trigger] d[i] != ',',
    ensures
        strip_commas(d) == d,
    decreases d.len(),
{
    if d.len() > 0 {
        assert(d[0] != ',');
        lemma_strip_no_comma(d.drop_first());
        assert(seq![d[0]] + d.drop_first() == d);
    }
}

/// Digits hold no comma.
proof fn lemma_decimal_no_comma(n: nat)
    ensures
        forall|i: int| 0 <= i < decimal(n).len() ==> #[trigger] decimal(n)[i] != ',',
    decreases n,
{
    if n >= 10 {
        lemma_decimal_no_comma(n / 10);
        let p = decimal(n / 10);
        assert forall|i: int| 0 <= i < decimal(n).len() implies #[trigger] decimal(n)[i]
            != ',' by {
            if i < p.len() {
                assert(decimal(n)[i] == p[i]);
            }
        }
    }
}

proof fn lemma_group_strip(d: Seq<char>)
    requires
        forall|i: int| 0 <= i < d.len() ==> #[trigger] d[i] != ',',
    ensures
        strip_commas(group_thousands(d)) == d,
    decreases d.len(),
{
    if d.len() <= 3 {
        lemma_strip_no_comma(d);
    } else {
        let a = d.take(d.len() - 3);
        let b = d.skip(d.len() - 3);
        assert forall|i: int| 0 <= i < a.len() implies #[trigger] a[i] != ',' by {
            assert(a[i] == d[i]);
        }
        assert forall|i: int| 0 <= i < b.len() implies #[trigger] b[i] != ',' by {
            assert(b[i] == d[i + d.len() - 3]);
        }
        lemma_group_strip(a);
        let g = group_thousands(a);
        lemma_strip_concat(g + seq![','], b);
        lemma_strip_concat(g, seq![',']);
        assert(strip_commas(seq![',']) == Seq::<char>::empty()) by {
            assert(seq![','].drop_first() =~= Seq::<char>::empty());
            reveal_with_fuel(strip_commas, 2);
        }
        lemma_strip_no_comma(b);
        assert(a + b == d);
    }
}

/// Removing the separators from `format_number(n)` gives the plain
/// decimal representation of `n`.
pub proof fn lemma_format_number_digits(n: u64)
    ensures
        strip_commas(spec_format_number(n)) == decimal(n as nat),
{
    lemma_decimal_no_comma(n as nat);
    lemma_group_strip(decimal(n as nat));
}

proof fn lemma_group_commas(d: Seq<char>)
    requires
        d.len() >= 1,
        forall|i: int| 0 <= i < d.len() ==> #[trigger] d[i] != ',',
    ensures
        group_thousands(d).len() >= 1,
        forall|i: int|
            0 <= i < group_thousands(d).len() ==> (#[trigger] group_thousands(d)[i] == ',' <==> (i
                > 0 && (group_thousands(d).len() - i) % 4 == 0)),
    decreases d.len(),
{
    if d.len() > 3 {
        let a = d.take(d.len() - 3);
        let b = d.skip(d.len() - 3);
        assert forall|i: int| 0 <= i < a.len() implies #[trigger] a[i] != ',' by {
            assert(a[i] == d[i]);
        }
        lemma_group_commas(a);
        let h = group_thousands(a);
        let g = h + seq![','] + b;
        assert(group_thousands(d) == g);
        assert forall|i: int| 0 <= i < g.len() implies (#[trigger] g[i] == ',' <==> (i > 0 && (
        g.len() - i) % 4 == 0)) by {
            if i < h.len() {
                assert(g[i] == h[i]);
                assert((g.len() - i) % 4 == (h.len() - i) % 4);
            } else if i == h.len() {
                assert(g[i] == ',');
            } else {
                assert(g[i] == b[i - h.len() - 1]);
                assert(b[i - h.len() - 1] == d[d.len() - 3 + i - h.len() - 1]);
            }
        }
    }
}

/// The separators stand exactly where a new group of three digits,
/// counted from the right, begins: never first, and every fourth
/// character from the end. So the first group has one to three digits
/// and every later one exactly three.
pub proof fn lemma_format_number_commas(n: u64)
    ensures
        spec_format_number(n).len() > 0,
        forall|i: int|
            0 <= i < spec_format_number(n).len() ==> (#[trigger] spec_format_number(n)[i] == ','
                <==> (i > 0 && (spec_format_number(n).len() - i) % 4 == 0)),
{
    lemma_decimal_len(n as nat);
    lemma_decimal_no_comma(n as nat);
    lemma_group_commas(decimal(n as nat));
}

/// Below one thousand no separator is written.
pub proof fn lemma_format_number_small(n: u64)
    requires
        n < 1000,
    ensures
        spec_format_number(n) == decimal(n as nat),
{
    lemma_decimal_len_bound(n as nat);
}

proof fn lemma_decimal_len_bound(n: nat)
    ensures
        n < 10 ==> decimal(n).len() == 1,
        n < 100 ==> decimal(n).len() <= 2,
        n < 1000 ==> decimal(n).len() <= 3,
    decreases n,
{
    if n >= 10 {
        lemma_decimal_len_bound(n / 10);
    }
}

} // verus!
