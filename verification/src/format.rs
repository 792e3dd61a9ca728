//! Number formatting for display.

use vstd::prelude::*;

use crate::decimal::{decimal_digits, push_decimal, signed_decimal};
use crate::text::string_from_chars;

verus! {

/// Digits grouped in threes from the right, separated by commas.
pub open spec fn group_thousands(d: Seq<char>) -> Seq<char>
    decreases d.len(),
{
    if d.len() <= 3 {
        d
    } else {
        group_thousands(d.take(d.len() - 3)) + seq![','] + d.skip(d.len() - 3)
    }
}

/// An integer with thousands separators, and a leading '-' when negative.
pub open spec fn spec_format_num(n: int) -> Seq<char> {
    let g = group_thousands(decimal_digits(if n < 0 { (-n) as nat } else { n as nat }));
    if n < 0 {
        seq!['-'] + g
    } else {
        g
    }
}

fn push_grouped(out: &mut Vec<char>, d: &Vec<char>, end: usize)
    requires
        end <= d@.len(),
    ensures
        final(out)@ == old(out)@ + group_thousands(d@.take(end as int)),
    decreases end,
{
    let ghost t = d@.take(end as int);
    if end <= 3 {
        let mut j: usize = 0;
        while j < end
            invariant
                j <= end <= d@.len(),
                out@ == old(out)@ + d@.take(j as int),
            decreases end - j,
        {
            out.push(d[j]);
            j = j + 1;
            assert(out@ =~= old(out)@ + d@.take(j as int));
        }
        assert(d@.take(end as int) == t);
    } else {
        push_grouped(out, d, end - 3);
        out.push(',');
        let ghost mid = out@;
        let lo: usize = end - 3;
        let mut j: usize = lo;
        while j < end
            invariant
                lo <= j <= end <= d@.len(),
                lo == end - 3,
                out@ == mid + d@.subrange(lo as int, j as int),
            decreases end - j,
        {
            out.push(d[j]);
            j = j + 1;
            assert(out@ =~= mid + d@.subrange(lo as int, j as int));
        }
        assert(t.take(t.len() - 3) == d@.take(end - 3));
        assert(t.skip(t.len() - 3) == d@.subrange(end - 3, end as int));
        assert(out@ =~= old(out)@ + group_thousands(t));
    }
}

/// Formats an integer with thousands separators (1234567 becomes "1,234,567").
pub fn format_num(n: i64) -> (s: String)
    requires
        n != i64::MIN,
    ensures
        s@ == spec_format_num(n as int),
{
    let mag: u64 = if n < 0 {
        (-n) as u64
    } else {
        n as u64
    };
    let mut digits: Vec<char> = Vec::new();
    push_decimal(&mut digits, mag);
    assert(digits@ == decimal_digits(mag as nat));
    let mut out: Vec<char> = Vec::new();
    if n < 0 {
        out.push('-');
    }
    push_grouped(&mut out, &digits, digits.len());
    assert(digits@.take(digits@.len() as int) == digits@);
    string_from_chars(out.as_slice())
}

/// `s` without its commas.
pub open spec fn strip_commas(s: Seq<char>) -> Seq<char>
    decreases s.len(),
{
    if s.len() == 0 {
        Seq::empty()
    } else {
        let r = strip_commas(s.drop_last());
        if s.last() == ',' {
            r
        } else {
            r.push(s.last())
        }
    }
}

proof fn lemma_strip_concat(a: Seq<char>, b: Seq<char>)
    ensures
        strip_commas(a + b) == strip_commas(a) + strip_commas(b),
    decreases b.len(),
{
    if b.len() == 0 {
        assert(a + b == a);
    } else {
        lemma_strip_concat(a, b.drop_last());
        assert((a + b).drop_last() == a + b.drop_last());
        assert((a + b).last() == b.last());
    }
}

proof fn lemma_strip_plain(s: Seq<char>)
    requires
        forall|i: int| 0 <= i < s.len() ==> #[trigger] s[i] != ',',
    ensures
        strip_commas(s) == s,
    decreases s.len(),
{
    if s.len() > 0 {
        lemma_strip_plain(s.drop_last());
        assert(s.drop_last().push(s.last()) == s);
    } else {
        assert(s == Seq::<char>::empty());
    }
}

proof fn lemma_strip_grouped(d: Seq<char>)
    requires
        forall|i: int| 0 <= i < d.len() ==> #[trigger] d[i] != ',',
    ensures
        strip_commas(group_thousands(d)) == d,
    decreases d.len(),
{
    if d.len() <= 3 {
        lemma_strip_plain(d);
    } else {
        let a = d.take(d.len() - 3);
        let b = d.skip(d.len() - 3);
        assert forall|i: int| 0 <= i < a.len() implies #[trigger] a[i] != ',' by {
            assert(a[i] == d[i]);
        }
        assert forall|i: int| 0 <= i < b.len() implies #[trigger] b[i] != ',' by {
            assert(b[i] == d[d.len() - 3 + i]);
        }
        lemma_strip_grouped(a);
        lemma_strip_plain(b);
        lemma_strip_concat(group_thousands(a) + seq![','], b);
        lemma_strip_concat(group_thousands(a), seq![',']);
        assert(strip_commas(seq![',']) == Seq::<char>::empty()) by {
            reveal_with_fuel(strip_commas, 2);
            assert(seq![','].drop_last() == Seq::<char>::empty());
        }
        assert(a + b == d);
    }
}

/// Law: the separators are all that formatting adds: without its commas, a
/// formatted number is its plain decimal rendering.
pub proof fn lemma_format_num_digits(n: int)
    ensures
        strip_commas(spec_format_num(n)) == signed_decimal(n),
{
    let m: nat = if n < 0 { (-n) as nat } else { n as nat };
    let d = decimal_digits(m);
    crate::decimal::lemma_decimal_digits_all_digits(m);
    assert forall|i: int| 0 <= i < d.len() implies #[trigger] d[i] != ',' by {
        assert(crate::decimal::is_digit(d[i]));
    }
    lemma_strip_grouped(d);
    if n < 0 {
        lemma_strip_concat(seq!['-'], group_thousands(d));
        assert(strip_commas(seq!['-']) == seq!['-']) by {
            reveal_with_fuel(strip_commas, 2);
            assert(seq!['-'].drop_last() == Seq::<char>::empty());
            assert(Seq::<char>::empty().push('-') =~= seq!['-']);
        }
    }
}

} // verus!
