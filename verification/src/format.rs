//! Number display helpers.

use vstd::prelude::*;

use crate::text::{decimal, decimal_chars, digit, digit_char, push_char, push_chars};

verus! {

/// Three digits, zero-padded: the low group of a grouped number.
pub open spec fn pad3(n: nat) -> Seq<char> {
    seq![digit_char(n / 100), digit_char((n / 10) % 10), digit_char(n % 10)]
}

/// The decimal digits of `n` in groups of three separated by commas.
pub open spec fn grouped(n: nat) -> Seq<char>
    decreases n,
{
    if n < 1000 {
        decimal(n)
    } else {
        grouped(n / 1000) + seq![','] + pad3(n % 1000)
    }
}

/// A signed integer with thousands separators: "1,234,567" / "-5,000".
pub open spec fn thousands(n: int) -> Seq<char> {
    if n < 0 {
        seq!['-'] + grouped((-n) as nat)
    } else {
        grouped(n as nat)
    }
}

/// 1234567 → "1,234,567".
pub fn group_thousands(n: i64) -> (s: String)
    requires
        n != i64::MIN,
    ensures
        s@ == thousands(n as int),
{
    let neg = n < 0;
    let a: u64 = if neg {
        (-n) as u64
    } else {
        n as u64
    };
    let mut m = a;
    let mut acc: Vec<char> = Vec::new();
    while m >= 1000
        invariant
            grouped(a as nat) == grouped(m as nat) + acc@,
        decreases m,
    {
        let r = m % 1000;
        let ghost before = acc@;
        acc.insert(0, digit(r % 10));
        acc.insert(0, digit((r / 10) % 10));
        acc.insert(0, digit(r / 100));
        acc.insert(0, ',');
        proof {
            assert(acc@ =~= seq![','] + pad3(r as nat) + before);
            assert(grouped(m as nat) == grouped((m / 1000) as nat) + seq![','] + pad3(r as nat));
            assert(grouped((m / 1000) as nat) + acc@ =~= grouped(m as nat) + before);
        }
        m = m / 1000;
    }
    let head = decimal_chars(m);
    let mut s = String::new();
    if neg {
        push_char(&mut s, '-');
    }
    push_chars(&mut s, &head);
    push_chars(&mut s, &acc);
    proof {
        if neg {
            assert(s@ =~= seq!['-'] + (head@ + acc@));
        } else {
            assert(s@ =~= head@ + acc@);
        }
    }
    s
}

proof fn lemma_decimal_splits(q: nat, r: nat)
    requires
        q >= 1,
        r < 1000,
    ensures
        decimal(q * 1000 + r) == decimal(q) + pad3(r),
{
    let n = q * 1000 + r;
    assert(n / 10 == q * 100 + r / 10 && n % 10 == r % 10) by (nonlinear_arith)
        requires
            n == q * 1000 + r,
            r < 1000,
    ;
    assert((q * 100 + r / 10) / 10 == q * 10 + r / 100 && (q * 100 + r / 10) % 10 == (r / 10) % 10)
        by (nonlinear_arith)
        requires
            r < 1000,
    ;
    assert((q * 10 + r / 100) / 10 == q && (q * 10 + r / 100) % 10 == r / 100) by (nonlinear_arith)
        requires
            r < 1000,
    ;
    assert(decimal(n) == decimal(n / 10).push(digit_char(n % 10)));
    assert(decimal(q * 100 + r / 10) == decimal(q * 10 + r / 100).push(digit_char((r / 10) % 10)));
    assert(decimal(q * 10 + r / 100) == decimal(q).push(digit_char(r / 100)));
    assert(decimal(n) =~= decimal(q) + pad3(r));
}

proof fn lemma_drop_commas_of_digits(s: Seq<char>, p: spec_fn(char) -> bool)
    requires
        forall|i: int| 0 <= i < s.len() ==> p(#[trigger] s[i]),
    ensures
        s.filter(p) == s,
    decreases s.len(),
{
    reveal(Seq::filter);
    if s.len() > 0 {
        lemma_drop_commas_of_digits(s.drop_last(), p);
        assert(s.drop_last().push(s.last()) =~= s);
    }
}

proof fn lemma_decimal_has_no_commas(n: nat)
    ensures
        forall|i: int| 0 <= i < decimal(n).len() ==> #[trigger] decimal(n)[i] != ',',
    decreases n,
{
    if n >= 10 {
        lemma_decimal_has_no_commas(n / 10);
        assert forall|i: int| 0 <= i < decimal(n).len() implies #[trigger] decimal(n)[i] != ',' by {
            if i < decimal(n / 10).len() {
                assert(decimal(n)[i] == decimal(n / 10)[i]);
            }
        }
    }
}

/// Grouping only adds separators: dropping the commas from a grouped number
/// gives back its plain decimal digits.
pub proof fn law_grouping_keeps_the_digits(n: nat)
    ensures
        grouped(n).filter(|c: char| c != ',') == decimal(n),
    decreases n,
{
    let p = |c: char| c != ',';
    if n < 1000 {
        lemma_decimal_has_no_commas(n);
        lemma_drop_commas_of_digits(decimal(n), p);
    } else {
        let q = n / 1000;
        let r = n % 1000;
        law_grouping_keeps_the_digits(q);
        Seq::filter_distributes_over_add(grouped(q) + seq![','], pad3(r), p);
        Seq::filter_distributes_over_add(grouped(q), seq![','], p);

        lemma_drop_commas_of_digits(pad3(r), p);
        assert(seq![','].filter(p) =~= Seq::<char>::empty()) by {
            reveal(Seq::filter);
            assert(seq![','].drop_last() =~= Seq::<char>::empty());
            assert(Seq::<char>::empty().filter(p) =~= Seq::<char>::empty());
        }
        assert(grouped(n).filter(p) == grouped(q).filter(p) + seq![','].filter(p) + pad3(r).filter(
            p,
        ));
        lemma_decimal_splits(q, r);
        assert(n == q * 1000 + r);
        assert(grouped(n).filter(p) =~= decimal(n));
    }
}

proof fn lemma_decimal_leads_with_a_digit(n: nat)
    ensures
        decimal(n).len() > 0,
        decimal(n)[0] != '-',
        decimal(n)[0] != ',',
        (decimal(n)[0] == '0') <==> n == 0,
    decreases n,
{
    if n >= 10 {
        lemma_decimal_leads_with_a_digit(n / 10);
        assert(decimal(n)[0] == decimal(n / 10)[0]);
    }
}

proof fn lemma_grouped_leads_with_a_digit(n: nat)
    ensures
        grouped(n).len() > 0,
        grouped(n)[0] != '-',
        grouped(n)[0] != ',',
        (grouped(n)[0] == '0') <==> n == 0,
    decreases n,
{
    if n < 1000 {
        lemma_decimal_leads_with_a_digit(n);
    } else {
        lemma_grouped_leads_with_a_digit(n / 1000);
        assert((grouped(n / 1000) + seq![','] + pad3(n % 1000))[0] == grouped(n / 1000)[0]);
    }
}

/// A grouped number carries a minus sign exactly when it is negative, and
/// otherwise opens with its leading digit — never a separator, and never a
/// padding zero unless the number is zero.
pub proof fn law_grouping_signs_and_leads(n: int)
    ensures
        thousands(n).len() > 0,
        (thousands(n)[0] == '-') <==> n < 0,
        n < 0 ==> thousands(n).drop_first() == grouped((-n) as nat),
        thousands(n)[0] != ',',
        (thousands(n)[0] == '0') <==> n == 0,
{
    if n < 0 {
        lemma_grouped_leads_with_a_digit((-n) as nat);
        assert((seq!['-'] + grouped((-n) as nat)).drop_first() =~= grouped((-n) as nat));
    } else {
        lemma_grouped_leads_with_a_digit(n as nat);
    }
}

proof fn lemma_short_decimal_len(n: nat)
    requires
        n < 1000,
    ensures
        1 <= decimal(n).len() <= 3,
{
    if n >= 10 {
        assert(decimal(n).len() == decimal(n / 10).len() + 1);
        if n / 10 >= 10 {
            assert(decimal(n / 10).len() == decimal(n / 100).len() + 1);
            assert(n / 10 / 10 == n / 100);
            assert(decimal(n / 100).len() == 1);
        }
    }
}

/// Grouping puts a comma before every third digit from the right and nowhere
/// else: the commas stand exactly where a multiple of four characters remain,
/// so the first group holds one to three digits and every later group three.
pub proof fn law_grouping_shapes_the_groups(n: nat)
    ensures
        grouped(n).len() % 4 != 0,
        forall|i: int|
            0 <= i < grouped(n).len() ==> ((#[trigger] grouped(n)[i] == ',') <==> (grouped(n).len()
                - i) % 4 == 0),
    decreases n,
{
    if n < 1000 {
        lemma_short_decimal_len(n);
        lemma_decimal_has_no_commas(n);
    } else {
        let q = n / 1000;
        let r = n % 1000;
        law_grouping_shapes_the_groups(q);
        let gq = grouped(q);
        let g = grouped(n);
        assert(g == gq + seq![','] + pad3(r));
        assert(g.len() == gq.len() + 4);
        assert forall|i: int| 0 <= i < g.len() implies ((#[trigger] g[i] == ',') <==> (g.len() - i)
            % 4 == 0) by {
            if i < gq.len() {
                assert(g[i] == gq[i]);
                assert((g.len() - i) % 4 == (gq.len() - i) % 4);
            } else if i > gq.len() {
                let d: nat = if i == gq.len() + 1 {
                    r / 100
                } else if i == gq.len() + 2 {
                    (r / 10) % 10
                } else {
                    r % 10
                };
                assert(g[i] == digit_char(d));
                assert(d < 10);
                assert(1 <= g.len() - i <= 3);
            }
        }
    }
}

} // verus!
