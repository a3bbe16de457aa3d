use vstd::prelude::*;

verus! {

/// The ASCII byte of a decimal digit.
pub open spec fn digit_byte(d: nat) -> u8
    recommends
        d < 10,
{
    (48 + d) as u8
}

/// The decimal notation of `n`, most significant digit first, without
/// leading zeros.
pub open spec fn decimal(n: nat) -> Seq<u8>
    decreases n,
{
    if n < 10 {
        seq![digit_byte(n)]
    } else {
        decimal(n / 10).push(digit_byte(n % 10))
    }
}

/// How many times `b` occurs in `s`.
pub open spec fn count(s: Seq<u8>, b: u8) -> nat
    decreases s.len(),
{
    if s.len() == 0 {
        0
    } else {
        count(s.drop_last(), b) + if s.last() == b { 1nat } else { 0nat }
    }
}

/// Counting distributes over concatenation.
pub proof fn lemma_count_concat(a: Seq<u8>, b: Seq<u8>, x: u8)
    ensures
        count(a + b, x) == count(a, x) + count(b, x),
    decreases b.len(),
{
    if b.len() > 0 {
        assert((a + b).drop_last() =~= a + b.drop_last());
        lemma_count_concat(a, b.drop_last(), x);
    } else {
        assert(a + b =~= a);
    }
}

/// The count in a short literal sequence, spelled out element by element.
pub proof fn lemma_count_single(y: u8, x: u8)
    ensures
        count(seq![y], x) == if y == x { 1nat } else { 0nat },
{
    assert(seq![y].drop_last() =~= Seq::<u8>::empty());
    assert(count(Seq::<u8>::empty(), x) == 0);
    assert(seq![y].last() == y);
}

/// Decimal notation holds digits only: no space and no line break.
pub proof fn lemma_decimal_digits_only(n: nat)
    ensures
        count(decimal(n), 32) == 0,
        count(decimal(n), 10) == 0,
    decreases n,
{
    if n < 10 {
        lemma_count_single(digit_byte(n), 32);
        lemma_count_single(digit_byte(n), 10);
    } else {
        lemma_decimal_digits_only(n / 10);
        assert(decimal(n).drop_last() =~= decimal(n / 10));
    }
}

/// Appends the decimal notation of `n` to `out`.
pub fn push_decimal(out: &mut Vec<u8>, n: u64)
    ensures
        final(out)@ == old(out)@ + decimal(n as nat),
    decreases n,
{
    if n >= 10 {
        push_decimal(out, n / 10);
    }
    let d: u8 = (n % 10) as u8;
    out.push(48 + d);
    assert(final(out)@ =~= old(out)@ + decimal(n as nat));
}

} // verus!
