use vstd::prelude::*;
use crate::lexer::is_digit;

verus! {

pub open spec fn digit_value(c: char) -> nat {
    (c as u32 - '0' as u32) as nat
}

/// The number that a run of decimal digits writes.
pub open spec fn digits_val(t: Seq<char>) -> nat
    decreases t.len(),
{
    if t.len() == 0 {
        0
    } else {
        digits_val(t.drop_last()) * 10 + digit_value(t.last())
    }
}

/// A run of digits is worth at least as much as any of its prefixes.
pub proof fn lemma_digits_val_prefix(t: Seq<char>, k: int)
    requires
        0 <= k <= t.len(),
    ensures
        digits_val(t.subrange(0, k)) <= digits_val(t),
    decreases t.len(),
{
    if k < t.len() {
        lemma_digits_val_prefix(t.drop_last(), k);
        assert(t.drop_last().subrange(0, k) =~= t.subrange(0, k));
    } else {
        assert(t.subrange(0, k) =~= t);
    }
}

/// The value of the digits `s[start..end]`, where it is at most `max`.
pub fn parse_bounded(s: &Vec<char>, start: usize, end: usize, max: u64) -> (r: Option<u64>)
    requires
        start <= end <= s@.len(),
        forall|k: int| start <= k < end ==> is_digit(#[trigger] s@[k]),
    ensures
        match r {
            Some(v) => v as nat == digits_val(s@.subrange(start as int, end as int)) && v <= max,
            None => digits_val(s@.subrange(start as int, end as int)) > max,
        },
{
    let mut acc: u64 = 0;
    let mut i: usize = start;
    while i < end
        invariant
            start <= i <= end <= s@.len(),
            forall|k: int| start <= k < end ==> is_digit(#[trigger] s@[k]),
            acc as nat == digits_val(s@.subrange(start as int, i as int)),
            acc <= max,
        decreases end - i,
    {
        let c = s[i];
        let d = (c as u32 - '0' as u32) as u64;
        let next: u128 = acc as u128 * 10 + d as u128;
        proof {
            let t = s@.subrange(start as int, (i + 1) as int);
            assert(t.drop_last() =~= s@.subrange(start as int, i as int));
            assert(digits_val(t) == acc * 10 + d);
        }
        if next > max as u128 {
            proof {
                let whole = s@.subrange(start as int, end as int);
                lemma_digits_val_prefix(whole, i + 1 - start);
                assert(whole.subrange(0, i + 1 - start) =~= s@.subrange(start as int, (i + 1) as int));
            }
            return None;
        }
        acc = next as u64;
        i = i + 1;
    }
    Some(acc)
}

} // verus!
