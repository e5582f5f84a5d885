//! Quantities and the shipping-box estimate.
//!
//! A quantity field holds a non-negative decimal integer, optionally
//! preceded by `+`, that fits in 32 bits; anything else is a fatal
//! `InvalidQuantity`.  The box estimate is the total quantity divided by
//! sixty, rounded up.

use vstd::arithmetic::div_mod::lemma_fundamental_div_mod;
use vstd::prelude::*;
use vstd::string::StrSliceExecFns;

use crate::error::PipelineError;

verus! {

/// Whether `c` is a decimal digit.
pub open spec fn is_digit(c: char) -> bool {
    '0' <= c && c <= '9'
}

/// Whether `s` consists of decimal digits only.
pub open spec fn is_digits(s: Seq<char>) -> bool {
    forall|i: int| 0 <= i < s.len() ==> is_digit(#[trigger] s[i])
}

/// The value of `s` read as a decimal numeral.
pub open spec fn dec_val(s: Seq<char>) -> int
    decreases s.len(),
{
    if s.len() == 0 {
        0
    } else {
        dec_val(s.drop_last()) * 10 + (s.last() as int - '0' as int)
    }
}

/// The digits of a quantity field: a single leading `+` is not part of
/// the numeral.
pub open spec fn qty_body(s: Seq<char>) -> Seq<char> {
    if s.len() > 0 && s[0] == '+' {
        s.drop_first()
    } else {
        s
    }
}

/// Whether `s` is a well-formed quantity: a non-empty run of decimal
/// digits after the optional `+`, with a value that fits in 32 bits.
pub open spec fn is_qty_str(s: Seq<char>) -> bool {
    qty_body(s).len() > 0 && is_digits(qty_body(s)) && dec_val(qty_body(s)) <= u32::MAX
}

/// The value of a quantity field.
pub open spec fn qty_val(s: Seq<char>) -> int {
    dec_val(qty_body(s))
}

proof fn lemma_dec_val_nonneg(s: Seq<char>)
    requires
        is_digits(s),
    ensures
        dec_val(s) >= 0,
    decreases s.len(),
{
    if s.len() == 0 {
    } else {
        assert(is_digits(s.drop_last())) by {
            assert(forall|i: int|
                0 <= i < s.drop_last().len() ==> #[trigger] s.drop_last()[i] == s[i]);
        }
        lemma_dec_val_nonneg(s.drop_last());
        assert(is_digit(s.last()));
    }
}

proof fn lemma_dec_val_prefix(s: Seq<char>, k: int)
    requires
        is_digits(s),
        0 <= k <= s.len(),
    ensures
        dec_val(s.take(k)) <= dec_val(s),
    decreases s.len() - k,
{
    if k == s.len() {
        assert(s.take(k) =~= s);
    } else {
        let p = s.take(k + 1);
        assert(p.drop_last() =~= s.take(k));
        assert(p.last() == s[k]);
        assert(is_digits(s.take(k))) by {
            assert(forall|i: int| 0 <= i < k ==> #[trigger] s.take(k)[i] == s[i]);
        }
        lemma_dec_val_nonneg(s.take(k));
        assert(dec_val(s.take(k)) * 10 >= dec_val(s.take(k)) * 1) by (nonlinear_arith)
            requires
                dec_val(s.take(k)) >= 0,
        ;
        assert(is_digit(s[k]));
        assert(dec_val(s.take(k)) <= dec_val(p));
        lemma_dec_val_prefix(s, k + 1);
    }
}

/// A well-formed quantity has a non-negative value that fits in 32 bits.
pub proof fn lemma_qty_val_in_range(s: Seq<char>)
    requires
        is_qty_str(s),
    ensures
        0 <= qty_val(s) <= u32::MAX,
{
    lemma_dec_val_nonneg(qty_body(s));
}

/// Reads a quantity field.  Returns the value exactly when the field is a
/// well-formed quantity, and `InvalidQuantity` otherwise.
pub fn parse_qty(s: &str) -> (r: Result<u32, PipelineError>)
    ensures
        r is Ok <==> is_qty_str(s@),
        r matches Ok(v) ==> v as int == qty_val(s@),
        r is Err ==> r == Err::<u32, PipelineError>(PipelineError::InvalidQuantity),
{
    let len: usize = s.unicode_len();
    let start: usize = if len > 0 && s.get_char(0) == '+' {
        1
    } else {
        0
    };
    let ghost body: Seq<char> = qty_body(s@);
    proof {
        assert(body =~= s@.skip(start as int));
    }
    if start == len {
        return Err(PipelineError::InvalidQuantity);
    }
    let mut v: u64 = 0;
    let mut i: usize = start;
    while i < len
        invariant
            start <= i <= len,
            start < len,
            len == s@.len(),
            body == s@.skip(start as int),
            body == qty_body(s@),
            forall|j: int| start <= j < i ==> is_digit(#[trigger] s@[j]),
            v <= u32::MAX,
            v as int == dec_val(s@.subrange(start as int, i as int)),
        decreases len - i,
    {
        let c: char = s.get_char(i);
        if !(c >= '0' && c <= '9') {
            proof {
                assert(body[i - start as int] == s@[i as int]);
                assert(!is_digits(body));
            }
            return Err(PipelineError::InvalidQuantity);
        }
        let d: u64 = (c as u32 as u64) - ('0' as u32 as u64);
        proof {
            assert(s@.subrange(start as int, i as int + 1).drop_last() =~= s@.subrange(
                start as int,
                i as int,
            ));
            assert(s@.subrange(start as int, i as int + 1).last() == s@[i as int]);
        }
        let next: u64 = v * 10 + d;
        if next > u32::MAX as u64 {
            proof {
                if is_qty_str(s@) {
                    assert(body.take(i as int + 1 - start) =~= s@.subrange(
                        start as int,
                        i as int + 1,
                    ));
                    lemma_dec_val_prefix(body, i as int + 1 - start);
                }
            }
            return Err(PipelineError::InvalidQuantity);
        }
        v = next;
        i = i + 1;
    }
    proof {
        assert(s@.subrange(start as int, len as int) =~= body);
        assert(forall|j: int| 0 <= j < body.len() ==> is_digit(#[trigger] body[j]));
    }
    Ok(v as u32)
}

/// The literal `0` that the writer forces into a tagged row's quantity is
/// itself a well-formed quantity of value zero.
pub proof fn lemma_zero_qty()
    ensures
        is_qty_str(seq!['0']),
        qty_val(seq!['0']) == 0,
{
    let s = seq!['0'];
    assert(s.len() == 1 && s[0] == '0');
    assert(qty_body(s) == s);
    assert(s.drop_last() =~= Seq::<char>::empty());
    assert(dec_val(Seq::<char>::empty()) == 0);
    assert(s.last() == '0');
    assert(dec_val(s) == 0 * 10 + ('0' as int - '0' as int));
    assert(is_digit(s[0]));
}

/// The shipping-box estimate for a total quantity: the total divided by
/// sixty, rounded up.
pub open spec fn box_estimate(total: int) -> int {
    (total + 59) / 60
}

/// The box estimate is the exact ceiling of `total / 60`: it covers the
/// total, no smaller count does, and a total of zero needs no box.
pub proof fn lemma_box_estimate_is_ceiling(total: int)
    requires
        total >= 0,
    ensures
        box_estimate(total) >= 0,
        60 * box_estimate(total) >= total,
        total > 0 ==> 60 * (box_estimate(total) - 1) < total,
        total == 0 ==> box_estimate(total) == 0,
{
    lemma_fundamental_div_mod(total + 59, 60);
}

} // verus!
