//! Numbers as a person reads them.

use crate::text::string_of;
use vstd::prelude::*;

verus! {

/// The character for the digit `d`.
pub open spec fn digit_char(d: int) -> char {
    ((48 + d) as u8) as char
}

/// The decimal digits of `n`, most significant first.
pub open spec fn decimal(n: nat) -> Seq<char>
    decreases n,
{
    if n < 10 {
        seq![digit_char(n as int)]
    } else {
        decimal(n / 10).push(digit_char((n % 10) as int))
    }
}

/// `digits` with a comma before every group of three digits counted from
/// the right: behind a digit stands a comma where the digits that follow
/// it make up whole groups.
pub open spec fn grouped(digits: Seq<char>) -> Seq<char>
    decreases digits.len(),
{
    if digits.len() == 0 {
        Seq::empty()
    } else if digits.len() > 1 && (digits.len() - 1) % 3 == 0 {
        seq![digits[0], ','] + grouped(digits.drop_first())
    } else {
        seq![digits[0]] + grouped(digits.drop_first())
    }
}

/// `n` in decimal with thousands separators.
pub open spec fn with_separators(n: nat) -> Seq<char> {
    grouped(decimal(n))
}

/// A number has at least one digit, and a number below ten exactly one.
pub proof fn lemma_decimal_length(n: nat)
    ensures
        decimal(n).len() >= 1,
        n < 10 ==> decimal(n).len() == 1,
        n >= 10 ==> decimal(n).len() == decimal(n / 10).len() + 1,
    decreases n,
{
    if n >= 10 {
        lemma_decimal_length(n / 10);
    }
}

/// The decimal digits of `n`, most significant first.
pub fn decimal_digits(n: u64) -> (digits: Vec<char>)
    ensures
        digits@ == decimal(n as nat),
{
    let mut digits: Vec<char> = Vec::new();
    let mut rest: u64 = n;
    loop
        invariant_except_break
            decimal(n as nat) == decimal(rest as nat) + digits@,
        ensures
            digits@ == decimal(n as nat),
        decreases rest,
    {
        let d: u8 = (rest % 10) as u8;
        let ghost before = digits@;
        digits.insert(0, (48u8 + d) as char);
        if rest < 10 {
            proof {
                assert(digits@ =~= decimal(rest as nat) + before);
            }
            break ;
        }
        proof {
            assert(decimal(rest as nat) + before =~= decimal((rest / 10) as nat) + digits@);
        }
        rest = rest / 10;
    }
    digits
}

/// `n` in decimal with thousands separators, as in `1,234,567`.
pub fn format_number(n: u64) -> (r: String)
    ensures
        r@ == with_separators(n as nat),
{
    let digits = decimal_digits(n);
    let count = digits.len();
    let mut out: Vec<char> = Vec::new();
    let mut i: usize = 0;
    proof {
        assert(digits@.skip(0) =~= digits@);
    }
    while i < count
        invariant
            i <= count,
            count == digits@.len(),
            out@ + grouped(digits@.skip(i as int)) == grouped(digits@),
        decreases count - i,
    {
        let ghost before = out@;
        let ghost rest = digits@.skip(i as int);
        proof {
            assert(rest.drop_first() =~= digits@.skip(i + 1));
            assert(rest[0] == digits@[i as int]);
        }
        out.push(digits[i]);
        if count - i > 1 && (count - i - 1) % 3 == 0 {
            out.push(',');
            proof {
                assert(out@ + grouped(digits@.skip(i + 1)) =~= before + (seq![rest[0], ',']
                    + grouped(rest.drop_first())));
            }
        } else {
            proof {
                assert(out@ + grouped(digits@.skip(i + 1)) =~= before + (seq![rest[0]] + grouped(
                    rest.drop_first(),
                )));
            }
        }
        i += 1;
    }
    let len = out.len();
    proof {
        assert(grouped(digits@.skip(count as int)) =~= Seq::empty());
        assert(out@ + Seq::<char>::empty() =~= out@);
        assert(out@.subrange(0, len as int) =~= out@);
    }
    string_of(&out, 0, len)
}

} // verus!
