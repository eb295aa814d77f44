//! A count that cannot overflow.
//!
//! A walk renders one entry after another and nothing bounds how many, so
//! the two running counts are kept as decimal digits. A count is only ever
//! raised by one and written out, and both are simple on digits.

use crate::text::string_of;
use vstd::prelude::*;

verus! {

/// The number that decimal digits stand for, the lowest digit first.
pub open spec fn digits_value(digits: Seq<u8>) -> nat
    decreases digits.len(),
{
    if digits.len() == 0 {
        0
    } else {
        digits.first() as nat + 10 * digits_value(digits.drop_first())
    }
}

/// Digits as a count holds them: each below ten, and no zero in the highest
/// place, so that every number has one form only (zero has no digit).
pub open spec fn canonical(digits: Seq<u8>) -> bool {
    &&& forall|k: int| 0 <= k < digits.len() ==> digits[k] < 10
    &&& digits.len() > 0 ==> digits.last() != 0
}

/// The digits of the next number.
pub open spec fn bumped(digits: Seq<u8>) -> Seq<u8>
    decreases digits.len(),
{
    if digits.len() == 0 {
        seq![1u8]
    } else if digits.first() == 9 {
        seq![0u8] + bumped(digits.drop_first())
    } else {
        seq![(digits.first() + 1) as u8] + digits.drop_first()
    }
}

/// The character of a decimal digit.
pub open spec fn digit_char(digit: nat) -> char {
    if digit == 0 {
        '0'
    } else if digit == 1 {
        '1'
    } else if digit == 2 {
        '2'
    } else if digit == 3 {
        '3'
    } else if digit == 4 {
        '4'
    } else if digit == 5 {
        '5'
    } else if digit == 6 {
        '6'
    } else if digit == 7 {
        '7'
    } else if digit == 8 {
        '8'
    } else {
        '9'
    }
}

/// A number written in decimal, without leading zeros.
pub open spec fn decimal(n: nat) -> Seq<char>
    decreases n,
{
    if n < 10 {
        seq![digit_char(n)]
    } else {
        decimal(n / 10).push(digit_char(n % 10))
    }
}

/// Digits written out, the highest first.
pub open spec fn digits_text(digits: Seq<u8>) -> Seq<char>
    decreases digits.len(),
{
    if digits.len() == 0 {
        Seq::<char>::empty()
    } else {
        digits_text(digits.drop_first()).push(digit_char(digits.first() as nat))
    }
}

/// The digits of the next number stand for the next number, and are in the
/// one form again.
pub proof fn lemma_bumped(digits: Seq<u8>)
    requires
        canonical(digits),
    ensures
        canonical(bumped(digits)),
        bumped(digits).len() > 0,
        digits_value(bumped(digits)) == digits_value(digits) + 1,
    decreases digits.len(),
{
    let next = bumped(digits);
    if digits.len() == 0 {
        assert(digits_value(next.drop_first()) == 0);
    } else if digits.first() == 9 {
        let rest = digits.drop_first();
        lemma_bumped(rest);
        assert(next.drop_first() == bumped(rest));
    } else {
        let rest = digits.drop_first();
        assert(next.drop_first() == rest);
    }
}

/// Digits in the one form, if there are any, stand for a number above zero.
pub proof fn lemma_canonical_positive(digits: Seq<u8>)
    requires
        canonical(digits),
        digits.len() > 0,
    ensures
        digits_value(digits) >= 1,
    decreases digits.len(),
{
    let rest = digits.drop_first();
    if rest.len() > 0 {
        lemma_canonical_positive(rest);
    }
}

/// Digits in the one form, written out, are the decimal form of the number
/// they stand for.
pub proof fn lemma_digits_text(digits: Seq<u8>)
    requires
        canonical(digits),
        digits.len() > 0,
    ensures
        digits_text(digits) == decimal(digits_value(digits)),
    decreases digits.len(),
{
    let rest = digits.drop_first();
    if rest.len() == 0 {
        assert(digits_text(rest) == Seq::<char>::empty());
    } else {
        lemma_canonical_positive(rest);
        lemma_digits_text(rest);
    }
}

/// A count of rendered entries: a natural number of any size.
#[derive(Debug, PartialEq, Eq)]
pub struct Counter {
    digits: Vec<u8>,
}

impl View for Counter {
    type V = nat;

    closed spec fn view(&self) -> nat {
        digits_value(self.digits@)
    }
}

impl Clone for Counter {
    fn clone(&self) -> (copy: Counter)
        ensures
            copy@ == self@,
    {
        proof {
            use_type_invariant(self);
        }
        let digits = self.digits.clone();
        Counter { digits }
    }
}

impl Counter {
    #[verifier::type_invariant]
    spec fn well_formed(self) -> bool {
        canonical(self.digits@)
    }

    /// The count zero.
    pub fn new() -> (counter: Counter)
        ensures
            counter@ == 0,
    {
        Counter { digits: Vec::new() }
    }

    /// Raises the count by one.
    pub fn increment(&mut self)
        ensures
            final(self)@ == old(self)@ + 1,
    {
        proof {
            use_type_invariant(&*self);
            lemma_bumped(self.digits@);
        }
        let ghost before = self.digits@;
        let mut next: Vec<u8> = Vec::new();
        let mut carry = true;
        let mut i: usize = 0;
        proof {
            assert(before.skip(0) == before);
        }
        while i < self.digits.len()
            invariant
                i <= self.digits.len(),
                self.digits@ == before,
                canonical(before),
                next@ + (if carry {
                    bumped(before.skip(i as int))
                } else {
                    before.skip(i as int)
                }) == bumped(before),
            decreases self.digits.len() - i,
        {
            let digit = self.digits[i];
            let ghost here = before.skip(i as int);
            let ghost rest = before.skip(i + 1);
            proof {
                assert(here.drop_first() == rest);
            }
            if !carry {
                next.push(digit);
            } else if digit == 9 {
                next.push(0);
            } else {
                next.push(digit + 1);
                carry = false;
            }
            i += 1;
        }
        if carry {
            proof {
                assert(next@.push(1u8) == next@ + seq![1u8]);
            }
            next.push(1);
        }
        self.digits = next;
    }

    /// The count in decimal.
    pub fn to_text(&self) -> (text: String)
        ensures
            text@ == decimal(self@),
    {
        proof {
            use_type_invariant(self);
        }
        let mut out: Vec<char> = Vec::new();
        if self.digits.len() == 0 {
            out.push('0');
            return string_of(out.as_slice());
        }
        let mut k: usize = self.digits.len();
        proof {
            lemma_digits_text(self.digits@);
        }
        while k > 0
            invariant
                k <= self.digits.len(),
                canonical(self.digits@),
                out@ == digits_text(self.digits@.skip(k as int)),
            decreases k,
        {
            k -= 1;
            let digit = self.digits[k];
            proof {
                let here = self.digits@.skip(k as int);
                assert(here.drop_first() == self.digits@.skip(k + 1));
            }
            out.push(digit_of(digit));
        }
        proof {
            assert(self.digits@.skip(0) == self.digits@);
        }
        string_of(out.as_slice())
    }
}

/// The character of a decimal digit.
fn digit_of(digit: u8) -> (c: char)
    requires
        digit < 10,
    ensures
        c == digit_char(digit as nat),
{
    if digit == 0 {
        '0'
    } else if digit == 1 {
        '1'
    } else if digit == 2 {
        '2'
    } else if digit == 3 {
        '3'
    } else if digit == 4 {
        '4'
    } else if digit == 5 {
        '5'
    } else if digit == 6 {
        '6'
    } else if digit == 7 {
        '7'
    } else if digit == 8 {
        '8'
    } else {
        '9'
    }
}

} // verus!
