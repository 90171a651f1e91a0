use vstd::prelude::*;
use vstd::string::StringExecFns;

verus! {

/// The character that writes the digit `d`.
pub open spec fn digit_char(d: nat) -> char {
    if d == 0 {
        '0'
    } else if d == 1 {
        '1'
    } else if d == 2 {
        '2'
    } else if d == 3 {
        '3'
    } else if d == 4 {
        '4'
    } else if d == 5 {
        '5'
    } else if d == 6 {
        '6'
    } else if d == 7 {
        '7'
    } else if d == 8 {
        '8'
    } else {
        '9'
    }
}

/// The decimal notation of `n`: its digits from the most significant one,
/// with no leading zero (the notation of zero is `0`).
pub open spec fn decimal(n: nat) -> Seq<char>
    decreases n,
{
    if n < 10 {
        seq![digit_char(n)]
    } else {
        decimal(n / 10).push(digit_char(n % 10))
    }
}

/// The number that the digit `c` stands for.
pub open spec fn digit_value(c: char) -> nat {
    (c as int - '0' as int) as nat
}

/// The number that `digits` write in decimal notation.
pub open spec fn decimal_value(digits: Seq<char>) -> nat
    decreases digits.len(),
{
    if digits.len() == 0 {
        0
    } else {
        decimal_value(digits.drop_last()) * 10 + digit_value(digits.last())
    }
}

/// The number that the decimal notation of `n` writes is `n`.
pub proof fn lemma_decimal_value(n: nat)
    ensures
        decimal_value(decimal(n)) == n,
    decreases n,
{
    if n < 10 {
        assert(decimal(n).drop_last() =~= Seq::empty());
        assert(decimal_value(decimal(n).drop_last()) == 0);
    } else {
        lemma_decimal_value(n / 10);
        assert(decimal(n).drop_last() =~= decimal(n / 10));
    }
}

/// Two numbers with the same decimal notation are the same number.
pub proof fn lemma_decimal_injective(a: nat, b: nat)
    requires
        decimal(a) == decimal(b),
    ensures
        a == b,
{
    lemma_decimal_value(a);
    lemma_decimal_value(b);
}

/// The one-character text that writes the digit `d`.
fn digit_text(d: u8) -> (r: &'static str)
    requires
        d < 10,
    ensures
        r@ == seq![digit_char(d as nat)],
{
    proof {
        reveal_strlit("0");
        reveal_strlit("1");
        reveal_strlit("2");
        reveal_strlit("3");
        reveal_strlit("4");
        reveal_strlit("5");
        reveal_strlit("6");
        reveal_strlit("7");
        reveal_strlit("8");
        reveal_strlit("9");
    }
    let r = if d == 0 {
        "0"
    } else if d == 1 {
        "1"
    } else if d == 2 {
        "2"
    } else if d == 3 {
        "3"
    } else if d == 4 {
        "4"
    } else if d == 5 {
        "5"
    } else if d == 6 {
        "6"
    } else if d == 7 {
        "7"
    } else if d == 8 {
        "8"
    } else {
        "9"
    };
    assert(r@ =~= seq![digit_char(d as nat)]);
    r
}

/// Appends the decimal notation of `n` to `out`.
pub fn push_decimal(out: &mut String, n: u64)
    ensures
        final(out)@ == old(out)@ + decimal(n as nat),
    decreases n,
{
    if n >= 10 {
        push_decimal(out, n / 10);
    }
    out.append(digit_text((n % 10) as u8));
    assert(out@ =~= old(out)@ + decimal(n as nat));
}

/// The value of a number written as `digits`, the most significant first.
pub open spec fn digits_value(digits: Seq<u8>) -> nat
    decreases digits.len(),
{
    if digits.len() == 0 {
        0
    } else {
        digits_value(digits.drop_last()) * 10 + digits.last() as nat
    }
}

/// Whether `digits` is the decimal notation of a number: at least one digit,
/// each below ten, and no leading zero but for zero itself.
pub open spec fn canonical(digits: Seq<u8>) -> bool {
    &&& digits.len() >= 1
    &&& forall|i: int| 0 <= i < digits.len() ==> digits[i] < 10
    &&& digits.len() > 1 ==> digits[0] != 0
}

/// The characters that write `digits`.
pub open spec fn digit_chars(digits: Seq<u8>) -> Seq<char> {
    Seq::new(digits.len(), |i: int| digit_char(digits[i] as nat))
}

/// A number whose notation does not start with zero is not zero.
proof fn lemma_leading_digit(digits: Seq<u8>)
    requires
        digits.len() >= 1,
        digits[0] != 0,
    ensures
        digits_value(digits) >= 1,
    decreases digits.len(),
{
    if digits.len() > 1 {
        lemma_leading_digit(digits.drop_last());
    } else {
        assert(digits_value(digits.drop_last()) == 0);
    }
}

/// The decimal notation of the value of canonical digits is those digits.
pub proof fn lemma_canonical_decimal(digits: Seq<u8>)
    requires
        canonical(digits),
    ensures
        decimal(digits_value(digits)) == digit_chars(digits),
    decreases digits.len(),
{
    let init = digits.drop_last();
    if digits.len() == 1 {
        assert(digits_value(init) == 0);
        assert(decimal(digits_value(digits)) =~= digit_chars(digits));
    } else {
        lemma_canonical_decimal(init);
        lemma_leading_digit(init);
        let v = digits_value(digits);
        assert(v / 10 == digits_value(init) && v % 10 == digits.last() as nat);
        assert(decimal(v) =~= digit_chars(digits));
    }
}

/// A counter that starts at zero and can always be stepped: it keeps its
/// value in decimal notation, which has no largest number.
pub struct Counter {
    digits: Vec<u8>,
}

impl Counter {
    #[verifier::type_invariant]
    spec fn wf(&self) -> bool {
        canonical(self.digits@)
    }

    /// The number the counter stands at.
    pub closed spec fn value(&self) -> nat {
        digits_value(self.digits@)
    }

    /// The counter at zero.
    pub fn new() -> (r: Self)
        ensures
            r.value() == 0,
    {
        let mut digits: Vec<u8> = Vec::new();
        digits.push(0);
        assert(digits@.drop_last() =~= Seq::empty());
        assert(digits_value(digits@.drop_last()) == 0);
        Counter { digits }
    }

    /// Steps the counter by one.
    pub fn step(&mut self)
        ensures
            final(self).value() == old(self).value() + 1,
    {
        proof {
            use_type_invariant(&*self);
        }
        let mut digits = self.digits.clone();
        assert(digits@ =~= self.digits@);
        successor(&mut digits);
        self.digits = digits;
    }

    /// The decimal notation of the number the counter stands at, appended to
    /// `out`.
    pub fn push_to(&self, out: &mut String)
        ensures
            final(out)@ == old(out)@ + decimal(self.value()),
    {
        proof {
            use_type_invariant(self);
            lemma_canonical_decimal(self.digits@);
        }
        let mut i: usize = 0;
        while i < self.digits.len()
            invariant
                i <= self.digits.len(),
                canonical(self.digits@),
                out@ == old(out)@ + digit_chars(self.digits@).subrange(0, i as int),
            decreases self.digits.len() - i,
        {
            out.append(digit_text(self.digits[i]));
            assert(out@ =~= old(out)@ + digit_chars(self.digits@).subrange(0, i + 1));
            i += 1;
        }
        assert(digit_chars(self.digits@).subrange(0, i as int) =~= digit_chars(self.digits@));
    }
}

/// Replaces the notation of a number by the notation of the next number.
fn successor(digits: &mut Vec<u8>)
    requires
        canonical(old(digits)@),
    ensures
        canonical(final(digits)@),
        digits_value(final(digits)@) == digits_value(old(digits)@) + 1,
        final(digits)@.len() >= old(digits)@.len(),
    decreases old(digits)@.len(),
{
    let ghost before = digits@;
    let last = digits.pop().unwrap();
    let ghost init = digits@;
    assert(init =~= before.drop_last());
    assert(digits_value(before) == digits_value(init) * 10 + 9 || last < 9);
    if last < 9 {
        digits.push(last + 1);
        assert(digits@.drop_last() =~= init);
    } else {
        if digits.len() == 0 {
            digits.push(1);
            assert(digits@.drop_last() =~= Seq::empty());
            assert(digits_value(digits@.drop_last()) == 0);
            assert(digits_value(init) == 0);
            assert(digits_value(digits@) == 1);
        } else {
            successor(digits);
        }
        let ghost stepped = digits@;
        assert(digits_value(stepped) == digits_value(init) + 1);
        digits.push(0);
        assert(digits@.drop_last() =~= stepped);
        assert(stepped.len() == 1 ==> stepped.drop_last() =~= Seq::empty());
        assert(digits@[0] == stepped[0]);
        proof {
            if stepped.len() == 1 {
                assert(digits_value(stepped.drop_last()) == 0);
            }
            assert(stepped[0] != 0);
        }
    }
}

} // verus!
