use vstd::prelude::*;

verus! {

/// The character for a single decimal digit.
pub open spec fn digit_char(d: int) -> char {
    if d == 0 {
        '0'
    } else if d == 1 {
        '1'
    } else if d == 2 {
        '2'
    } else if d == 3 {
        '3'
    } else if d == 4 {
        '4'
    } else if d == 5 {
        '5'
    } else if d == 6 {
        '6'
    } else if d == 7 {
        '7'
    } else if d == 8 {
        '8'
    } else {
        '9'
    }
}

/// Base-10 rendering of a non-negative integer, most significant digit first.
pub open spec fn dec_digits(n: nat) -> Seq<char>
    decreases n,
{
    if n < 10 {
        seq![digit_char(n as int)]
    } else {
        dec_digits(n / 10) + seq![digit_char((n % 10) as int)]
    }
}

/// Base-10 rendering of a signed integer, with a leading minus sign if negative.
pub open spec fn int_str(n: int) -> Seq<char> {
    if n < 0 {
        seq!['-'] + dec_digits((-n) as nat)
    } else {
        dec_digits(n as nat)
    }
}

/// Relies on String::push: appends the given character to the end of the string.
#[verifier::external_body]
pub(crate) fn push_char(s: &mut String, c: char)
    ensures
        final(s)@ == old(s)@ + seq![c],
{
    s.push(c);
}

fn digit_char_of(d: u64) -> (c: char)
    requires
        d < 10,
    ensures
        c == digit_char(d as int),
{
    if d == 0 {
        '0'
    } else if d == 1 {
        '1'
    } else if d == 2 {
        '2'
    } else if d == 3 {
        '3'
    } else if d == 4 {
        '4'
    } else if d == 5 {
        '5'
    } else if d == 6 {
        '6'
    } else if d == 7 {
        '7'
    } else if d == 8 {
        '8'
    } else {
        '9'
    }
}

/// Appends the decimal digits of `n` to `s`.
pub(crate) fn push_u64(s: &mut String, n: u64)
    ensures
        final(s)@ == old(s)@ + dec_digits(n as nat),
{
    let mut digits: Vec<char> = Vec::new();
    let mut v: u64 = n;
    let d0 = digit_char_of(v % 10);
    digits.insert(0, d0);
    v = v / 10;
    proof {
        if n < 10 {
            assert(digits@ =~= seq![digit_char(n as int)]);
        } else {
            assert(digits@ =~= seq![digit_char((n % 10) as int)]);
            assert(dec_digits(n as nat) == dec_digits(v as nat) + digits@);
        }
        assert(dec_digits(n as nat) == (if v > 0 {
            dec_digits(v as nat)
        } else {
            Seq::<char>::empty()
        }) + digits@);
    }
    while v > 0
        invariant
            dec_digits(n as nat) == (if v > 0 {
                dec_digits(v as nat)
            } else {
                Seq::<char>::empty()
            }) + digits@,
        decreases v,
    {
        let ghost v0: int = v as int;
        let ghost digits0: Seq<char> = digits@;
        let d = digit_char_of(v % 10);
        digits.insert(0, d);
        v = v / 10;
        proof {
            assert(digits@ =~= seq![digit_char(v0 % 10)] + digits0);
            if v0 < 10 {
                assert(dec_digits(v0 as nat) == seq![digit_char(v0 % 10)]);
                assert((if v > 0 {
                    dec_digits(v as nat)
                } else {
                    Seq::<char>::empty()
                }) + digits@ =~= dec_digits(v0 as nat) + digits0);
            } else {
                assert(dec_digits(v0 as nat) == dec_digits((v0 / 10) as nat) + seq![
                    digit_char(v0 % 10),
                ]);
                assert((if v > 0 {
                    dec_digits(v as nat)
                } else {
                    Seq::<char>::empty()
                }) + digits@ =~= dec_digits(v0 as nat) + digits0);
            }
        }
    }
    let ghost s0: Seq<char> = s@;
    let mut i: usize = 0;
    while i < digits.len()
        invariant
            i <= digits.len(),
            s@ == s0 + digits@.subrange(0, i as int),
        decreases digits.len() - i,
    {
        let c = digits[i];
        push_char(s, c);
        i = i + 1;
        proof {
            assert(s@ =~= s0 + digits@.subrange(0, i as int));
        }
    }
    proof {
        assert(digits@.subrange(0, digits@.len() as int) =~= digits@);
        assert(Seq::<char>::empty() + digits@ =~= digits@);
    }
}

/// Appends the decimal rendering of `n` to `s`, with a minus sign if negative.
pub(crate) fn push_i32(s: &mut String, n: i32)
    ensures
        final(s)@ == old(s)@ + int_str(n as int),
{
    let ghost s0: Seq<char> = s@;
    if n < 0 {
        push_char(s, '-');
        let m: u64 = (-(n as i64)) as u64;
        push_u64(s, m);
        proof {
            assert(m as nat == (-(n as int)) as nat);
            assert(s@ =~= s0 + int_str(n as int));
        }
    } else {
        push_u64(s, n as u64);
    }
}

} // verus!
