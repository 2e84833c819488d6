//! Reading unsigned integers the way `str::parse` and `from_str_radix` do:
//! an optional `+`, then one or more digits of the radix (either case for
//! letters), and nothing else; a value too large for the type is refused.

use vstd::prelude::*;

verus! {

/// The value of the byte as a digit of `radix`, if it is one.
pub open spec fn digit_of(b: u8, radix: nat) -> Option<nat> {
    let d: int = if 48 <= b <= 57 {
        b - 48
    } else if 97 <= b <= 122 {
        b - 87
    } else if 65 <= b <= 90 {
        b - 55
    } else {
        36
    };
    if d < radix {
        Some(d as nat)
    } else {
        None
    }
}

/// Every byte is a digit of `radix`.
pub open spec fn all_digits(s: Seq<u8>, radix: nat) -> bool {
    forall|i: int| 0 <= i < s.len() ==> (#[trigger] digit_of(s[i], radix)) is Some
}

/// The number the digits spell, most significant first.
pub open spec fn digits_value(s: Seq<u8>, radix: nat) -> nat
    decreases s.len(),
{
    if s.len() == 0 {
        0
    } else {
        digits_value(s.drop_last(), radix) * radix + match digit_of(s.last(), radix) {
            Some(d) => d,
            None => 0,
        }
    }
}

/// The number the bytes spell: an optional `+` and at least one digit.
pub open spec fn unsigned_value(s: Seq<u8>, radix: nat) -> Option<nat> {
    let digits = if s.len() > 0 && s[0] == 43u8 {
        s.skip(1)
    } else {
        s
    };
    if digits.len() > 0 && all_digits(digits, radix) {
        Some(digits_value(digits, radix))
    } else {
        None
    }
}

/// The number the bytes spell, when it is at most `max`.
pub open spec fn parsed_within(s: Seq<u8>, radix: nat, max: nat) -> Option<nat> {
    match unsigned_value(s, radix) {
        Some(n) => if n <= max {
            Some(n)
        } else {
            None
        },
        None => None,
    }
}

fn digit_exec(b: u8, radix: u64) -> (r: Option<u64>)
    requires
        2 <= radix <= 36,
    ensures
        match digit_of(b, radix as nat) {
            Some(d) => r == Some(d as u64),
            None => r is None,
        },
{
    let d: u64 = if 48 <= b && b <= 57 {
        (b - 48) as u64
    } else if 97 <= b && b <= 122 {
        (b - 87) as u64
    } else if 65 <= b && b <= 90 {
        (b - 55) as u64
    } else {
        36
    };
    if d < radix {
        Some(d)
    } else {
        None
    }
}

proof fn lemma_step_fits(a: nat, r: nat, d: nat, m: nat)
    by (nonlinear_arith)
    requires
        r > 0,
        d <= m,
    ensures
        a * r + d <= m <==> a <= (m - d) as nat / r,
{
}

proof fn lemma_grows(a: nat, r: nat, d: nat, m: nat)
    requires
        r >= 1,
        a > m,
    ensures
        a * r + d > m,
{
    assert(a * r >= a) by (nonlinear_arith)
        requires
            r >= 1,
    ;
}

/// The number `s` spells in `radix`, when it is at most `max`.
pub fn parse_unsigned(s: &[u8], radix: u64, max: u64) -> (r: Option<u64>)
    requires
        2 <= radix <= 36,
    ensures
        match parsed_within(s@, radix as nat, max as nat) {
            Some(n) => r == Some(n as u64),
            None => r is None,
        },
{
    let start: usize = if s.len() > 0 && s[0] == 43u8 {
        1
    } else {
        0
    };
    let ghost digits = s@.skip(start as int);
    assert(digits == (if s@.len() > 0 && s@[0] == 43u8 { s@.skip(1) } else { s@ }));
    if start == s.len() {
        return None;
    }
    let mut acc: u64 = 0;
    let mut big = false;
    let mut i: usize = start;
    assert(s@.subrange(start as int, start as int) =~= Seq::<u8>::empty());
    while i < s.len()
        invariant
            2 <= radix <= 36,
            start <= i <= s@.len(),
            digits == s@.skip(start as int),
            digits == (if s@.len() > 0 && s@[0] == 43u8 { s@.skip(1) } else { s@ }),
            all_digits(s@.subrange(start as int, i as int), radix as nat),
            !big ==> acc == digits_value(s@.subrange(start as int, i as int), radix as nat) && acc <= max,
            big ==> digits_value(s@.subrange(start as int, i as int), radix as nat) > max,
        decreases s@.len() - i,
    {
        let ghost prev = s@.subrange(start as int, i as int);
        let ghost next = s@.subrange(start as int, i + 1);
        let d = match digit_exec(s[i], radix) {
            Some(d) => d,
            None => {
                assert(digits[i - start] == s@[i as int]);
                assert(!all_digits(digits, radix as nat));
                return None;
            },
        };
        assert(next.drop_last() =~= prev);
        assert(next.last() == s@[i as int]);
        assert(digits_value(next, radix as nat) == digits_value(prev, radix as nat) * (radix as nat) + d);
        assert forall|k: int| 0 <= k < next.len() implies (#[trigger] digit_of(next[k], radix as nat)) is Some by {
            if k < prev.len() {
                assert(next[k] == prev[k]);
            }
        }
        if !big {
            if d > max {
                big = true;
                assert(acc * radix + d > max) by (nonlinear_arith)
                    requires
                        d > max,
                        radix >= 1,
                ;
            } else {
                proof {
                    lemma_step_fits(acc as nat, radix as nat, d as nat, max as nat);
                }
                if acc > (max - d) / radix {
                    big = true;
                } else {
                    assert(acc * radix + d <= max);
                    acc = acc * radix + d;
                }
            }
        } else {
            proof {
                lemma_grows(digits_value(prev, radix as nat), radix as nat, d as nat, max as nat);
            }
        }
        i += 1;
    }
    assert(s@.subrange(start as int, s@.len() as int) =~= digits);
    if big {
        None
    } else {
        Some(acc)
    }
}

} // verus!
