//! Fixed-point decimal numbers.
//!
//! The exchanges send prices and quantities as decimal strings such as
//! `"0.06812000"`. They are held as integers counting units of 10^-8
//! (`FRACTION_DIGITS` fractional digits), so that `"0.06812000"` is `6812000`.

use vstd::prelude::*;

verus! {

/// Number of fractional digits kept by the fixed-point representation.
pub const FRACTION_DIGITS: usize = 8;

pub open spec fn is_digit(c: char) -> bool {
    '0' <= c && c <= '9'
}

pub open spec fn digit_value(c: char) -> nat {
    (c as int - '0' as int) as nat
}

pub open spec fn all_digits(s: Seq<char>) -> bool {
    forall|i: int| 0 <= i < s.len() ==> is_digit(#[trigger] s[i])
}

/// The number written by a string of decimal digits (most significant first).
pub open spec fn digits_value(s: Seq<char>) -> nat
    decreases s.len(),
{
    if s.len() == 0 {
        0
    } else {
        digits_value(s.drop_last()) * 10 + digit_value(s.last())
    }
}

/// `n` zero digits.
pub open spec fn zeros(n: nat) -> Seq<char> {
    Seq::new(n, |i: int| '0')
}

/// Index of the last `'.'` in `s`, or -1 when there is none.
pub open spec fn last_point(s: Seq<char>) -> int
    decreases s.len(),
{
    if s.len() == 0 {
        -1
    } else if s.last() == '.' {
        s.len() - 1
    } else {
        last_point(s.drop_last())
    }
}

/// The digits of the fixed-point integer that a decimal text denotes, when the
/// text is well formed: a non-empty run of digits, or a point with at most
/// `FRACTION_DIGITS` digits after it and digits before it, at least one digit
/// in all (`"2"`, `"2.5"`, `"2."`, `".5"`). The fraction is padded with zeros
/// to `FRACTION_DIGITS` digits and the point is dropped.
pub open spec fn unsigned_fixed_point_digits(s: Seq<char>) -> Option<Seq<char>> {
    let k = last_point(s);
    if k < 0 {
        if s.len() > 0 && all_digits(s) {
            Some(s + zeros(FRACTION_DIGITS as nat))
        } else {
            None
        }
    } else {
        let whole = s.take(k);
        let frac = s.skip(k + 1);
        if whole.len() + frac.len() > 0 && all_digits(whole) && frac.len() <= FRACTION_DIGITS
            && all_digits(frac) {
            Some(whole + frac + zeros((FRACTION_DIGITS - frac.len()) as nat))
        } else {
            None
        }
    }
}

/// The digits of the fixed-point integer that a decimal text denotes: an
/// unsigned decimal text, optionally preceded by a `+` sign.
pub open spec fn fixed_point_digits(s: Seq<char>) -> Option<Seq<char>> {
    if s.len() > 0 && s[0] == '+' {
        unsigned_fixed_point_digits(s.skip(1))
    } else {
        unsigned_fixed_point_digits(s)
    }
}

/// The fixed-point value of an unsigned decimal text, when it is well formed
/// and fits in a `u64`.
pub open spec fn unsigned_fixed_point_value(s: Seq<char>) -> Option<u64> {
    match unsigned_fixed_point_digits(s) {
        Some(d) => if digits_value(d) <= u64::MAX {
            Some(digits_value(d) as u64)
        } else {
            None
        },
        None => None,
    }
}

/// The fixed-point value of a decimal text, when it is well formed and fits in a `u64`.
pub open spec fn fixed_point_value(s: Seq<char>) -> Option<u64> {
    match fixed_point_digits(s) {
        Some(d) => if digits_value(d) <= u64::MAX {
            Some(digits_value(d) as u64)
        } else {
            None
        },
        None => None,
    }
}

proof fn lemma_digits_value_push(s: Seq<char>, c: char)
    ensures
        digits_value(s.push(c)) == digits_value(s) * 10 + digit_value(c),
{
    assert(s.push(c).drop_last() =~= s);
}

proof fn lemma_digits_value_extend(a: Seq<char>, b: Seq<char>)
    ensures
        digits_value(a + b) >= digits_value(a),
    decreases b.len(),
{
    if b.len() == 0 {
        assert(a + b =~= a);
    } else {
        assert((a + b).drop_last() =~= a + b.drop_last());
        lemma_digits_value_extend(a, b.drop_last());
    }
}

proof fn lemma_digits_value_pad(d: Seq<char>, n: nat)
    ensures
        digits_value(d + zeros(n + 1)) == digits_value(d + zeros(n)) * 10,
{
    assert((d + zeros(n + 1)).drop_last() =~= d + zeros(n));
}

proof fn lemma_last_point_step(s: Seq<char>, i: int)
    requires
        0 <= i < s.len(),
    ensures
        last_point(s.take(i + 1)) == if s[i] == '.' {
            i
        } else {
            last_point(s.take(i))
        },
{
    assert(s.take(i + 1).drop_last() =~= s.take(i));
}

proof fn lemma_last_point_facts(s: Seq<char>)
    ensures
        -1 <= last_point(s) < s.len(),
        last_point(s) >= 0 ==> s[last_point(s)] == '.',
        forall|j: int| last_point(s) < j < s.len() ==> s[j] != '.',
    decreases s.len(),
{
    if s.len() > 0 {
        lemma_last_point_facts(s.drop_last());
        if s.last() != '.' {
            assert forall|j: int| last_point(s) < j < s.len() implies s[j] != '.' by {
                if j < s.len() - 1 {
                    assert(s[j] == s.drop_last()[j]);
                }
            }
        }
    }
}

fn parse_unsigned_decimal(s: &str) -> (res: Option<u64>)
    ensures
        res == unsigned_fixed_point_value(s@),
{
    let n = s.unicode_len();
    let ghost t = s@;
    let mut acc: u64 = 0;
    let mut seen_point = false;
    let mut point: usize = 0;
    let mut frac_len: usize = 0;
    let mut i: usize = 0;
    proof {
        lemma_last_point_facts(t);
        assert(t.take(0) =~= Seq::<char>::empty());
    }
    while i < n
        invariant
            n == t.len(),
            t == s@,
            0 <= i <= n,
            !seen_point ==> frac_len == 0,
            -1 <= last_point(t) < t.len(),
            last_point(t) >= 0 ==> t[last_point(t)] == '.',
            forall|j: int| last_point(t) < j < t.len() ==> t[j] != '.',
            !seen_point ==> {
                &&& last_point(t.take(i as int)) == -1
                &&& all_digits(t.take(i as int))
                &&& acc == digits_value(t.take(i as int))
            },
            seen_point ==> {
                &&& last_point(t.take(i as int)) == point
                &&& 0 <= point < i
                &&& t[point as int] == '.'
                &&& all_digits(t.take(point as int))
                &&& frac_len == i - point - 1
                &&& frac_len <= FRACTION_DIGITS
                &&& all_digits(t.take(i as int).skip(point + 1))
                &&& acc == digits_value(t.take(point as int) + t.take(i as int).skip(point + 1))
            },
        decreases n - i,
    {
        let c = s.get_char(i);
        proof {
            lemma_last_point_step(t, i as int);
        }
        if '0' <= c && c <= '9' {
            let d = (c as u32 - '0' as u32) as u64;
            let ghost prev = if seen_point {
                t.take(point as int) + t.take(i as int).skip(point + 1)
            } else {
                t.take(i as int)
            };
            let ghost next = prev.push(c);
            proof {
                lemma_digits_value_push(prev, c);
                if seen_point {
                    assert(t.take(point as int) + t.take(i + 1).skip(point + 1) =~= next);
                } else {
                    assert(t.take(i + 1) =~= next);
                }
            }
            if seen_point && frac_len == FRACTION_DIGITS {
                proof {
                    // either the last point is this one and the fraction is too long,
                    // or a later point makes the whole part contain a point
                    if last_point(t) == point as int {
                        assert(t.skip(point + 1).len() > FRACTION_DIGITS);
                    } else {
                        assert(t.take(last_point(t))[point as int] == '.');
                    }
                }
                return None;
            }
            let m = acc.checked_mul(10);
            let sum = match m {
                Some(m) => m.checked_add(d),
                None => None,
            };
            match sum {
                Some(v) => {
                    acc = v;
                },
                None => {
                    proof {
                        assert(digits_value(next) > u64::MAX);
                        match unsigned_fixed_point_digits(t) {
                            Some(full) => {
                                let k = last_point(t);
                                if seen_point {
                                    assert(k == point as int) by {
                                        if k != point as int {
                                            assert(t.take(k)[point as int] == '.');
                                        }
                                    }
                                    let pad = zeros((FRACTION_DIGITS - t.skip(k + 1).len()) as nat);
                                    let rest = t.skip(i + 1) + pad;
                                    assert(full =~= next + rest);
                                    lemma_digits_value_extend(next, rest);
                                } else if k < 0 {
                                    let rest = t.skip(i + 1) + zeros(FRACTION_DIGITS as nat);
                                    assert(full =~= next + rest);
                                    lemma_digits_value_extend(next, rest);
                                } else {
                                    assert(k > i) by {
                                        lemma_last_point_facts(t.take(i + 1));
                                        if k <= i {
                                            assert(t.take(i + 1)[k] == '.');
                                        }
                                    }
                                    let pad = zeros((FRACTION_DIGITS - t.skip(k + 1).len()) as nat);
                                    let rest = t.subrange(i + 1, k) + t.skip(k + 1) + pad;
                                    assert(full =~= next + rest);
                                    lemma_digits_value_extend(next, rest);
                                }
                            },
                            None => {},
                        }
                    }
                    return None;
                },
            }
            if seen_point {
                frac_len = frac_len + 1;
            }
            proof {
                if seen_point {
                    assert forall|j: int| 0 <= j < t.take(i + 1).skip(point + 1).len() implies is_digit(
                        #[trigger] t.take(i + 1).skip(point + 1)[j],
                    ) by {
                        if j < t.take(i as int).skip(point + 1).len() {
                            assert(t.take(i + 1).skip(point + 1)[j] == t.take(i as int).skip(point + 1)[j]);
                        } else {
                            assert(t.take(i + 1).skip(point + 1)[j] == c);
                        }
                    }
                } else {
                    assert forall|j: int| 0 <= j < t.take(i + 1).len() implies is_digit(
                        #[trigger] t.take(i + 1)[j],
                    ) by {
                        if j < i {
                            assert(t.take(i + 1)[j] == t.take(i as int)[j]);
                        }
                    }
                }
            }
        } else if c == '.' {
            if seen_point {
                proof {
                    let k = last_point(t);
                    assert(k >= i);
                    assert(t.take(k)[point as int] == '.');
                }
                return None;
            }
            seen_point = true;
            point = i;
            proof {
                assert(t.take(i + 1).take(i as int) =~= t.take(i as int));
                assert(t.take(i + 1).skip(i + 1) =~= Seq::<char>::empty());
                assert(t.take(i as int) + t.take(i + 1).skip(i + 1) =~= t.take(i as int));
            }
        } else {
            proof {
                let k = last_point(t);
                if k >= 0 {
                    if (i as int) < k {
                        assert(t.take(k)[i as int] == c);
                    } else {
                        assert(t.skip(k + 1)[i - k - 1] == c);
                    }
                }
            }
            return None;
        }
        i = i + 1;
    }
    proof {
        assert(t.take(n as int) =~= t);
    }
    if i == 0 || (seen_point && i == 1) {
        proof {
            if seen_point {
                assert(last_point(t) == 0);
            }
        }
        return None;
    }
    let ghost digits = if seen_point {
        t.take(point as int) + t.skip(point + 1)
    } else {
        t
    };
    let pad: usize = FRACTION_DIGITS - frac_len;
    let mut k: usize = 0;
    proof {
        assert(digits + zeros(0) =~= digits);
        if seen_point {
            assert(t.take(n as int).skip(point + 1) =~= t.skip(point + 1));
            assert(t.take(n as int).take(point as int) =~= t.take(point as int));
            assert(last_point(t) == point);
        } else {
            assert(last_point(t) == -1);
        }
        assert(unsigned_fixed_point_digits(t) == Some(digits + zeros(pad as nat)));
    }
    while k < pad
        invariant
            0 <= k <= pad,
            unsigned_fixed_point_digits(t) == Some(digits + zeros(pad as nat)),
            t == s@,
            acc == digits_value(digits + zeros(k as nat)),
        decreases pad - k,
    {
        proof {
            lemma_digits_value_pad(digits, k as nat);
        }
        match acc.checked_mul(10) {
            Some(v) => {
                acc = v;
            },
            None => {
                proof {
                    let full = digits + zeros(pad as nat);
                    assert(full =~= (digits + zeros((k + 1) as nat)) + zeros((pad - k - 1) as nat));
                    lemma_digits_value_extend(digits + zeros((k + 1) as nat), zeros((pad - k - 1) as nat));
                }
                return None;
            },
        }
        k = k + 1;
    }
    proof {
        assert(digits + zeros(k as nat) =~= digits + zeros(pad as nat));
    }
    Some(acc)
}

/// Parses a decimal text into its fixed-point value (units of 10^-8).
///
/// Returns `None` when the text is not an optional `+` followed by digits with
/// at most one point, at least one digit and at most eight digits after the
/// point, or when its value does not fit in a `u64`.
pub fn parse_decimal(s: &str) -> (res: Option<u64>)
    ensures
        res == fixed_point_value(s@),
{
    let n = s.unicode_len();
    if n > 0 && s.get_char(0) == '+' {
        let rest = s.substring_char(1, n);
        proof {
            assert(rest@ =~= s@.skip(1));
        }
        parse_unsigned_decimal(rest)
    } else {
        parse_unsigned_decimal(s)
    }
}

} // verus!
