//! Building records out of tokenized input lines.
//!
//! Callers split an input line into whitespace-separated tokens and hand the
//! tokens over; these functions assemble the request and update records.
//! Rates are decimal literals (`1000`, `0.0009`) parsed into exact rationals:
//! the numerator is the literal's digits, the denominator the power of ten of
//! its fractional length. A record with a malformed timestamp or rate is
//! rejected by itself rather than aborting the stream.

use vstd::prelude::*;
use vstd::string::StrSliceExecFns;

use crate::datetime_helpers::{get_datetime_from_string, rfc3339_nanos};
use crate::rational::Rational;
use crate::{ExchangeRateRequest, PriceUpdate};

verus! {

/// Every character is a decimal digit.
pub open spec fn all_digits(s: Seq<char>) -> bool {
    forall|i: int| 0 <= i < s.len() ==> '0' <= #[trigger] s[i] <= '9'
}

/// The number a sequence of digits denotes, most significant first.
pub open spec fn digits_val(s: Seq<char>) -> int
    decreases s.len(),
{
    if s.len() == 0 {
        0
    } else {
        digits_val(s.drop_last()) * 10 + (s.last() as int - '0' as int)
    }
}

/// Ten to the `k`.
pub open spec fn pow10(k: nat) -> int
    decreases k,
{
    if k == 0 {
        1
    } else {
        10 * pow10((k - 1) as nat)
    }
}

/// `s` is a decimal literal whose single dot sits at `d`, with at least one
/// digit on each side.
pub open spec fn dot_split_ok(s: Seq<char>, d: int) -> bool {
    &&& 1 <= d <= s.len() - 2
    &&& s[d] == '.'
    &&& all_digits(s.subrange(0, d))
    &&& all_digits(s.subrange(d + 1, s.len() as int))
}

/// The digit characters of a dotted literal, the dot dropped.
pub open spec fn literal_digits(s: Seq<char>, d: int) -> Seq<char> {
    s.subrange(0, d) + s.subrange(d + 1, s.len() as int)
}

/// `s` is a decimal literal: one or more digits, with at most one embedded
/// dot.
pub open spec fn dec_ok(s: Seq<char>) -> bool {
    (s.len() > 0 && all_digits(s)) || (exists|d: int| #[trigger] dot_split_ok(s, d))
}

/// The numerator a decimal literal denotes: the value of all its digits.
pub open spec fn dec_num(s: Seq<char>) -> int {
    if s.len() > 0 && all_digits(s) {
        digits_val(s)
    } else {
        digits_val(literal_digits(s, choose|d: int| dot_split_ok(s, d)))
    }
}

/// The denominator a decimal literal denotes: ten to its fractional length.
pub open spec fn dec_den(s: Seq<char>) -> int {
    if s.len() > 0 && all_digits(s) {
        1
    } else {
        pow10((s.len() - (choose|d: int| dot_split_ok(s, d)) - 1) as nat)
    }
}

/// A literal has at most one dot position that splits it.
pub proof fn lemma_dot_unique(s: Seq<char>, d1: int, d2: int)
    requires
        dot_split_ok(s, d1),
        dot_split_ok(s, d2),
    ensures
        d1 == d2,
{
    if d1 < d2 {
        assert(s.subrange(0, d2)[d1] == '.');
    } else if d2 < d1 {
        assert(s.subrange(0, d1)[d2] == '.');
    }
}

/// The value of digits is never negative.
pub proof fn lemma_digits_val_nonneg(s: Seq<char>)
    requires
        all_digits(s),
    ensures
        digits_val(s) >= 0,
    decreases s.len(),
{
    if s.len() > 0 {
        assert(all_digits(s.drop_last()));
        lemma_digits_val_nonneg(s.drop_last());
    }
}

/// Powers of ten are positive.
pub proof fn lemma_pow10_pos(k: nat)
    ensures
        pow10(k) >= 1,
    decreases k,
{
    if k > 0 {
        lemma_pow10_pos((k - 1) as nat);
    }
}

/// Powers of ten grow with the exponent.
pub proof fn lemma_pow10_mono(k1: nat, k2: nat)
    requires
        k1 <= k2,
    ensures
        pow10(k1) <= pow10(k2),
    decreases k2,
{
    if k1 < k2 {
        lemma_pow10_mono(k1, (k2 - 1) as nat);
        lemma_pow10_pos((k2 - 1) as nat);
    }
}

/// Splitting a digit string splits its value positionally.
pub proof fn lemma_digits_val_concat(a: Seq<char>, b: Seq<char>)
    ensures
        digits_val(a + b) == digits_val(a) * pow10(b.len()) + digits_val(b),
    decreases b.len(),
{
    if b.len() == 0 {
        assert(a + b =~= a);
    } else {
        assert((a + b).drop_last() =~= a + b.drop_last());
        lemma_digits_val_concat(a, b.drop_last());
        let x = digits_val(a);
        let p = pow10((b.len() - 1) as nat);
        let y = digits_val(b.drop_last());
        let d = b.last() as int - '0' as int;
        assert(digits_val(a + b) == (x * p + y) * 10 + d);
        assert((x * p + y) * 10 == x * (10 * p) + y * 10) by (nonlinear_arith);
        assert(digits_val(b) == y * 10 + d);
    }
}

/// Appending digits never lowers the value.
pub proof fn lemma_digits_val_prefix(a: Seq<char>, b: Seq<char>)
    requires
        all_digits(a),
        all_digits(b),
    ensures
        digits_val(a + b) >= digits_val(a),
{
    lemma_digits_val_concat(a, b);
    lemma_digits_val_nonneg(a);
    lemma_digits_val_nonneg(b);
    lemma_pow10_pos(b.len());
    assert(digits_val(a) * pow10(b.len()) >= digits_val(a)) by (nonlinear_arith)
        requires
            digits_val(a) >= 0,
            pow10(b.len()) >= 1,
    ;
}

/// When the digits read so far already exceed 64 bits, any decimal literal
/// the whole string could be denotes a numerator that also exceeds them.
proof fn lemma_overflow_means_too_big(
    s: Seq<char>,
    i: int,
    seen_dot: bool,
    dp: int,
    num: u64,
    d: int,
)
    requires
        0 <= i < s.len(),
        '0' <= s[i] <= '9',
        d == s[i] as int - '0' as int,
        !seen_dot ==> all_digits(s.subrange(0, i)) && num == digits_val(s.subrange(0, i)),
        seen_dot ==> 1 <= dp < i && s[dp] == '.' && all_digits(s.subrange(0, dp)) && all_digits(
            s.subrange(dp + 1, i),
        ) && num == digits_val(s.subrange(0, dp) + s.subrange(dp + 1, i)),
        num * 10 + d > u64::MAX,
    ensures
        dec_ok(s) ==> dec_num(s) > u64::MAX,
{
    if dec_ok(s) {
        let pd = if seen_dot {
            s.subrange(0, dp) + s.subrange(dp + 1, i)
        } else {
            s.subrange(0, i)
        };
        let pd2 = pd.push(s[i]);
        assert(pd2.drop_last() =~= pd);
        assert(digits_val(pd2) == num * 10 + d);
        assert(all_digits(pd2));
        if s.len() > 0 && all_digits(s) {
            assert(!seen_dot) by {
                if seen_dot {
                    assert(!('0' <= s[dp] <= '9'));
                }
            }
            assert(pd2 =~= s.subrange(0, i + 1));
            let rest = s.subrange(i + 1, s.len() as int);
            assert(all_digits(rest));
            assert(s =~= pd2 + rest);
            lemma_digits_val_prefix(pd2, rest);
        } else {
            let dc = choose|d2: int| dot_split_ok(s, d2);
            assert(dot_split_ok(s, dc));
            if seen_dot {
                assert(dc == dp) by {
                    if dc < dp {
                        assert(s.subrange(0, dp)[dc] == '.');
                    } else if dc > dp {
                        if dp < dc {
                            assert(s.subrange(0, dc)[dp] == '.');
                        }
                    }
                }
                let frac_rest = s.subrange(i, s.len() as int);
                assert(all_digits(frac_rest)) by {
                    assert forall|m: int| 0 <= m < frac_rest.len() implies '0'
                        <= #[trigger] frac_rest[m] <= '9' by {
                        assert(frac_rest[m] == s.subrange(dc + 1, s.len() as int)[i - dc - 1 + m]);
                    }
                }
                let tail = s.subrange(i + 1, s.len() as int);
                assert(all_digits(tail)) by {
                    assert forall|m: int| 0 <= m < tail.len() implies '0' <= #[trigger] tail[m]
                        <= '9' by {
                        assert(tail[m] == frac_rest[m + 1]);
                    }
                }
                assert(literal_digits(s, dc) =~= pd + frac_rest);
                assert(pd2 + tail =~= pd + frac_rest);
                lemma_digits_val_prefix(pd2, tail);
                assert(dec_num(s) == digits_val(pd2 + tail));
            } else {
                assert(dc > i) by {
                    if dc < i {
                        assert(s.subrange(0, i)[dc] == '.');
                    } else if dc == i {
                        assert(!('0' <= s[i] <= '9'));
                    }
                }
                assert(pd2 =~= s.subrange(0, i + 1));
                let head_rest = s.subrange(i + 1, dc);
                assert(all_digits(head_rest)) by {
                    assert forall|m: int| 0 <= m < head_rest.len() implies '0'
                        <= #[trigger] head_rest[m] <= '9' by {
                        assert(head_rest[m] == s.subrange(0, dc)[i + 1 + m]);
                    }
                }
                let frac = s.subrange(dc + 1, s.len() as int);
                assert(literal_digits(s, dc) =~= pd2 + (head_rest + frac));
                assert(all_digits(head_rest + frac));
                lemma_digits_val_prefix(pd2, head_rest + frac);
            }
        }
    }
}

/// When the fractional length read so far already makes the denominator
/// exceed 64 bits, the whole literal's denominator exceeds them too.
proof fn lemma_den_overflow_means_too_big(s: Seq<char>, i: int, dp: int, den: u64)
    requires
        0 <= i < s.len(),
        '0' <= s[i] <= '9',
        1 <= dp < i,
        s[dp] == '.',
        all_digits(s.subrange(0, dp)),
        all_digits(s.subrange(dp + 1, i)),
        den == pow10((i - dp - 1) as nat),
        den * 10 > u64::MAX,
    ensures
        dec_ok(s) ==> dec_den(s) > u64::MAX,
{
    if dec_ok(s) {
        assert(!(s.len() > 0 && all_digits(s))) by {
            assert(!('0' <= s[dp] <= '9'));
        }
        let dc = choose|d2: int| dot_split_ok(s, d2);
        assert(dot_split_ok(s, dc));
        assert(dc == dp) by {
            if dc < dp {
                assert(s.subrange(0, dp)[dc] == '.');
            } else if dc > dp {
                assert(s.subrange(0, dc)[dp] == '.');
            }
        }
        assert(dec_den(s) == pow10((s.len() - dp - 1) as nat));
        assert(pow10((i - dp) as nat) == 10 * pow10((i - dp - 1) as nat));
        lemma_pow10_mono((i - dp) as nat, (s.len() - dp - 1) as nat);
    }
}

/// Parses a decimal literal into an exact rational: the digits over ten to
/// the fractional length. Returns `None` exactly when the string is not a
/// decimal literal or either component overflows 64 bits.
pub fn parse_rational(s: &str) -> (r: Option<Rational>)
    ensures
        r matches Some(x) ==> dec_ok(s@) && x.num == dec_num(s@) && x.den == dec_den(s@) && x.den
            > 0,
        r is None ==> !dec_ok(s@) || dec_num(s@) > u64::MAX || dec_den(s@) > u64::MAX,
{
    let len = s.unicode_len();
    if len == 0 {
        return None;
    }
    let mut num: u64 = 0;
    let mut den: u64 = 1;
    let mut seen_dot = false;
    let ghost mut dp: int = 0;
    let mut i: usize = 0;
    while i < len
        invariant
            len == s@.len(),
            len > 0,
            i <= len,
            !seen_dot ==> {
                &&& all_digits(s@.subrange(0, i as int))
                &&& num == digits_val(s@.subrange(0, i as int))
                &&& den == 1
            },
            seen_dot ==> {
                &&& 1 <= dp < i
                &&& dp <= len - 2
                &&& s@[dp] == '.'
                &&& all_digits(s@.subrange(0, dp))
                &&& all_digits(s@.subrange(dp + 1, i as int))
                &&& num == digits_val(s@.subrange(0, dp) + s@.subrange(dp + 1, i as int))
                &&& den == pow10((i - dp - 1) as nat)
            },
        decreases len - i,
    {
        let c = s.get_char(i);
        if c == '.' {
            if seen_dot || i == 0 || i == len - 1 {
                proof {
                    assert forall|d: int| !dot_split_ok(s@, d) by {
                        if dot_split_ok(s@, d) {
                            if seen_dot {
                                if d < dp {
                                    if d >= 1 {
                                        assert(s@.subrange(0, dp)[d] == '.');
                                    }
                                } else if d > dp {
                                    assert(s@.subrange(d + 1, len as int).len() >= 0);
                                    assert(s@.subrange(0, d)[dp] == '.');
                                } else {
                                    assert(s@.subrange(d + 1, len as int)[i - d - 1] == '.');
                                }
                            } else if i == 0 {
                                assert(s@.subrange(0, d)[0] == '.');
                            } else {
                                if d < i {
                                    assert(s@.subrange(d + 1, len as int)[i - d - 1] == '.');
                                } else if d > i {
                                    assert(s@.subrange(0, d)[i as int] == '.');
                                }
                            }
                        }
                    }
                    assert(!all_digits(s@)) by {
                        assert(!('0' <= s@[i as int] <= '9'));
                    }
                }
                return None;
            }
            proof {
                dp = i as int;
                assert(s@.subrange(0, dp) + s@.subrange(dp + 1, i as int + 1) =~= s@.subrange(
                    0,
                    i as int,
                ));
            }
            seen_dot = true;
        } else if c >= '0' && c <= '9' {
            let d = (c as u32 - 48) as u64;
            let ghost pd = if seen_dot {
                s@.subrange(0, dp) + s@.subrange(dp + 1, i as int)
            } else {
                s@.subrange(0, i as int)
            };
            proof {
                assert(all_digits(pd));
                lemma_digits_val_nonneg(pd);
            }
            let num10 = match num.checked_mul(10) {
                Some(v) => v,
                None => {
                    proof {
                        lemma_overflow_means_too_big(s@, i as int, seen_dot, dp, num, d as int);
                    }
                    return None;
                },
            };
            let new_num = match num10.checked_add(d) {
                Some(v) => v,
                None => {
                    proof {
                        lemma_overflow_means_too_big(s@, i as int, seen_dot, dp, num, d as int);
                    }
                    return None;
                },
            };
            num = new_num;
            proof {
                let pd2 = pd.push(s@[i as int]);
                assert(pd2.drop_last() =~= pd);
                assert(digits_val(pd2) == digits_val(pd) * 10 + d);
                if seen_dot {
                    assert(pd2 =~= s@.subrange(0, dp) + s@.subrange(dp + 1, i + 1));
                } else {
                    assert(pd2 =~= s@.subrange(0, i + 1));
                }
            }
            if seen_dot {
                den = match den.checked_mul(10) {
                    Some(v) => v,
                    None => {
                        proof {
                            lemma_den_overflow_means_too_big(s@, i as int, dp, den);
                        }
                        return None;
                    },
                };
            }
        } else {
            proof {
                assert(!('0' <= s@[i as int] <= '9') && s@[i as int] != '.');
                assert forall|d2: int| !dot_split_ok(s@, d2) by {
                    if dot_split_ok(s@, d2) {
                        if (i as int) < d2 {
                            assert(s@.subrange(0, d2)[i as int] == s@[i as int]);
                        } else if (i as int) > d2 {
                            assert(s@.subrange(d2 + 1, len as int)[i - d2 - 1] == s@[i as int]);
                        }
                    }
                }
                assert(!all_digits(s@)) by {
                    assert(!('0' <= s@[i as int] <= '9'));
                }
            }
            return None;
        }
        i += 1;
    }
    if seen_dot {
        proof {
            assert(dot_split_ok(s@, dp));
            let dc = choose|d: int| dot_split_ok(s@, d);
            lemma_dot_unique(s@, dc, dp);
            assert(!(all_digits(s@))) by {
                assert(!('0' <= s@[dp] <= '9'));
            }
            assert(s@.subrange(dp + 1, len as int) =~= s@.subrange(dp + 1, i as int));
            assert(num == dec_num(s@));
            assert(den == dec_den(s@));
            lemma_pow10_pos((len - dp - 1) as nat);
        }
        Some(Rational { num, den })
    } else {
        proof {
            assert(s@.subrange(0, len as int) =~= s@);
        }
        Some(Rational { num, den })
    }
}

/// Builds a rate request from the five whitespace-separated tokens of a
/// request line; the first token is the literal request marker.
pub fn exchange_rate_request(input: &Vec<String>) -> (r: ExchangeRateRequest)
    requires
        input@.len() == 5,
    ensures
        r.source_exchange@ == input@[1]@,
        r.source_currency@ == input@[2]@,
        r.destination_exchange@ == input@[3]@,
        r.destination_currency@ == input@[4]@,
{
    ExchangeRateRequest {
        source_exchange: input[1].clone(),
        source_currency: input[2].clone(),
        destination_exchange: input[3].clone(),
        destination_currency: input[4].clone(),
    }
}

/// The six tokens of a price update line denote well-formed fields: a
/// parseable timestamp and two positive, in-range decimal rates.
pub open spec fn update_tokens_ok(t: Seq<String>) -> bool {
    &&& rfc3339_nanos(t[0]@) is Some
    &&& dec_ok(t[4]@)
    &&& dec_num(t[4]@) <= u64::MAX
    &&& dec_den(t[4]@) <= u64::MAX
    &&& dec_num(t[4]@) > 0
    &&& dec_ok(t[5]@)
    &&& dec_num(t[5]@) <= u64::MAX
    &&& dec_den(t[5]@) <= u64::MAX
    &&& dec_num(t[5]@) > 0
}

/// The update record six well-formed tokens denote.
pub open spec fn update_of_tokens(t: Seq<String>, u: PriceUpdate) -> bool {
    &&& rfc3339_nanos(t[0]@) == Some(u.timestamp.nanos)
    &&& u.exchange@ == t[1]@
    &&& u.source_currency@ == t[2]@
    &&& u.destination_currency@ == t[3]@
    &&& u.forward_factor.num == dec_num(t[4]@)
    &&& u.forward_factor.den == dec_den(t[4]@)
    &&& u.backward_factor.num == dec_num(t[5]@)
    &&& u.backward_factor.den == dec_den(t[5]@)
    &&& crate::price_update_wf(u)
}

/// Builds a price update from the six whitespace-separated tokens of an
/// update line: timestamp, exchange, source currency, destination currency,
/// forward factor, backward factor. A record whose timestamp or rates do not
/// parse — or whose rates are not positive — is rejected by itself.
pub fn get_node(input_array: &Vec<String>) -> (r: Option<PriceUpdate>)
    requires
        input_array@.len() == 6,
    ensures
        r is Some <==> update_tokens_ok(input_array@),
        r matches Some(u) ==> update_of_tokens(input_array@, u),
{
    let timestamp = get_datetime_from_string(input_array[0].as_str());
    let forward = parse_rational(input_array[4].as_str());
    let backward = parse_rational(input_array[5].as_str());
    match (timestamp, forward, backward) {
        (Some(timestamp), Some(forward), Some(backward)) => {
            if forward.num > 0 && backward.num > 0 {
                Some(
                    PriceUpdate {
                        timestamp,
                        exchange: input_array[1].clone(),
                        source_currency: input_array[2].clone(),
                        destination_currency: input_array[3].clone(),
                        forward_factor: forward,
                        backward_factor: backward,
                    },
                )
            } else {
                None
            }
        },
        _ => None,
    }
}

/// Classifies a tokenized line as a price update: exactly six tokens with
/// well-formed fields give the record, anything else is rejected.
pub fn price_update(input: &Vec<String>) -> (r: Option<PriceUpdate>)
    ensures
        input@.len() != 6 ==> r is None,
        input@.len() == 6 ==> {
            &&& (r is Some <==> update_tokens_ok(input@))
            &&& (r matches Some(u) ==> update_of_tokens(input@, u))
        },
{
    if input.len() == 6 {
        get_node(input)
    } else {
        None
    }
}

} // verus!
