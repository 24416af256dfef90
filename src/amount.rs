//! Amounts in minor units, as the crypto gateway writes them: decimal text.
use vstd::prelude::*;
use vstd::string::StrSliceExecFns;

verus! {

pub open spec fn is_digit(c: char) -> bool {
    '0' <= c <= '9'
}

pub open spec fn all_digits(s: Seq<char>) -> bool {
    forall|i: int| 0 <= i < s.len() ==> is_digit(#[trigger] s[i])
}

/// The number that the decimal digits `s` write.
pub open spec fn decimal_value(s: Seq<char>) -> int
    decreases s.len(),
{
    if s.len() == 0 {
        0
    } else {
        decimal_value(s.drop_last()) * 10 + (s.last() as int - 48)
    }
}

/// The amount written in `s`: one or more decimal digits whose value fits `u128`.
pub open spec fn spec_parse_amount(s: Seq<char>) -> Option<u128> {
    if s.len() > 0 && all_digits(s) && decimal_value(s) <= u128::MAX {
        Some(decimal_value(s) as u128)
    } else {
        None
    }
}

proof fn lemma_value_grows(s: Seq<char>, i: int)
    requires
        0 <= i <= s.len(),
        all_digits(s),
    ensures
        0 <= decimal_value(s.take(i)) <= decimal_value(s),
    decreases s.len() - i,
{
    if i < s.len() {
        let p = s.drop_last();
        assert(all_digits(p)) by {
            assert forall|k: int| 0 <= k < p.len() implies is_digit(#[trigger] p[k]) by {
                assert(p[k] == s[k]);
            }
        }
        lemma_value_grows(p, i);
        assert(p.take(i) =~= s.take(i));
        assert(is_digit(s[s.len() - 1]));
    } else {
        assert(s.take(i) =~= s);
        lemma_value_nonneg(s);
    }
}

proof fn lemma_value_nonneg(s: Seq<char>)
    requires
        all_digits(s),
    ensures
        decimal_value(s) >= 0,
    decreases s.len(),
{
    if s.len() > 0 {
        let p = s.drop_last();
        assert(all_digits(p)) by {
            assert forall|k: int| 0 <= k < p.len() implies is_digit(#[trigger] p[k]) by {
                assert(p[k] == s[k]);
            }
        }
        lemma_value_nonneg(p);
        assert(is_digit(s[s.len() - 1]));
    }
}

/// Parses an amount in minor units: decimal digits only, at least one, no
/// sign, and a value that fits `u128`.
pub fn parse_amount(s: &str) -> (r: Option<u128>)
    ensures
        r == spec_parse_amount(s@),
{
    let n = s.unicode_len();
    let ghost b = s@;
    if n == 0 {
        return None;
    }
    let mut acc: u128 = 0;
    let mut i: usize = 0;
    while i < n
        invariant
            b == s@,
            n == b.len(),
            b.len() > 0,
            0 <= i <= b.len(),
            all_digits(b.take(i as int)),
            acc == decimal_value(b.take(i as int)),
        decreases b.len() - i,
    {
        let c = s.get_char(i);
        proof {
            assert(b.take(i as int + 1).drop_last() =~= b.take(i as int));
        }
        if c < '0' || c > '9' {
            proof {
                assert(b[i as int] == c);
                assert(!is_digit(b[i as int]));
                assert(!all_digits(b));
            }
            return None;
        }
        let ghost next = b.take(i as int + 1);
        proof {
            assert(all_digits(next)) by {
                assert forall|k: int| 0 <= k < next.len() implies is_digit(#[trigger] next[k]) by {
                    if k < i {
                        assert(next[k] == b.take(i as int)[k]);
                    }
                }
            }
        }
        let d = (c as u32 - 48) as u128;
        let step = match acc.checked_mul(10) {
            Some(x) => x.checked_add(d),
            None => None,
        };
        match step {
            Some(v) => {
                acc = v;
            },
            None => {
                proof {
                    assert(next.last() == c);
                    assert(decimal_value(next) == acc * 10 + d);
                    if all_digits(b) {
                        lemma_value_grows(b, i as int + 1);
                    }
                }
                return None;
            },
        }
        i = i + 1;
    }
    proof {
        assert(b.take(b.len() as int) =~= b);
    }
    Some(acc)
}

} // verus!
