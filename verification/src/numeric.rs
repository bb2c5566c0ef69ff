//! Validation of numeric command arguments: whether a string is a decimal
//! integer literal that fits a signed 64-bit value.
use vstd::prelude::*;

verus! {

/// A decimal digit.
pub open spec fn is_digit(c: char) -> bool {
    48 <= c as int <= 57
}

/// The value of one decimal digit.
pub open spec fn digit_val(c: char) -> int {
    c as int - 48
}

/// Every character is a decimal digit.
pub open spec fn all_digits(s: Seq<char>) -> bool {
    forall|i: int| 0 <= i < s.len() ==> is_digit(#[trigger] s[i])
}

/// The value of a digit string, most significant digit first.
pub open spec fn digits_val(s: Seq<char>) -> int
    decreases s.len(),
{
    if s.len() == 0 {
        0
    } else {
        digits_val(s.drop_last()) * 10 + digit_val(s.last())
    }
}

/// The integer a string denotes: an optional sign, then one or more decimal
/// digits, and nothing else.
pub open spec fn int_literal_value(s: Seq<char>) -> Option<int> {
    let signed = s.len() > 0 && (s[0] == '-' || s[0] == '+');
    let digits = if signed {
        s.drop_first()
    } else {
        s
    };
    if digits.len() == 0 || !all_digits(digits) {
        None
    } else if s.len() > 0 && s[0] == '-' {
        Some(-digits_val(digits))
    } else {
        Some(digits_val(digits))
    }
}

/// Whether the string denotes an integer that fits in `i64`.
pub open spec fn is_i64_literal(s: Seq<char>) -> bool {
    match int_literal_value(s) {
        Some(v) => i64::MIN <= v <= i64::MAX,
        None => false,
    }
}

/// A digit string's value is never negative.
proof fn lemma_digits_val_nonneg(s: Seq<char>)
    requires
        all_digits(s),
    ensures
        digits_val(s) >= 0,
    decreases s.len(),
{
    if s.len() > 0 {
        assert(all_digits(s.drop_last()));
        lemma_digits_val_nonneg(s.drop_last());
    }
}

/// Whether `v` is a decimal integer literal within the range of `i64`.
#[verifier::loop_isolation(false)]
fn check_i64_literal(v: &String) -> (r: bool)
    ensures
        r == is_i64_literal(v@),
{
    let s = v.as_str();
    let len = s.unicode_len();
    if len == 0 {
        return false;
    }
    let first = s.get_char(0);
    let neg = first == '-';
    let signed = neg || first == '+';
    let start: usize = if signed {
        1
    } else {
        0
    };
    if len == start {
        return false;
    }
    let ghost digits = if signed {
        v@.drop_first()
    } else {
        v@
    };
    proof {
        assert(digits =~= v@.subrange(start as int, len as int));
    }
    let mut i = start;
    let mut acc: u64 = 0;
    let mut over = false;
    while i < len
        invariant
            start <= i <= len,
            forall|j: int| start <= j < i ==> is_digit(#[trigger] v@[j]),
            !over ==> acc == digits_val(v@.subrange(start as int, i as int)),
            over ==> digits_val(v@.subrange(start as int, i as int)) > 0x8000_0000_0000_0000,
        decreases len - i,
    {
        let c = s.get_char(i);
        let u = c as u32;
        if u < 48 || u > 57 {
            proof {
                assert(!is_digit(v@[i as int]));
                assert(digits[i - start] == v@[i as int]);
                assert(!all_digits(digits));
            }
            return false;
        }
        let d = (u - 48) as u64;
        let ghost prefix = v@.subrange(start as int, i as int);
        let ghost extended = v@.subrange(start as int, i as int + 1);
        proof {
            assert(extended.drop_last() =~= prefix);
            assert(extended.last() == v@[i as int]);
            assert(digits_val(extended) == digits_val(prefix) * 10 + d);
            assert(all_digits(prefix));
            lemma_digits_val_nonneg(prefix);
        }
        if over {
            proof {
                assert(digits_val(extended) > 0x8000_0000_0000_0000);
            }
        } else {
            match acc.checked_mul(10) {
                Some(p) => {
                    match p.checked_add(d) {
                        Some(x) => {
                            acc = x;
                        },
                        None => {
                            over = true;
                        },
                    }
                },
                None => {
                    over = true;
                },
            }
        }
        i += 1;
    }
    proof {
        assert(v@.subrange(start as int, len as int) =~= digits);
        assert(all_digits(digits));
        assert(digits.len() > 0);
        lemma_digits_val_nonneg(digits);
    }
    if over {
        return false;
    }
    if neg {
        acc <= 9223372036854775808u64
    } else {
        acc <= 9223372036854775807u64
    }
}

/// Accepts exactly the strings that denote an integer within `i64`; anything
/// else is rejected with a message naming the offending value.
pub fn is_a_number(v: String) -> (r: Result<(), String>)
    ensures
        r is Ok <==> is_i64_literal(v@),
        r matches Err(m) ==> m@ == "Value '"@ + v@ + "' is not a number!"@,
{
    if check_i64_literal(&v) {
        Ok(())
    } else {
        Err(String::from_str("Value '").concat(v.as_str()).concat("' is not a number!"))
    }
}

} // verus!
