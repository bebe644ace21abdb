//! Decimal text: rendering integers and reading integer-shaped keys.
//!
//! Key classification depends on three exact text forms: the decimal
//! rendering of a signed integer, the signed-integer reading of a string
//! (mirroring how the guest's string keys are probed), and the canonical
//! unsigned reading that decides whether a host object key is
//! numeric-looking.

use vstd::prelude::*;
use vstd::string::StrSliceExecFns;
use vstd::string::StringExecFns;

verus! {

/// The character for one decimal digit.
pub open spec fn digit_char(d: int) -> char {
    if d == 0 {
        '0'
    } else if d == 1 {
        '1'
    } else if d == 2 {
        '2'
    } else if d == 3 {
        '3'
    } else if d == 4 {
        '4'
    } else if d == 5 {
        '5'
    } else if d == 6 {
        '6'
    } else if d == 7 {
        '7'
    } else if d == 8 {
        '8'
    } else {
        '9'
    }
}

/// Whether a character is a decimal digit.
pub open spec fn is_digit_char(c: char) -> bool {
    48 <= c as u32 <= 57
}

/// The numeric value of a digit character.
pub open spec fn digit_val(c: char) -> int {
    c as u32 - 48
}

/// The number a digit sequence denotes, most significant digit first.
pub open spec fn digits_value(s: Seq<char>) -> int
    decreases s.len(),
{
    if s.len() == 0 {
        0
    } else {
        digits_value(s.drop_last()) * 10 + digit_val(s.last())
    }
}

/// Whether every character of `s` is a decimal digit.
pub open spec fn all_digits(s: Seq<char>) -> bool {
    forall|i: int| 0 <= i < s.len() ==> is_digit_char(s[i])
}

/// The digits of a positive number, empty for zero.
pub open spec fn dec_rec(n: nat) -> Seq<char>
    decreases n,
{
    if n == 0 {
        Seq::empty()
    } else {
        dec_rec(n / 10).push(digit_char(n as int % 10))
    }
}

/// The decimal rendering of an unsigned number.
pub open spec fn spec_u64_decimal(n: nat) -> Seq<char> {
    if n == 0 {
        seq!['0']
    } else {
        dec_rec(n)
    }
}

/// The decimal rendering of a signed number.
pub open spec fn spec_i64_decimal(i: int) -> Seq<char> {
    if i < 0 {
        seq!['-'] + spec_u64_decimal((-i) as nat)
    } else {
        spec_u64_decimal(i as nat)
    }
}

/// The signed-integer reading of a string: an optional sign, then at least
/// one digit, denoting a number that fits the signed 64-bit range. This is
/// exactly the shape of string the guest's integer probe accepts.
pub open spec fn spec_parse_i64(s: Seq<char>) -> Option<int> {
    if s.len() > 0 && s[0] == '-' {
        let ds = s.subrange(1, s.len() as int);
        if ds.len() > 0 && all_digits(ds) && -digits_value(ds) >= i64::MIN {
            Some(-digits_value(ds))
        } else {
            None
        }
    } else if s.len() > 0 && s[0] == '+' {
        let ds = s.subrange(1, s.len() as int);
        if ds.len() > 0 && all_digits(ds) && digits_value(ds) <= i64::MAX {
            Some(digits_value(ds))
        } else {
            None
        }
    } else if s.len() > 0 && all_digits(s) && digits_value(s) <= i64::MAX {
        Some(digits_value(s))
    } else {
        None
    }
}

/// A successful signed reading always lies in the signed 64-bit range.
pub proof fn lemma_parse_i64_range(s: Seq<char>)
    requires
        spec_parse_i64(s) is Some,
    ensures
        i64::MIN <= spec_parse_i64(s)->Some_0 <= i64::MAX,
{
    if s.len() > 0 && s[0] == '-' {
        let ds = s.subrange(1, s.len() as int);
        lemma_digits_value_nonneg(ds);
    } else if s.len() > 0 && s[0] == '+' {
        let ds = s.subrange(1, s.len() as int);
        lemma_digits_value_nonneg(ds);
    } else {
        lemma_digits_value_nonneg(s);
    }
}

/// The canonical unsigned reading that makes a host object key
/// numeric-looking: digits only, no superfluous leading zero, and a value
/// within the host's index range.
pub open spec fn spec_canonical_u32(s: Seq<char>) -> Option<int> {
    if s.len() > 0 && all_digits(s) && (s[0] != '0' || s.len() == 1) && digits_value(s)
        <= u32::MAX {
        Some(digits_value(s))
    } else {
        None
    }
}

/// A successful canonical reading lies in the unsigned 32-bit range.
pub proof fn lemma_canonical_u32_range(s: Seq<char>)
    requires
        spec_canonical_u32(s) is Some,
    ensures
        0 <= spec_canonical_u32(s)->Some_0 <= u32::MAX,
{
    lemma_digits_value_nonneg(s);
}

/// The digit characters of `s` (digit values, least significant first),
/// read back most significant first.
pub open spec fn rev_digit_chars(s: Seq<u8>) -> Seq<char>
    decreases s.len(),
{
    if s.len() == 0 {
        Seq::empty()
    } else {
        rev_digit_chars(s.drop_first()) + seq![digit_char(s.first() as int)]
    }
}

proof fn lemma_rev_push(s: Seq<u8>, d: u8)
    ensures
        rev_digit_chars(s.push(d)) == seq![digit_char(d as int)] + rev_digit_chars(s),
    decreases s.len(),
{
    let p = s.push(d);
    if s.len() == 0 {
        reveal_with_fuel(rev_digit_chars, 2);
        assert(p.first() == d);
        assert(p.drop_first() =~= Seq::<u8>::empty());
        assert(rev_digit_chars(p) =~= seq![digit_char(d as int)] + rev_digit_chars(s));
    } else {
        assert(p.first() == s.first());
        assert(p.drop_first() =~= s.drop_first().push(d));
        lemma_rev_push(s.drop_first(), d);
        assert(rev_digit_chars(p) == rev_digit_chars(s.drop_first().push(d)) + seq![
            digit_char(s.first() as int),
        ]);
        assert(rev_digit_chars(p) =~= seq![digit_char(d as int)] + rev_digit_chars(s));
    }
}

/// A digit sequence denotes a number that is not negative.
pub proof fn lemma_digits_value_nonneg(s: Seq<char>)
    requires
        all_digits(s),
    ensures
        digits_value(s) >= 0,
    decreases s.len(),
{
    if s.len() > 0 {
        assert(all_digits(s.drop_last()));
        lemma_digits_value_nonneg(s.drop_last());
        assert(digits_value(s.drop_last()) * 10 >= 0) by (nonlinear_arith)
            requires
                digits_value(s.drop_last()) >= 0,
        ;
    }
}

/// Extending a digit sequence never shrinks the number it denotes.
pub proof fn lemma_digits_value_prefix(s: Seq<char>, k: int)
    requires
        all_digits(s),
        0 <= k <= s.len(),
    ensures
        digits_value(s) >= digits_value(s.subrange(0, k)),
    decreases s.len() - k,
{
    if k < s.len() {
        assert(all_digits(s.drop_last()));
        lemma_digits_value_nonneg(s.drop_last());
        lemma_digits_value_prefix(s.drop_last(), k);
        assert(s.drop_last().subrange(0, k) =~= s.subrange(0, k));
        let x = digits_value(s.drop_last());
        assert(x * 10 + digit_val(s.last()) >= x) by (nonlinear_arith)
            requires
                x >= 0,
                digit_val(s.last()) >= 0,
        ;
    } else {
        assert(s.subrange(0, k) =~= s);
    }
}

/// Append one digit character to a string under construction.
fn append_digit(s: &mut String, d: u8)
    requires
        d < 10,
    ensures
        final(s)@ == old(s)@ + seq![digit_char(d as int)],
{
    proof {
        reveal_strlit("0");
        reveal_strlit("1");
        reveal_strlit("2");
        reveal_strlit("3");
        reveal_strlit("4");
        reveal_strlit("5");
        reveal_strlit("6");
        reveal_strlit("7");
        reveal_strlit("8");
        reveal_strlit("9");
    }
    match d {
        0 => {
            s.append("0");
            proof {
                assert(s@ =~= old(s)@ + seq![digit_char(0)]);
            }
        },
        1 => {
            s.append("1");
            proof {
                assert(s@ =~= old(s)@ + seq![digit_char(1)]);
            }
        },
        2 => {
            s.append("2");
            proof {
                assert(s@ =~= old(s)@ + seq![digit_char(2)]);
            }
        },
        3 => {
            s.append("3");
            proof {
                assert(s@ =~= old(s)@ + seq![digit_char(3)]);
            }
        },
        4 => {
            s.append("4");
            proof {
                assert(s@ =~= old(s)@ + seq![digit_char(4)]);
            }
        },
        5 => {
            s.append("5");
            proof {
                assert(s@ =~= old(s)@ + seq![digit_char(5)]);
            }
        },
        6 => {
            s.append("6");
            proof {
                assert(s@ =~= old(s)@ + seq![digit_char(6)]);
            }
        },
        7 => {
            s.append("7");
            proof {
                assert(s@ =~= old(s)@ + seq![digit_char(7)]);
            }
        },
        8 => {
            s.append("8");
            proof {
                assert(s@ =~= old(s)@ + seq![digit_char(8)]);
            }
        },
        _ => {
            s.append("9");
            proof {
                assert(s@ =~= old(s)@ + seq![digit_char(9)]);
            }
        },
    }
}

/// Render an unsigned number in decimal.
pub fn u64_to_decimal(n: u64) -> (r: String)
    ensures
        r@ == spec_u64_decimal(n as nat),
{
    if n == 0 {
        let r = String::from_str("0");
        proof {
            reveal_strlit("0");
            assert(r@ =~= spec_u64_decimal(0));
        }
        return r;
    }
    let mut digits: Vec<u8> = Vec::new();
    let mut cur: u64 = n;
    while cur > 0
        invariant
            dec_rec(n as nat) == dec_rec(cur as nat) + rev_digit_chars(digits@),
            forall|i: int| 0 <= i < digits@.len() ==> digits@[i] < 10,
            n > 0,
        decreases cur,
    {
        let d: u8 = (cur % 10) as u8;
        proof {
            lemma_rev_push(digits@, d);
        }
        digits.push(d);
        cur = cur / 10;
        proof {
            assert(dec_rec(n as nat) =~= dec_rec(cur as nat) + rev_digit_chars(digits@));
        }
    }
    let mut r = String::new();
    let mut j: usize = digits.len();
    proof {
        assert(digits@.subrange(j as int, digits@.len() as int) =~= Seq::<u8>::empty());
    }
    while j > 0
        invariant
            j <= digits@.len(),
            forall|i: int| 0 <= i < digits@.len() ==> digits@[i] < 10,
            r@ == rev_suffix_chars(digits@, j as int),
        decreases j,
    {
        j = j - 1;
        append_digit(&mut r, digits[j]);
        proof {
            lemma_rev_suffix_step(digits@, j as int);
        }
    }
    proof {
        assert(rev_suffix_chars(digits@, 0) == rev_digit_chars(digits@)) by {
            assert(digits@.subrange(0, digits@.len() as int) =~= digits@);
        }
        assert(r@ == dec_rec(n as nat));
    }
    r
}

/// The readback of the digit suffix starting at position `j`.
pub open spec fn rev_suffix_chars(s: Seq<u8>, j: int) -> Seq<char> {
    rev_digit_chars(s.subrange(j, s.len() as int))
}

proof fn lemma_rev_suffix_step(s: Seq<u8>, j: int)
    requires
        0 <= j < s.len(),
    ensures
        rev_suffix_chars(s, j) == rev_suffix_chars(s, j + 1) + seq![digit_char(s[j] as int)],
{
    let suf = s.subrange(j, s.len() as int);
    assert(suf.first() == s[j]);
    assert(suf.drop_first() =~= s.subrange(j + 1, s.len() as int));
}

/// Render a signed number in decimal.
pub fn i64_to_decimal(i: i64) -> (r: String)
    ensures
        r@ == spec_i64_decimal(i as int),
{
    if i >= 0 {
        u64_to_decimal(i as u64)
    } else {
        let mag: u64 = if i == i64::MIN {
            9223372036854775808
        } else {
            (-i) as u64
        };
        let mut r = String::from_str("-");
        proof {
            reveal_strlit("-");
            assert(r@ =~= seq!['-']);
        }
        let tail = u64_to_decimal(mag);
        r.append(tail.as_str());
        r
    }
}

/// Read a string as a signed 64-bit integer, exactly as the guest's
/// string-key probe does: an optional sign, then digits, rejecting
/// anything else and anything out of range.
pub fn parse_i64(s: &str) -> (r: Option<i64>)
    ensures
        match spec_parse_i64(s@) {
            Some(v) => r == Some(v as i64),
            None => r is None,
        },
{
    let len = s.unicode_len();
    if len == 0 {
        return None;
    }
    let c0 = s.get_char(0);
    let signed: bool = c0 == '+' || c0 == '-';
    let neg: bool = c0 == '-';
    let start: usize = if signed {
        1
    } else {
        0
    };
    let ghost ds = if signed {
        s@.subrange(1, s@.len() as int)
    } else {
        s@
    };
    if start >= len {
        // a bare sign has no digits
        return None;
    }
    let limit: u64 = if neg {
        9223372036854775808
    } else {
        9223372036854775807
    };
    let mut acc: u64 = 0;
    let mut i: usize = start;
    proof {
        assert(ds.subrange(0, 0) =~= Seq::<char>::empty());
    }
    while i < len
        invariant
            start <= i <= len,
            0 < len == s@.len(),
            signed == (s@[0] == '+' || s@[0] == '-'),
            neg == (s@[0] == '-'),
            start == if signed { 1int } else { 0int },
            ds == if signed { s@.subrange(1, s@.len() as int) } else { s@ },
            acc <= limit,
            limit == if neg { 9223372036854775808u64 } else { 9223372036854775807u64 },
            acc == digits_value(ds.subrange(0, i - start)),
            all_digits(ds.subrange(0, i - start)),
        decreases len - i,
    {
        let c = s.get_char(i);
        proof {
            assert(ds[i - start] == s@[i as int]);
        }
        let cv = c as u32;
        if cv < 48 || cv > 57 {
            proof {
                assert(!is_digit_char(ds[i - start]));
                assert(!all_digits(ds));
                assert(spec_parse_i64(s@) is None);
            }
            return None;
        }
        let d: u64 = ((cv - 48) as u8) as u64;
        proof {
            assert(d == digit_val(c));
        }
        let ghost pre = ds.subrange(0, i - start);
        let ghost ext = ds.subrange(0, i + 1 - start);
        proof {
            assert(ext.drop_last() =~= pre);
            assert(ext.last() == ds[i - start]);
            assert(digits_value(ext) == acc * 10 + d);
        }
        if acc > (limit - d) / 10 {
            // the digits read so far already exceed the range
            proof {
                assert(acc * 10 + d > limit) by (nonlinear_arith)
                    requires
                        acc > (limit - d) / 10,
                        d <= 9,
                        limit >= d,
                ;
                if all_digits(ds) {
                    lemma_digits_value_prefix(ds, i + 1 - start);
                    assert(digits_value(ds) > limit);
                    if neg {
                        assert(spec_parse_i64(s@) is None);
                    } else {
                        assert(spec_parse_i64(s@) is None);
                    }
                }
            }
            return None;
        }
        proof {
            assert(acc * 10 + d <= limit) by (nonlinear_arith)
                requires
                    acc <= (limit - d) / 10,
                    d <= 9,
                    limit >= d,
            ;
        }
        acc = acc * 10 + d;
        i = i + 1;
        proof {
            assert(ds.subrange(0, i - start) =~= ext);
        }
    }
    proof {
        assert(ds.subrange(0, len - start) =~= ds);
        assert(acc == digits_value(ds));
        assert(all_digits(ds));
        lemma_digits_value_nonneg(ds);
    }
    if neg {
        if acc == 9223372036854775808 {
            Some(i64::MIN)
        } else {
            Some(-(acc as i64))
        }
    } else {
        Some(acc as i64)
    }
}

/// Read a host object key as a canonical array index, deciding whether it
/// is numeric-looking: digits only, no superfluous leading zero, within
/// the host's index range.
pub fn parse_index(s: &str) -> (r: Option<u32>)
    ensures
        match spec_canonical_u32(s@) {
            Some(v) => r == Some(v as u32),
            None => r is None,
        },
{
    let len = s.unicode_len();
    if len == 0 {
        return None;
    }
    let c0 = s.get_char(0);
    if c0 == '0' && len > 1 {
        return None;
    }
    let mut acc: u64 = 0;
    let mut i: usize = 0;
    proof {
        assert(s@.subrange(0, 0) =~= Seq::<char>::empty());
    }
    while i < len
        invariant
            0 <= i <= len,
            len == s@.len(),
            acc <= u32::MAX,
            acc == digits_value(s@.subrange(0, i as int)),
            all_digits(s@.subrange(0, i as int)),
        decreases len - i,
    {
        let c = s.get_char(i);
        let cv = c as u32;
        if cv < 48 || cv > 57 {
            proof {
                assert(!is_digit_char(s@[i as int]));
                assert(!all_digits(s@));
            }
            return None;
        }
        let d: u64 = ((cv - 48) as u8) as u64;
        proof {
            assert(d == digit_val(c));
        }
        let ghost pre = s@.subrange(0, i as int);
        let ghost ext = s@.subrange(0, i + 1);
        proof {
            assert(ext.drop_last() =~= pre);
            assert(ext.last() == s@[i as int]);
            assert(digits_value(ext) == acc * 10 + d);
        }
        if acc > (4294967295u64 - d) / 10 {
            proof {
                assert(acc * 10 + d > 4294967295u64) by (nonlinear_arith)
                    requires
                        acc > (4294967295u64 - d) / 10,
                        d <= 9,
                ;
                if all_digits(s@) {
                    lemma_digits_value_prefix(s@, i + 1);
                    assert(digits_value(s@) > u32::MAX);
                }
            }
            return None;
        }
        proof {
            assert(acc * 10 + d <= 4294967295u64) by (nonlinear_arith)
                requires
                    acc <= (4294967295u64 - d) / 10,
                    d <= 9,
            ;
        }
        acc = acc * 10 + d;
        i = i + 1;
        proof {
            assert(s@.subrange(0, i as int) =~= ext);
        }
    }
    proof {
        assert(s@.subrange(0, len as int) =~= s@);
        lemma_digits_value_nonneg(s@);
    }
    Some(acc as u32)
}

} // verus!
