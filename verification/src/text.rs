//! Text utilities shared by the whole crate: moving between `String` and
//! `Vec<char>`, writing integers in decimal, and reading integer literals.

use vstd::prelude::*;

verus! {

broadcast use vstd::std_specs::vec::group_vec_axioms, vstd::seq::group_seq_axioms;

/// Relies on `core::str::Chars` via `Iterator::collect`: the characters of a
/// string, in order.
#[verifier::external_body]
pub fn str_chars(s: &str) -> (r: Vec<char>)
    ensures
        r@ == s@,
{
    s.chars().collect()
}

/// Relies on `String` implementing `FromIterator<char>`: a string made of
/// exactly the given characters, in order.
#[verifier::external_body]
pub fn string_of_chars(v: &Vec<char>) -> (r: String)
    ensures
        r@ == v@,
{
    v.iter().collect()
}

/// Appends every character of `s` to `out`.
pub fn push_chars(out: &mut Vec<char>, s: &str)
    ensures
        final(out)@ == old(out)@ + s@,
{
    let cs = str_chars(s);
    let mut i: usize = 0;
    while i < cs.len()
        invariant
            0 <= i <= cs@.len(),
            cs@ == s@,
            out@ == old(out)@ + cs@.take(i as int),
        decreases cs@.len() - i,
    {
        out.push(cs[i]);
        proof {
            assert(cs@.take(i + 1) =~= cs@.take(i as int).push(cs@[i as int]));
        }
        i = i + 1;
    }
    proof {
        assert(cs@.take(cs@.len() as int) =~= cs@);
    }
}

pub open spec fn is_dec_digit(c: char) -> bool {
    48 <= c as int <= 57
}

pub open spec fn digit_char(n: int) -> char
    recommends
        0 <= n <= 9,
{
    seq!['0', '1', '2', '3', '4', '5', '6', '7', '8', '9'][n]
}

/// The decimal digits of `n`, most significant first.
pub open spec fn dec_digits(n: nat) -> Seq<char>
    decreases n,
{
    if n < 10 {
        seq![digit_char(n as int)]
    } else {
        dec_digits(n / 10) + seq![digit_char((n % 10) as int)]
    }
}

/// The decimal rendering of `i`, with a leading minus sign when negative.
pub open spec fn dec_int(i: int) -> Seq<char> {
    if i < 0 {
        seq!['-'] + dec_digits((-i) as nat)
    } else {
        dec_digits(i as nat)
    }
}

pub fn push_u64_digits(n: u64, out: &mut Vec<char>)
    ensures
        final(out)@ == old(out)@ + dec_digits(n as nat),
    decreases n,
{
    if n < 10 {
        let c: char = match n {
            0 => '0',
            1 => '1',
            2 => '2',
            3 => '3',
            4 => '4',
            5 => '5',
            6 => '6',
            7 => '7',
            8 => '8',
            _ => '9',
        };
        assert(c == digit_char(n as int));
        out.push(c);
        assert(final(out)@ =~= old(out)@ + dec_digits(n as nat));
    } else {
        push_u64_digits(n / 10, out);
        let d = n % 10;
        let c: char = match d {
            0 => '0',
            1 => '1',
            2 => '2',
            3 => '3',
            4 => '4',
            5 => '5',
            6 => '6',
            7 => '7',
            8 => '8',
            _ => '9',
        };
        assert(c == digit_char(d as int));
        out.push(c);
        assert(final(out)@ =~= old(out)@ + dec_digits(n as nat));
    }
}

/// Writes `n` in decimal.
pub fn u64_to_string(n: u64) -> (r: String)
    ensures
        r@ == dec_digits(n as nat),
{
    let mut out: Vec<char> = Vec::new();
    push_u64_digits(n, &mut out);
    string_of_chars(&out)
}

/// Writes `i` in decimal, with a leading minus sign when negative.
pub fn i64_to_string(i: i64) -> (r: String)
    ensures
        r@ == dec_int(i as int),
{
    let mut out: Vec<char> = Vec::new();
    if i < 0 {
        out.push('-');
        let m: u64 = ((-(i as i128)) as u64);
        assert(m as nat == (-(i as int)) as nat);
        push_u64_digits(m, &mut out);
        assert(out@ =~= seq!['-'] + dec_digits((-(i as int)) as nat));
    } else {
        push_u64_digits(i as u64, &mut out);
    }
    string_of_chars(&out)
}

/// The value of a digit string, most significant first.
pub open spec fn digits_value(s: Seq<char>) -> int
    decreases s.len(),
{
    if s.len() == 0 {
        0
    } else {
        digits_value(s.drop_last()) * 10 + (s.last() as int - 48)
    }
}

/// The integer meant by `s`: an optional minus sign and then at least one
/// decimal digit, with nothing else.  Anything in any other shape means no
/// integer at all.
pub open spec fn int_of_literal(s: Seq<char>) -> Option<int> {
    if s.len() > 0 && s[0] == '-' {
        if all_dec_digits(s.drop_first()) && s.len() > 1 {
            Some(-digits_value(s.drop_first()))
        } else {
            None
        }
    } else if all_dec_digits(s) && s.len() > 0 {
        Some(digits_value(s))
    } else {
        None
    }
}

pub open spec fn all_dec_digits(s: Seq<char>) -> bool {
    forall|i: int| 0 <= i < s.len() ==> is_dec_digit(#[trigger] s[i])
}

proof fn lemma_digits_value_bounds(s: Seq<char>)
    requires
        all_dec_digits(s),
    ensures
        0 <= digits_value(s),
        s.len() > 0 ==> digits_value(s) >= digits_value(s.drop_last()),
    decreases s.len(),
{
    if s.len() > 0 {
        assert(all_dec_digits(s.drop_last()));
        lemma_digits_value_bounds(s.drop_last());
        assert(digits_value(s.drop_last()) * 10 >= digits_value(s.drop_last())) by (nonlinear_arith)
            requires
                digits_value(s.drop_last()) >= 0,
        ;
    }
}

proof fn lemma_digits_value_prefix_le(s: Seq<char>, i: int)
    requires
        all_dec_digits(s),
        0 <= i <= s.len(),
    ensures
        digits_value(s.take(i)) <= digits_value(s),
        0 <= digits_value(s.take(i)),
    decreases s.len() - i,
{
    assert(all_dec_digits(s.take(i)));
    lemma_digits_value_bounds(s.take(i));
    if i < s.len() {
        lemma_digits_value_prefix_le(s, i + 1);
        assert(s.take(i + 1).drop_last() =~= s.take(i));
        assert(digits_value(s.take(i + 1)) == digits_value(s.take(i)) * 10 + (s[i] as int - 48));
        assert(digits_value(s.take(i)) * 10 >= digits_value(s.take(i))) by (nonlinear_arith)
            requires
                digits_value(s.take(i)) >= 0,
        ;
    } else {
        assert(s.take(i) =~= s);
    }
}

/// Reads `digits` as a decimal number; `None` when some character is not a
/// digit, the slice is empty, or the value exceeds `bound`.
fn parse_digits(digits: &Vec<char>, from: usize, bound: u64) -> (r: Option<u64>)
    requires
        from <= digits@.len(),
    ensures
        match r {
            Some(v) => {
                &&& all_dec_digits(digits@.skip(from as int))
                &&& digits@.len() > from
                &&& digits_value(digits@.skip(from as int)) == v as int
                &&& v <= bound
            },
            None => {
                ||| !all_dec_digits(digits@.skip(from as int))
                ||| digits@.len() == from
                ||| digits_value(digits@.skip(from as int)) > bound
            },
        },
{
    let ghost whole = digits@.skip(from as int);
    if from == digits.len() {
        return None;
    }
    let mut acc: u64 = 0;
    let mut i: usize = from;
    while i < digits.len()
        invariant
            from <= i <= digits@.len(),
            whole == digits@.skip(from as int),
            all_dec_digits(whole.take(i - from)),
            acc as int == digits_value(whole.take(i - from)),
            acc <= bound,
            bound <= u64::MAX,
        decreases digits@.len() - i,
    {
        let c = digits[i];
        if c < '0' || c > '9' {
            proof {
                assert(whole[i - from] == digits@[i as int]);
                assert(!is_dec_digit(whole[i - from]));
            }
            return None;
        }
        let d: u64 = match c {
            '0' => 0,
            '1' => 1,
            '2' => 2,
            '3' => 3,
            '4' => 4,
            '5' => 5,
            '6' => 6,
            '7' => 7,
            '8' => 8,
            _ => 9,
        };
        assert(d as int == c as int - 48);
        proof {
            assert(whole.take(i - from + 1).drop_last() =~= whole.take(i - from));
            assert(whole.take(i - from + 1).last() == whole[i - from]);
            assert(whole[i - from] == digits@[i as int]);
        }
        if acc as u128 * 10 + d as u128 > bound as u128 {
            // The value can only grow from here on: every further digit
            // multiplies by ten and adds a non-negative amount.
            proof {
                let cur = digits_value(whole.take(i - from + 1));
                assert(cur == acc as int * 10 + d);
                assert(cur > bound);
                assert(all_dec_digits(whole.take(i - from + 1)));
                if all_dec_digits(whole) {
                    lemma_digits_value_prefix_helper(whole, i - from + 1);
                }
            }
            return None;
        }
        let wide: u128 = acc as u128 * 10 + d as u128;
        acc = wide as u64;
        proof {
            assert(acc as int == digits_value(whole.take(i - from + 1)));
        }
        i = i + 1;
    }
    proof {
        assert(whole.take(i - from) =~= whole);
    }
    Some(acc)
}

proof fn lemma_digits_value_prefix_helper(s: Seq<char>, i: int)
    requires
        all_dec_digits(s),
        0 <= i <= s.len(),
    ensures
        digits_value(s) >= digits_value(s.take(i)),
{
    lemma_digits_value_prefix_le(s, i);
}

/// Reads a decimal integer literal, exactly when `int_of_literal` accepts it
/// and its value fits an `i64`.
pub fn parse_i64_chars(s: &Vec<char>) -> (r: Option<i64>)
    ensures
        match r {
            Some(v) => int_of_literal(s@) == Some(v as int),
            None => match int_of_literal(s@) {
                Some(v) => v < i64::MIN || v > i64::MAX,
                None => true,
            },
        },
{
    if s.len() > 0 && s[0] == '-' {
        match parse_digits(s, 1, 9223372036854775808u64) {
            Some(v) => {
                proof {
                    assert(s@.skip(1) == s@.drop_first());
                }
                let r: i64 = (-(v as i128)) as i64;
                Some(r)
            },
            None => {
                proof {
                    assert(s@.skip(1) == s@.drop_first());
                    if int_of_literal(s@) is Some {
                        lemma_digits_value_bounds(s@.drop_first());
                    }
                }
                None
            },
        }
    } else {
        match parse_digits(s, 0, 9223372036854775807u64) {
            Some(v) => {
                proof {
                    assert(s@.skip(0) =~= s@);
                }
                Some(v as i64)
            },
            None => {
                proof {
                    assert(s@.skip(0) =~= s@);
                    if int_of_literal(s@) is Some {
                        lemma_digits_value_bounds(s@);
                    }
                }
                None
            },
        }
    }
}

} // verus!
