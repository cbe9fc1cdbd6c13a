//! Sums over the decimal digits of a text, written with loops of
//! different cost.

use vstd::prelude::*;
use vstd::std_specs::iter::IteratorSpec;

verus! {

/// The value of `c` as a digit in base `radix`, for a base up to ten:
/// the characters `'0'`, `'1'`, ... below the base count, and no others.
pub open spec fn spec_digit_in(c: char, radix: u32) -> Option<u32> {
    if 48 <= c as u32 && (c as u32) < 48 + radix {
        Some((c as u32 - 48) as u32)
    } else {
        None
    }
}

/// The value of `c` as a decimal digit.
pub open spec fn spec_digit(c: char) -> Option<u32> {
    spec_digit_in(c, 10)
}

/// Every character of `s` is a decimal digit.
pub open spec fn spec_all_digits(s: Seq<char>) -> bool {
    forall|i: int| 0 <= i < s.len() ==> (#[trigger] spec_digit(s[i])) is Some
}

/// The sum of the decimal digits of `s` that stand before its first
/// character that is no digit; of all of them where every character is a
/// digit.
pub open spec fn spec_leading_digit_sum(s: Seq<char>) -> nat
    decreases s.len(),
{
    if s.len() == 0 {
        0
    } else {
        match spec_digit(s[0]) {
            None => 0,
            Some(d) => d as nat + spec_leading_digit_sum(s.drop_first()),
        }
    }
}

/// `char::to_digit` for a base from two to ten. In such a base the digits
/// are the characters from `'0'` up to the base, valued by their distance
/// from `'0'`; any other character gives nothing.
#[verifier::external_body]
pub(crate) fn to_digit(c: char, radix: u32) -> (digit: Option<u32>)
    requires
        2 <= radix <= 10,
    ensures
        digit == spec_digit_in(c, radix),
{
    c.to_digit(radix)
}

/// Going one character further into `s` takes its digit out of what
/// is still to be summed.
proof fn lemma_skip_step(s: Seq<char>, k: int)
    requires
        0 <= k < s.len(),
    ensures
        s.skip(k)[0] == s[k],
        s.skip(k).drop_first() == s.skip(k + 1),
{
    assert(s.skip(k).drop_first() =~= s.skip(k + 1));
}

/// The sum of the digits of `text`, which holds digits only.
pub fn sum_char_codes(text: &str) -> (sum: u32)
    requires
        spec_all_digits(text@),
        spec_leading_digit_sum(text@) <= u32::MAX,
    ensures
        sum == spec_leading_digit_sum(text@),
{
    broadcast use vstd::string::group_string_axioms;

    let mut sum: u32 = 0;
    assert(text@.skip(0) =~= text@);
    for i in it: text.chars()
        invariant
            it.seq() == text@,
            spec_all_digits(text@),
            sum + spec_leading_digit_sum(text@.skip(it.index() as int)) == spec_leading_digit_sum(
                text@,
            ),
            spec_leading_digit_sum(text@) <= u32::MAX,
    {
        proof {
            lemma_skip_step(text@, it.index() as int);
        }
        let adder = to_digit(i, 10).expect("Please only give me numbers");
        sum += adder;
    }
    assert(text@.skip(text@.len() as int) =~= Seq::<char>::empty());
    sum
}

/// The sum of the digits of `text`, which holds digits only; the text is
/// read a second time to no effect.
pub fn sum_char_codes_two_loops(text: &str) -> (sum: u32)
    requires
        spec_all_digits(text@),
        spec_leading_digit_sum(text@) <= u32::MAX,
    ensures
        sum == spec_leading_digit_sum(text@),
{
    broadcast use vstd::string::group_string_axioms;

    let mut sum: u32 = 0;
    assert(text@.skip(0) =~= text@);
    for i in it: text.chars()
        invariant
            it.seq() == text@,
            spec_all_digits(text@),
            sum + spec_leading_digit_sum(text@.skip(it.index() as int)) == spec_leading_digit_sum(
                text@,
            ),
            spec_leading_digit_sum(text@) <= u32::MAX,
    {
        proof {
            lemma_skip_step(text@, it.index() as int);
        }
        let adder = to_digit(i, 10).expect("Please only give me numbers");
        sum += adder;
    }
    assert(text@.skip(text@.len() as int) =~= Seq::<char>::empty());
    for i in it: text.chars()
        invariant
            it.seq() == text@,
            spec_all_digits(text@),
    {
        assert(spec_digit(text@[it.index() as int]) is Some);
        let _adder = to_digit(i, 10).expect("Please only give me numbers");
    }
    sum
}

/// The sum of the digits of `text` up to its first character that is no
/// digit.
pub fn sum_char_codes_example_3(text: &str) -> (sum: u32)
    requires
        spec_leading_digit_sum(text@) <= u32::MAX,
    ensures
        sum == spec_leading_digit_sum(text@),
{
    broadcast use vstd::string::group_string_axioms;

    let mut sum: u32 = 0;
    assert(text@.skip(0) =~= text@);
    for i in it: text.chars()
        invariant
            it.seq() == text@,
            sum + spec_leading_digit_sum(text@.skip(it.index() as int)) == spec_leading_digit_sum(
                text@,
            ),
            spec_leading_digit_sum(text@) <= u32::MAX,
    {
        proof {
            lemma_skip_step(text@, it.index() as int);
        }
        let adder = to_digit(i, 10);
        match adder {
            Some(to_add) => {
                sum += to_add;
            },
            None => {
                return sum;
            },
        }
    }
    assert(text@.skip(text@.len() as int) =~= Seq::<char>::empty());
    sum
}

/// The sum of the digits of `text` up to its first character that is no
/// digit, each digit counted once for every character of the text.
#[allow(non_snake_case)]
pub fn sum_char_codes_O_n2(text: &str) -> (sum: u32)
    requires
        text@.len() * spec_leading_digit_sum(text@) <= u32::MAX,
    ensures
        sum == text@.len() * spec_leading_digit_sum(text@),
{
    broadcast use vstd::string::group_string_axioms;

    let mut sum: u32 = 0;
    let ghost n: nat = text@.len();
    let ghost total: nat = spec_leading_digit_sum(text@);
    let ghost mut acc: nat = 0;
    assert(n * 0 == 0) by (nonlinear_arith);
    assert(text@.skip(0) =~= text@);
    for i in outer: text.chars()
        invariant
            outer.seq() == text@,
            n == text@.len(),
            total == spec_leading_digit_sum(text@),
            n * total <= u32::MAX,
            sum == n * acc,
            acc + spec_leading_digit_sum(text@.skip(outer.index() as int)) == total,
    {
        proof {
            lemma_skip_step(text@, outer.index() as int);
        }
        let ghost step: nat = match spec_digit(i) {
            Some(d) => d as nat,
            None => 0,
        };
        assert(0 * step == 0) by (nonlinear_arith);
        assert(n * (acc + step) <= n * total) by (nonlinear_arith)
            requires
                acc + step <= total,
        ;
        for _j in inner: text.chars()
            invariant
                inner.seq() == text@,
                n == text@.len(),
                total == spec_leading_digit_sum(text@),
                sum == n * acc + inner.index() * step,
                n * (acc + step) <= u32::MAX,
                spec_digit(i) is Some ==> step == spec_digit(i).unwrap(),
                spec_digit(i) is None ==> step == 0 && acc == total,
                inner.index() > 0 ==> spec_digit(i) is Some,
        {
            let adder = to_digit(i, 10);
            match adder {
                Some(to_add) => {
                    assert(n * acc + (inner.index() + 1) * step <= n * (acc + step) && (
                    inner.index() + 1) * step == inner.index() * step + step) by (nonlinear_arith)
                        requires
                            inner.index() + 1 <= n,
                    ;
                    sum += to_add;
                },
                None => {
                    assert(inner.index() * step == 0) by (nonlinear_arith)
                        requires
                            step == 0,
                    ;
                    return sum;
                },
            };
        }
        proof {
            assert(n * acc + n * step == n * (acc + step)) by (nonlinear_arith);
            acc = acc + step;
        }
    }
    assert(text@.skip(text@.len() as int) =~= Seq::<char>::empty());
    sum
}

} // verus!
