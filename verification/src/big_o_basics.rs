//! The sum of the digits of a text, in one pass.

use crate::basic_big_o::{spec_all_digits, spec_leading_digit_sum, to_digit};
use vstd::prelude::*;
use vstd::std_specs::iter::IteratorSpec;

verus! {

/// The sum of the digits of `string`, which holds digits only.
pub fn char_to_sum(string: &str) -> (sum: u32)
    requires
        spec_all_digits(string@),
        spec_leading_digit_sum(string@) <= u32::MAX,
    ensures
        sum == spec_leading_digit_sum(string@),
{
    broadcast use vstd::string::group_string_axioms;

    let mut sum: u32 = 0;
    assert(string@.skip(0) =~= string@);
    for i in it: string.chars()
        invariant
            it.seq() == string@,
            spec_all_digits(string@),
            sum + spec_leading_digit_sum(string@.skip(it.index() as int))
                == spec_leading_digit_sum(string@),
            spec_leading_digit_sum(string@) <= u32::MAX,
    {
        proof {
            let k = it.index() as int;
            assert(string@.skip(k).drop_first() =~= string@.skip(k + 1));
        }
        sum += to_digit(i, 10).expect("Passed garbage");
    }
    assert(string@.skip(string@.len() as int) =~= Seq::<char>::empty());
    sum
}

} // verus!
