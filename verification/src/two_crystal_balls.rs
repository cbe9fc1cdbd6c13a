//! Finding where an array of flags turns from unset to set with two
//! probes: one that jumps ahead by a fixed step until it lands on a set
//! flag, and one that walks from behind the last jump that missed up to
//! the first set flag.

use vstd::prelude::*;

verus! {

/// `root` is the integer part of the square root of `n`.
pub open spec fn spec_is_floor_sqrt(n: int, root: int) -> bool {
    0 <= root && root * root <= n < (root + 1) * (root + 1)
}

/// Once a flag of `breaks` is set, every later one is set too.
pub open spec fn spec_monotone(breaks: Seq<bool>) -> bool {
    forall|i: int, j: int| 0 <= i <= j < breaks.len() && breaks[i] ==> breaks[j]
}

/// The flag at `k` is set and the one just before it, if there is one, is
/// not.
pub open spec fn spec_is_boundary(breaks: Seq<bool>, k: int) -> bool {
    0 <= k < breaks.len() && breaks[k] && (k == 0 || !breaks[k - 1])
}

/// The flag at `k` is set and none before it is.
pub open spec fn spec_is_first_set(breaks: Seq<bool>, k: int) -> bool {
    0 <= k < breaks.len() && breaks[k] && forall|j: int| 0 <= j < k ==> !breaks[j]
}

/// No flag of `breaks` is set.
pub open spec fn spec_none_set(breaks: Seq<bool>) -> bool {
    forall|i: int| 0 <= i < breaks.len() ==> !breaks[i]
}

/// The first probe looks at position `p` of an array of `len` flags when
/// it jumps by `step`: at every multiple of the step from the step itself
/// on, and at the last position.
pub open spec fn spec_is_probe(len: int, step: int, p: int) -> bool {
    0 <= p < len && (p == len - 1 || (p >= step && p % step == 0))
}

/// No position before `h` that the first probe looks at is set.
pub open spec fn spec_probes_unset_before(breaks: Seq<bool>, step: int, h: int) -> bool {
    forall|p: int|
        0 <= p < h && #[trigger] spec_is_probe(breaks.len() as int, step, p) ==> !breaks[p]
}

/// The positions from `low` up to, not including, `h` are the ones that
/// the first probe has jumped over on its way to `h`.
pub open spec fn spec_is_window(len: int, step: int, low: int, h: int) -> bool {
    &&& 0 <= low <= h
    &&& forall|q: int| low <= q < h ==> !#[trigger] spec_is_probe(len, step, q)
    &&& low == 0 || spec_is_probe(len, step, low - 1)
}

/// `k` is what the two probes find with jumps of `step`: the first probe
/// hits a set flag at `h` and at none of its earlier positions, and `k` is
/// the first set flag among those it jumped over on its way there and `h`
/// itself.
pub open spec fn spec_found_at(breaks: Seq<bool>, step: int, low: int, h: int, k: int) -> bool {
    &&& spec_is_probe(breaks.len() as int, step, h)
    &&& breaks[h]
    &&& spec_probes_unset_before(breaks, step, h)
    &&& spec_is_window(breaks.len() as int, step, low, h)
    &&& low <= k <= h
    &&& breaks[k]
    &&& forall|j: int| low <= j < k ==> !breaks[j]
}

/// `found` is what the two probes report with jumps of `step`: nothing
/// exactly where the first probe hits no set flag, and else the first set
/// flag of the stretch that its last jump passed over.
pub open spec fn spec_probed(breaks: Seq<bool>, step: int, found: Option<usize>) -> bool {
    &&& found is None ==> spec_probes_unset_before(breaks, step, breaks.len() as int)
    &&& found is Some ==> exists|low: int, h: int| #[trigger]
        spec_found_at(breaks, step, low, h, found.unwrap() as int)
}

/// Between a multiple of `step` and the next one there is none, and the
/// next one is a step further.
proof fn lemma_multiples(a: int, step: int)
    requires
        step > 0,
        a >= 0,
        a % step == 0,
    ensures
        (a + step) % step == 0,
        forall|q: int| a < q < a + step ==> #[trigger] (q % step) != 0,
{
    vstd::arithmetic::div_mod::lemma_mod_add_multiples_vanish(a, step);
    assert forall|q: int| a < q < a + step implies #[trigger] (q % step) != 0 by {
        let d = q - a;
        vstd::arithmetic::div_mod::lemma_add_mod_noop(a, d, step);
        vstd::arithmetic::div_mod::lemma_small_mod(d as nat, step as nat);
    }
}

/// The integer part of the square root of `n`, found by counting up.
pub fn floor_sqrt(n: usize) -> (root: usize)
    ensures
        spec_is_floor_sqrt(n as int, root as int),
{
    let mut root: usize = 0;
    loop
        invariant
            root * root <= n,
        decreases n - root * root,
    {
        assert(root < 0x1_0000_0000) by (nonlinear_arith)
            requires
                root * root <= n,
                n <= 0xffff_ffff_ffff_ffff,
        ;
        let next: u128 = root as u128 + 1;
        assert(next * next <= 0x1_0000_0000_0000_0000) by (nonlinear_arith)
            requires
                0 <= next <= 0x1_0000_0000,
        ;
        if next * next > n as u128 {
            return root;
        }
        assert((root + 1) * (root + 1) > root * root && root + 1 <= (root + 1) * (root + 1))
            by (nonlinear_arith)
            requires
                0 <= root,
        ;
        root = root + 1;
    }
}

/// Looks for the place where `breaks` turns from unset to set, with jumps
/// of `step_size`. The first probe looks at `step_size`, twice that, and
/// so on, and at the last flag where a jump would pass the end; the
/// second walks from behind the last jump that missed up to the first set
/// flag.
///
/// What is reported is always a set flag whose predecessor is not set, and
/// nothing is reported only where the last flag is not set. Where the
/// flags are unset up to some place and set from there on, this is the
/// first set flag, and nothing exactly where no flag is set.
pub fn two_crystal_balls_with_step(breaks: &[bool], step_size: usize) -> (found: Option<usize>)
    requires
        step_size >= 1,
    ensures
        spec_probed(breaks@, step_size as int, found),
        found matches Some(k) ==> spec_is_boundary(breaks@, k as int),
        found is None ==> breaks@.len() == 0 || !breaks@.last(),
        spec_monotone(breaks@) ==> (found is None <==> spec_none_set(breaks@)),
        spec_monotone(breaks@) ==> (found matches Some(k) ==> spec_is_first_set(
            breaks@,
            k as int,
        )),
{
    let len = breaks.len();
    if len == 0 {
        return None;
    }
    let last = len - 1;
    let mut low: usize = 0;
    let mut at: usize = if step_size < len {
        step_size
    } else {
        last
    };
    proof {
        vstd::arithmetic::div_mod::lemma_mod_self_0(step_size as int);
    }
    while !breaks[at]
        invariant
            len == breaks@.len(),
            last == len - 1,
            step_size >= 1,
            low <= at <= last,
            low == 0 || !breaks@[low - 1],
            at < last ==> at >= step_size && at as int % step_size as int == 0,
            spec_probes_unset_before(breaks@, step_size as int, low as int),
            spec_is_window(len as int, step_size as int, low as int, at as int),
            spec_is_probe(len as int, step_size as int, at as int),
        decreases last - at,
    {
        if at == last {
            return None;
        }
        proof {
            lemma_multiples(at as int, step_size as int);
        }
        low = at + 1;
        at = if last - at > step_size {
            at + step_size
        } else {
            last
        };
    }
    let mut first = low;
    while !breaks[first]
        invariant
            len == breaks@.len(),
            low <= first <= at < len,
            breaks@[at as int],
            first == 0 || !breaks@[first - 1],
            forall|j: int| low <= j < first ==> !breaks@[j],
            spec_probes_unset_before(breaks@, step_size as int, low as int),
            spec_is_window(len as int, step_size as int, low as int, at as int),
            spec_is_probe(len as int, step_size as int, at as int),
        decreases at - first,
    {
        first += 1;
    }
    proof {
        let found = Some(first);
        assert(spec_probes_unset_before(breaks@, step_size as int, at as int));
        assert(spec_found_at(
            breaks@,
            step_size as int,
            low as int,
            at as int,
            found.unwrap() as int,
        ));
    }
    Some(first)
}

/// Looks for the place where `breaks` turns from unset to set, with jumps
/// of the integer part of the square root of its length. The result is as
/// for any other step; an empty array has no such place.
pub fn two_crystal_balls(breaks: &[bool]) -> (found: Option<usize>)
    ensures
        breaks@.len() == 0 ==> found is None,
        breaks@.len() > 0 ==> exists|step: int|
            spec_is_floor_sqrt(breaks@.len() as int, step) && #[trigger] spec_probed(
                breaks@,
                step,
                found,
            ),
        found matches Some(k) ==> spec_is_boundary(breaks@, k as int),
        found is None ==> breaks@.len() == 0 || !breaks@.last(),
        spec_monotone(breaks@) ==> (found is None <==> spec_none_set(breaks@)),
        spec_monotone(breaks@) ==> (found matches Some(k) ==> spec_is_first_set(
            breaks@,
            k as int,
        )),
{
    if breaks.len() == 0 {
        return None;
    }
    let step_size = floor_sqrt(breaks.len());
    assert(step_size >= 1) by (nonlinear_arith)
        requires
            breaks@.len() > 0,
            spec_is_floor_sqrt(breaks@.len() as int, step_size as int),
    ;
    let found = two_crystal_balls_with_step(breaks, step_size);
    assert(spec_probed(breaks@, step_size as int, found));
    found
}

} // verus!
