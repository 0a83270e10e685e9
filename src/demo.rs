//! Small demonstration functions that the extension offers beside the phone-number type.

use vstd::prelude::*;

verus! {

/// The sum of the elements of `s`.
pub open spec fn seq_sum(s: Seq<i64>) -> int
    decreases s.len(),
{
    if s.len() == 0 {
        0
    } else {
        seq_sum(s.drop_last()) + s.last()
    }
}

/// The sum of `input`, which must fit in an `i64`.
pub fn sum_array(input: Vec<i64>) -> (r: i64)
    requires
        i64::MIN <= seq_sum(input@) <= i64::MAX,
    ensures
        r == seq_sum(input@),
{
    let mut acc: i128 = 0;
    let mut i: usize = 0;
    while i < input.len()
        invariant
            i <= input@.len(),
            acc == seq_sum(input@.take(i as int)),
            -(i as int) * 0x8000_0000_0000_0000 <= acc <= (i as int) * 0x8000_0000_0000_0000,
        decreases input@.len() - i,
    {
        assert(input@.take(i + 1 as int).drop_last() =~= input@.take(i as int));
        proof {
            assert((i as int) * 0x8000_0000_0000_0000 < 0x8000_0000_0000_0000_0000_0000_0000_0000 - 0x8000_0000_0000_0000)
                by (nonlinear_arith)
                requires
                    i < usize::MAX,
                    usize::MAX <= 0xffff_ffff_ffff_ffff,
            ;
        }
        acc = acc + input[i] as i128;
        i = i + 1;
    }
    assert(input@.take(i as int) =~= input@);
    acc as i64
}

/// The `k`-th element of a series that starts at `start` and steps by `step`.
pub open spec fn series_at(start: i64, step: i64, k: int) -> int {
    start + k * step
}

/// The number of elements of `start, start + step, ...` that are at most `end`.
pub open spec fn series_len(start: i64, end: i64, step: i64) -> int {
    if start > end {
        0
    } else {
        (end - start) / (step as int) + 1
    }
}

/// `start, start + step, start + 2 * step, ...` up to and including `end`.
pub fn my_generate_series(start: i64, end: i64, step: i64) -> (r: Vec<i64>)
    requires
        step > 0,
    ensures
        r@.len() == series_len(start, end, step),
        forall|k: int| 0 <= k < r@.len() ==> r@[k] == series_at(start, step, k),
{
    let mut v: Vec<i64> = Vec::new();
    if start > end {
        return v;
    }
    let mut cur: i64 = start;
    let ghost mut k: int = 0;
    loop
        invariant
            step > 0,
            start <= cur <= end,
            v@.len() == k,
            cur == series_at(start, step, k),
            forall|i: int| 0 <= i < k ==> v@[i] == series_at(start, step, i),
        decreases end - cur,
    {
        v.push(cur);
        proof {
            k = k + 1;
        }
        if (end as i128) - (cur as i128) < step as i128 {
            proof {
                let d = end - start;
                let j = k - 1;
                assert(d / (step as int) == j) by (nonlinear_arith)
                    requires
                        cur - start == j * step,
                        0 <= end - cur < step,
                        d == end - start,
                        step > 0,
                        j >= 0,
                ;
            }
            return v;
        }
        cur = cur + step;
        assert(cur == series_at(start, step, k)) by (nonlinear_arith)
            requires
                cur == start + (k - 1) * step + step,
        ;
    }
}

} // verus!
