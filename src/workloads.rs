use vstd::prelude::*;

verus! {

/// A workload whose only work is one addition.
pub fn a(b: i32)
    requires
        b <= i32::MAX - 2,
{
    let _v = b + 2;
}

/// Adds `0 + 1 + ... + 99_999` to `num`.
pub fn calcul(num: u64) -> (r: u64)
    requires
        num + 4_999_950_000 <= u64::MAX,
    ensures
        r == num + 4_999_950_000,
{
    let mut c = num;
    let mut i: u64 = 0;
    while i < 100_000
        invariant
            i <= 100_000,
            num + 4_999_950_000 <= u64::MAX,
            2 * (c - num) == i * (i - 1),
            c >= num,
        decreases 100_000 - i,
    {
        assert(2 * (c - num) + 2 * i == (i + 1) * i) by (nonlinear_arith)
            requires 2 * (c - num) == i * (i - 1);
        assert(i * (i - 1) <= 99_999 * 99_998) by (nonlinear_arith)
            requires i <= 99_999;
        c = c + i;
        i = i + 1;
    }
    c
}

} // verus!
