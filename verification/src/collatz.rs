//! The length of a Collatz sequence.
use vstd::prelude::*;

verus! {

/// The successor of `n` in the Collatz sequence: halve an even number, triple
/// an odd one and add one.
pub open spec fn collatz_next(n: int) -> int {
    if n % 2 == 0 {
        n / 2
    } else {
        3 * n + 1
    }
}

/// Whether the Collatz sequence starting at `n` reaches 1 after exactly `len`
/// values (both endpoints counted), staying within `i32` along the way.
pub open spec fn collatz_len_is(n: int, len: nat) -> bool
    decreases len,
{
    if len == 0 {
        false
    } else if n == 1 {
        len == 1
    } else {
        1 <= n && collatz_next(n) <= i32::MAX && collatz_len_is(collatz_next(n), (len - 1) as nat)
    }
}

/// Counts the values of the Collatz sequence from `n` down to 1, inclusive.
/// The precondition asks exactly that the sequence reach 1 without leaving
/// `i32`; on any other input the computation would overflow or diverge.
pub fn collatz_length(n: i32) -> (cnt: u32)
    requires
        exists|len: nat| #[trigger] collatz_len_is(n as int, len) && len <= u32::MAX,
    ensures
        collatz_len_is(n as int, cnt as nat),
{
    let ghost total: nat = choose|len: nat|
        #[trigger] collatz_len_is(n as int, len) && len <= u32::MAX;
    let mut cnt: u32 = 1;
    let mut m: i32 = n;
    while m != 1
        invariant
            1 <= m,
            1 <= cnt as nat <= total,
            total <= u32::MAX,
            collatz_len_is(m as int, (total - cnt as nat + 1) as nat),
        decreases total - cnt as nat,
    {
        proof {
            let k = (total - cnt as nat + 1) as nat;
            assert(collatz_len_is(collatz_next(m as int), (k - 1) as nat));
        }
        cnt = cnt + 1;
        m = if m % 2 == 0 {
            m / 2
        } else {
            3 * m + 1
        };
    }
    cnt
}

} // verus!
