use vstd::prelude::*;
use crate::collatz::{lemma_odd_part_bounds, lemma_shift_out_trailing_zeros, odd_part};

verus! {

/// One group of base-2 steps from `n` fits in a `u64`: `2n + 1` and
/// `(n << 2) + (2n + 1)` do not overflow.
pub open spec fn group_fits(n: u64) -> bool {
    &&& 2 * n + 1 <= u64::MAX
    &&& (n << 2u64) + (2 * n + 1) <= u64::MAX
}

/// The four values one group writes, from `n`: `m = n << 2`, `k = 2n + 1`,
/// `g = m + k`, and the odd part of `g`.
pub open spec fn group_entry(n: u64, p: int) -> u64 {
    let m = n << 2u64;
    let k = (2 * n + 1) as u64;
    let g = (m + k) as u64;
    if p == 0 {
        m
    } else if p == 1 {
        k
    } else if p == 2 {
        g
    } else {
        odd_part(g as nat) as u64
    }
}

/// The value the next group starts from.
pub open spec fn group_next(n: u64) -> u64 {
    group_entry(n, 3)
}

/// The start value after `r` groups.
pub open spec fn group_iter(n: u64, r: nat) -> u64
    decreases r,
{
    if r == 0 {
        n
    } else {
        group_iter(group_next(n), (r - 1) as nat)
    }
}

/// The number of leading slots taken by the odd part of an even base (one or none).
pub open spec fn base2_head(base: u64) -> nat {
    if base % 2 == 0 {
        1
    } else {
        0
    }
}

/// The value the groups start from: the base itself when odd, its odd part when even.
pub open spec fn base2_seed(base: u64) -> u64 {
    if base % 2 == 0 {
        odd_part(base as nat) as u64
    } else {
        base
    }
}

/// How many whole groups of four fit behind the head in `len` slots.
pub open spec fn base2_groups(base: u64, len: nat) -> nat {
    if len >= base2_head(base) {
        ((len - base2_head(base)) as nat) / 4
    } else {
        0
    }
}

/// The base-2 steps run on `len` slots without an arithmetic fault or an
/// index out of bounds.
pub open spec fn base2_fits(base: u64, len: nat) -> bool {
    &&& base % 2 == 0 ==> base != 0 && len >= 1
    &&& forall|q: nat|
        q < base2_groups(base, len) ==> group_fits(#[trigger] group_iter(base2_seed(base), q))
}

/// What slot `idx` of `len` slots holds after the base-2 steps: the head, then
/// whole groups of four, then zeros.
pub open spec fn base2_entry(base: u64, len: nat, idx: int) -> u64 {
    let h = base2_head(base);
    let r = base2_groups(base, len);
    if idx < h {
        base2_seed(base)
    } else if idx < h + 4 * r {
        group_entry(group_iter(base2_seed(base), ((idx - h) / 4) as nat), (idx - h) % 4)
    } else {
        0
    }
}

proof fn lemma_group_iter_succ(n: u64, r: nat)
    ensures
        group_iter(n, r + 1) == group_next(group_iter(n, r)),
    decreases r,
{
    if r > 0 {
        lemma_group_iter_succ(group_next(n), (r - 1) as nat);
    } else {
        assert(group_iter(group_next(n), 0) == group_next(n));
    }
}

/// Overwrites `masks` with the base-2 steps from `base`: for an even base its
/// odd part first; then, while four slots remain, the groups `n << 2`,
/// `2n + 1`, their sum and the odd part of the sum, which starts the next
/// group; the slots left over are cleared.
pub fn base2_steps(base: u64, masks: &mut Vec<u64>)
    requires
        base2_fits(base, old(masks)@.len()),
    ensures
        final(masks)@.len() == old(masks)@.len(),
        forall|idx: int|
            0 <= idx < final(masks)@.len() ==> #[trigger] final(masks)@[idx] == base2_entry(
                base,
                old(masks)@.len() as nat,
                idx,
            ),
{
    let len = masks.len();
    let ghost h = base2_head(base);
    let ghost r = base2_groups(base, len as nat);
    let ghost seed = base2_seed(base);
    let mut n = base;
    let mut i: usize = 0;
    assert((base & 1) == 0 <==> base % 2 == 0) by (bit_vector);
    if (n & 1) == 0 {
        proof {
            lemma_shift_out_trailing_zeros(base);
            lemma_odd_part_bounds(base as nat);
        }
        n = base >> base.trailing_zeros();
        masks.set(0, n);
        i = i + 1;
    }
    let ghost mut done: nat = 0;
    while i < masks.len() && masks.len() - i > 3
        invariant
            masks@.len() == len,
            base2_fits(base, len as nat),
            h == base2_head(base),
            r == base2_groups(base, len as nat),
            seed == base2_seed(base),
            i == h + 4 * done,
            i <= len,
            done <= r,
            n == group_iter(seed, done),
            forall|idx: int| 0 <= idx < i ==> #[trigger] masks@[idx] == base2_entry(base, len as nat, idx),
        decreases len - i,
    {
        assert(done < r);
        assert(group_fits(group_iter(seed, done)));
        let m = n << 2;
        masks.set(i, m);
        i = i + 1;
        let k = n + n + 1;
        masks.set(i, k);
        i = i + 1;
        let g = m + k;
        masks.set(i, g);
        i = i + 1;
        assert(m % 2 == 0) by (bit_vector)
            requires
                m == n << 2u64,
        ;
        assert(g != 0);
        proof {
            lemma_shift_out_trailing_zeros(g);
        }
        let f = g >> g.trailing_zeros();
        masks.set(i, f);
        i = i + 1;
        proof {
            lemma_group_iter_succ(seed, done);
            assert forall|idx: int| 0 <= idx < i implies #[trigger] masks@[idx] == base2_entry(
                base,
                len as nat,
                idx,
            ) by {
                if idx >= i - 4 {
                    assert((idx - h) / 4 == done);
                    assert((idx - h) % 4 == idx - (i - 4));
                }
            }
            done = done + 1;
        }
        n = f;
    }
    while i < masks.len()
        invariant
            masks@.len() == len,
            h == base2_head(base),
            r == base2_groups(base, len as nat),
            h + 4 * r <= i <= len,
            forall|idx: int| 0 <= idx < i ==> #[trigger] masks@[idx] == base2_entry(base, len as nat, idx),
        decreases len - i,
    {
        masks.set(i, 0);
        i = i + 1;
    }
}


/// Whether `base2_steps` can run from `base` on `len` slots.
pub fn base2_steps_fit(base: u64, len: usize) -> (b: bool)
    ensures
        b == base2_fits(base, len as nat),
{
    let ghost seed = base2_seed(base);
    let ghost r = base2_groups(base, len as nat);
    let mut n = base;
    let mut i: usize = 0;
    if base % 2 == 0 {
        if base == 0 || len == 0 {
            return false;
        }
        proof {
            lemma_shift_out_trailing_zeros(base);
            lemma_odd_part_bounds(base as nat);
        }
        n = base >> base.trailing_zeros();
        i = 1;
    }
    let ghost mut done: nat = 0;
    while i < len && len - i > 3
        invariant
            base % 2 == 0 ==> base != 0 && len >= 1,
            seed == base2_seed(base),
            r == base2_groups(base, len as nat),
            i == base2_head(base) + 4 * done,
            i <= len,
            done <= r,
            n == group_iter(seed, done),
            forall|q: nat| q < done ==> group_fits(#[trigger] group_iter(seed, q)),
        decreases len - i,
    {
        if n > (u64::MAX - 1) / 2 {
            return false;
        }
        let k = n + n + 1;
        let m = n << 2;
        if m > u64::MAX - k {
            return false;
        }
        let g = m + k;
        assert(m % 2 == 0) by (bit_vector)
            requires
                m == n << 2u64,
        ;
        proof {
            lemma_shift_out_trailing_zeros(g);
            lemma_group_iter_succ(seed, done);
            done = done + 1;
        }
        n = g >> g.trailing_zeros();
        i = i + 4;
    }
    true
}


/// In a group that fits: `m` is `4n` taken modulo 2^64, `k = 2n + 1` is odd,
/// `g = m + k` exactly, and `g` is odd, so shifting out its trailing zeros
/// changes nothing: the fourth value repeats the third, which starts the next group.
pub proof fn law_group_shape(n: u64)
    requires
        group_fits(n),
    ensures
        group_entry(n, 0) as int == (4 * n) % 0x1_0000_0000_0000_0000,
        group_entry(n, 1) == 2 * n + 1,
        group_entry(n, 2) == group_entry(n, 0) + group_entry(n, 1),
        group_entry(n, 2) % 2 == 1,
        group_entry(n, 3) == group_entry(n, 2),
        group_next(n) == group_entry(n, 2),
{
    let m = n << 2u64;
    assert(m as int == (4 * n) % 0x1_0000_0000_0000_0000 && m % 2 == 0) by (bit_vector)
        requires
            m == n << 2u64,
    ;
}


/// The value the group starting at slot `idx` works on: the seed (the base
/// when odd, its odd part when even) for the first group, and the slot just
/// before it for the others.
pub open spec fn group_start(base: u64, len: nat, idx: int) -> nat {
    if idx == base2_head(base) {
        if base % 2 == 0 {
            odd_part(base as nat)
        } else {
            base as nat
        }
    } else {
        base2_entry(base, len, idx - 1) as nat
    }
}

proof fn lemma_group_at(base: u64, len: nat, idx: int)
    requires
        base2_fits(base, len),
        base2_head(base) <= idx,
        idx + 3 < len,
        (idx - base2_head(base)) % 4 == 0,
    ensures
        base2_entry(base, len, idx) as int == (4 * group_start(base, len, idx))
            % 0x1_0000_0000_0000_0000,
        base2_entry(base, len, idx + 1) == 2 * group_start(base, len, idx) + 1,
        base2_entry(base, len, idx + 2) == base2_entry(base, len, idx) + base2_entry(
            base,
            len,
            idx + 1,
        ),
        base2_entry(base, len, idx + 3) == base2_entry(base, len, idx + 2),
{
    let h = base2_head(base);
    let r = base2_groups(base, len);
    let seed = base2_seed(base);
    let q = (idx - h) / 4;
    assert(idx == h + 4 * q);
    assert(q < r);
    assert((idx + 1 - h) / 4 == q && (idx + 1 - h) % 4 == 1);
    assert((idx + 2 - h) / 4 == q && (idx + 2 - h) % 4 == 2);
    assert((idx + 3 - h) / 4 == q && (idx + 3 - h) % 4 == 3);
    let s0 = group_iter(seed, q as nat);
    assert(group_fits(s0));
    if base % 2 == 0 {
        lemma_odd_part_bounds(base as nat);
    }
    if q > 0 {
        let q1 = (q - 1) as nat;
        assert((idx - 1 - h) / 4 == q1 && (idx - 1 - h) % 4 == 3);
        lemma_group_iter_succ(seed, q1);
    }
    assert(group_start(base, len, idx) == s0 as nat);
    law_group_shape(s0);
}

/// The slots the base-2 steps leave, told by their neighbours: for an even
/// base, slot 0 holds its odd part; then come groups of four slots as long as
/// four fit; in each group, from a start value `s` (the seed for the first
/// group, the last slot of the group before for the others), the slots hold
/// `4s` modulo 2^64, `2s + 1`, the sum of these two, and that sum again; every
/// slot after the last whole group is `0`.
pub proof fn law_base2_layout(base: u64, len: nat)
    requires
        base2_fits(base, len),
    ensures
        base % 2 == 0 ==> base2_entry(base, len, 0) as nat == odd_part(base as nat),
        base2_head(base) == if base % 2 == 0 {
            1nat
        } else {
            0nat
        },
        forall|idx: int|
            base2_head(base) <= idx && idx + 3 < len && (idx - base2_head(base)) % 4 == 0 ==> {
                &&& #[trigger] base2_entry(base, len, idx) as int == (4 * group_start(
                    base,
                    len,
                    idx,
                )) % 0x1_0000_0000_0000_0000
                &&& base2_entry(base, len, idx + 1) == 2 * group_start(base, len, idx) + 1
                &&& base2_entry(base, len, idx + 2) == base2_entry(base, len, idx)
                    + base2_entry(base, len, idx + 1)
                &&& base2_entry(base, len, idx + 3) == base2_entry(base, len, idx + 2)
            },
        forall|idx: int|
            base2_head(base) <= idx < len && idx >= base2_head(base) + 4 * ((len
                - base2_head(base)) / 4) ==> #[trigger] base2_entry(base, len, idx) == 0,
{
    if base % 2 == 0 {
        lemma_odd_part_bounds(base as nat);
    }
    assert forall|idx: int|
        base2_head(base) <= idx && idx + 3 < len && (idx - base2_head(base)) % 4
            == 0 implies {
        &&& #[trigger] base2_entry(base, len, idx) as int == (4 * group_start(base, len, idx))
            % 0x1_0000_0000_0000_0000
        &&& base2_entry(base, len, idx + 1) == 2 * group_start(base, len, idx) + 1
        &&& base2_entry(base, len, idx + 2) == base2_entry(base, len, idx) + base2_entry(
            base,
            len,
            idx + 1,
        )
        &&& base2_entry(base, len, idx + 3) == base2_entry(base, len, idx + 2)
    } by {
        lemma_group_at(base, len, idx);
    }
}

} // verus!
