use vstd::prelude::*;
use vstd::arithmetic::power2::{lemma2_to64, lemma_pow2_unfold, pow2};
use vstd::std_specs::bits::{axiom_u64_trailing_zeros, u64_trailing_zeros};

verus! {

/// The largest odd divisor of `n` (and `0` for `0`).
pub open spec fn odd_part(n: nat) -> nat
    decreases n,
{
    if n == 0 {
        0
    } else if n % 2 == 1 {
        n
    } else {
        odd_part(n / 2)
    }
}

/// One step of the Collatz map: halve an even number, send an odd `n` to `3n + 1`.
pub open spec fn collatz_step(n: nat) -> nat {
    if n % 2 == 0 {
        n / 2
    } else {
        3 * n + 1
    }
}

/// One step of the shortened map: the odd part of `n` when `n` is even, and the
/// odd part of `3n + 1` when it is odd.
pub open spec fn fast_collatz_step(n: nat) -> nat {
    if n % 2 == 0 {
        odd_part(n)
    } else {
        odd_part(3 * n + 1)
    }
}

/// Shifting a nonzero word right by its count of trailing zeros leaves its odd part.
pub proof fn lemma_shift_out_trailing_zeros(x: u64)
    requires
        x != 0,
    ensures
        u64_trailing_zeros(x) < 64,
        (x >> u64_trailing_zeros(x)) as nat == odd_part(x as nat),
    decreases x,
{
    axiom_u64_trailing_zeros(x);
    let t = u64_trailing_zeros(x);
    if x % 2 == 1 {
        assert((x >> 0u64) & 1u64 == 1u64) by (bit_vector)
            requires
                x % 2 == 1,
        ;
        if t > 0 {
            assert((x >> 0u64) & 1u64 == 0u64);
        }
        assert(x >> 0u32 == x) by (bit_vector);
    } else {
        let h = x / 2;
        assert(h == x >> 1u64) by (bit_vector)
            requires
                h == x / 2,
        ;
        assert(h != 0) by (bit_vector)
            requires
                x != 0,
                x % 2 == 0,
                h == x / 2,
        ;
        axiom_u64_trailing_zeros(h);
        lemma_shift_out_trailing_zeros(h);
        let s = u64_trailing_zeros(h);
        assert(s < 63) by (bit_vector)
            requires
                h == x >> 1u64,
                (h >> (s as u64)) & 1u64 == 1u64,
                s < 64,
        ;
        // bit s of h is bit s + 1 of x
        assert((x >> ((s + 1) as u64)) & 1u64 == 1u64) by (bit_vector)
            requires
                h == x >> 1u64,
                (h >> (s as u64)) & 1u64 == 1u64,
                s < 63,
        ;
        assert((x >> 0u64) & 1u64 == 0u64) by (bit_vector)
            requires
                x % 2 == 0,
        ;
        if t < s + 1 {
            if t == 0 {
                assert((x >> 0u64) & 1u64 == 1u64);
            } else {
                let j = (t - 1) as u64;
                assert((h >> j) & 1u64 == 0u64);
                assert((x >> (t as u64)) & 1u64 == 1u64);
                assert((h >> j) & 1u64 == (x >> (t as u64)) & 1u64) by (bit_vector)
                    requires
                        h == x >> 1u64,
                        j < 63,
                        t as u64 == j + 1,
                ;
            }
        } else if t > s + 1 {
            let j = (s + 1) as u64;
            assert((x >> j) & 1u64 == 0u64);
        }
        assert(t == s + 1);
        assert(x >> t == h >> s) by (bit_vector)
            requires
                h == x >> 1u64,
                t == s + 1,
                s < 63,
        ;
    }
}

/// One Collatz step on a machine word.
pub fn collatz(n: u64) -> (r: u64)
    requires
        n % 2 == 1 ==> 3 * n + 1 <= u64::MAX,
    ensures
        r as nat == collatz_step(n as nat),
{
    assert((n & 1) == 0 <==> n % 2 == 0) by (bit_vector);
    if (n & 1) == 0 {
        n / 2
    } else {
        n * 3 + 1
    }
}

/// One step of the shortened map on a machine word: the result is always odd.
pub fn fast_collatz(n: u64) -> (r: u64)
    requires
        n != 0,
        n % 2 == 1 ==> 3 * n + 1 <= u64::MAX,
    ensures
        r as nat == fast_collatz_step(n as nat),
{
    assert((n & 1) == 0 <==> n % 2 == 0) by (bit_vector);
    if (n & 1) == 0 {
        let zeros = n.trailing_zeros();
        proof {
            lemma_shift_out_trailing_zeros(n);
        }
        n >> zeros
    } else {
        let n = n * 3 + 1;
        let zeros = n.trailing_zeros();
        proof {
            lemma_shift_out_trailing_zeros(n);
        }
        n >> zeros
    }
}


/// The odd part of a positive number is odd and no larger than the number.
pub proof fn lemma_odd_part_bounds(n: nat)
    requires
        n > 0,
    ensures
        odd_part(n) % 2 == 1,
        odd_part(n) <= n,
        odd_part(n) > 0,
    decreases n,
{
    if n % 2 == 0 {
        lemma_odd_part_bounds(n / 2);
    }
}

/// The step of the plain map (`fast == false`) or of the shortened map (`fast == true`).
pub open spec fn orbit_step(fast: bool, n: nat) -> nat {
    if fast {
        fast_collatz_step(n)
    } else {
        collatz_step(n)
    }
}

/// The step at `n` runs on a `u64` without an arithmetic fault: `3n + 1` fits,
/// and the shortened map is never asked to strip the zeros of `0`.
pub open spec fn step_ok(fast: bool, n: nat) -> bool {
    &&& n <= u64::MAX
    &&& n % 2 == 1 ==> 3 * n + 1 <= u64::MAX
    &&& fast ==> n != 0
}

/// `n` after `k` steps.
pub open spec fn iterate(fast: bool, n: nat, k: nat) -> nat
    decreases k,
{
    if k == 0 {
        n
    } else {
        iterate(fast, orbit_step(fast, n), (k - 1) as nat)
    }
}

/// Starting at `init`, the trajectory first reaches `1` after exactly `k >= 1`
/// steps, and every step on the way runs without an arithmetic fault.
pub open spec fn first_hit_one(fast: bool, init: nat, k: nat) -> bool {
    &&& k >= 1
    &&& iterate(fast, init, k) == 1
    &&& forall|j: nat| 1 <= j < k ==> #[trigger] iterate(fast, init, j) != 1
    &&& forall|j: nat| j < k ==> step_ok(fast, #[trigger] iterate(fast, init, j))
}

/// The trajectory from `init` reaches `1` without an arithmetic fault.
pub open spec fn orbit_terminates(fast: bool, init: nat) -> bool {
    exists|k: nat| first_hit_one(fast, init, k)
}

/// The number of steps the trajectory from `init` takes to reach `1`.
pub open spec fn orbit_len(fast: bool, init: nat) -> nat {
    choose|k: nat| first_hit_one(fast, init, k)
}

/// The values the trajectory from `init` passes through, from the first step
/// up to and including the first `1`.
pub open spec fn orbit_seq(fast: bool, init: nat) -> Seq<u64> {
    Seq::new(orbit_len(fast, init), |j: int| iterate(fast, init, (j + 1) as nat) as u64)
}

/// `iterate` one step further is one more step of the map.
pub proof fn lemma_iterate_succ(fast: bool, n: nat, k: nat)
    ensures
        iterate(fast, n, k + 1) == orbit_step(fast, iterate(fast, n, k)),
    decreases k,
{
    if k > 0 {
        lemma_iterate_succ(fast, orbit_step(fast, n), (k - 1) as nat);
    } else {
        assert(iterate(fast, orbit_step(fast, n), 0) == orbit_step(fast, n));
    }
}

/// A safe step stays within a `u64`.
pub proof fn lemma_step_fits(fast: bool, n: nat)
    requires
        step_ok(fast, n),
    ensures
        orbit_step(fast, n) <= u64::MAX,
{
    if fast {
        if n % 2 == 0 {
            lemma_odd_part_bounds(n);
        } else {
            lemma_odd_part_bounds(3 * n + 1);
        }
    }
}

/// There is only one first arrival at `1`.
pub proof fn lemma_first_hit_unique(fast: bool, init: nat, k1: nat, k2: nat)
    requires
        first_hit_one(fast, init, k1),
        first_hit_one(fast, init, k2),
    ensures
        k1 == k2,
{
    if k1 < k2 {
        assert(iterate(fast, init, k1) != 1);
    } else if k2 < k1 {
        assert(iterate(fast, init, k2) != 1);
    }
}

/// When the trajectory terminates, `orbit_len` is its first arrival at `1`.
pub proof fn lemma_orbit_len(fast: bool, init: nat)
    requires
        orbit_terminates(fast, init),
    ensures
        first_hit_one(fast, init, orbit_len(fast, init)),
{
}

/// One step of either map on a word, for a step that runs without fault.
fn step_word(fast: bool, n: u64) -> (r: u64)
    requires
        step_ok(fast, n as nat),
    ensures
        r as nat == orbit_step(fast, n as nat),
{
    if fast {
        fast_collatz(n)
    } else {
        collatz(n)
    }
}

/// Whether the step at `n` runs without an arithmetic fault.
fn step_is_safe(fast: bool, n: u64) -> (b: bool)
    ensures
        b == step_ok(fast, n as nat),
{
    if fast && n == 0 {
        false
    } else if n % 2 == 1 {
        n <= (u64::MAX - 1) / 3
    } else {
        true
    }
}

fn fill_orbit(init: u64, fast: bool, masks: &mut Vec<u64>)
    requires
        orbit_terminates(fast, init as nat),
    ensures
        final(masks)@ == orbit_seq(fast, init as nat),
{
    let ghost k = orbit_len(fast, init as nat);
    proof {
        lemma_orbit_len(fast, init as nat);
    }
    let mut n = init;
    masks.clear();
    loop
        invariant_except_break
            masks@.len() < k,
        invariant
            first_hit_one(fast, init as nat, k),
            k == orbit_len(fast, init as nat),
            masks@.len() <= k,
            n as nat == iterate(fast, init as nat, masks@.len()),
            forall|j: int|
                0 <= j < masks@.len() ==> masks@[j] as nat == #[trigger] iterate(
                    fast,
                    init as nat,
                    (j + 1) as nat,
                ),
        ensures
            masks@.len() == k,
            forall|j: int|
                0 <= j < masks@.len() ==> masks@[j] as nat == #[trigger] iterate(
                    fast,
                    init as nat,
                    (j + 1) as nat,
                ),
        decreases k - masks@.len(),
    {
        let ghost done = masks@.len();
        assert(step_ok(fast, iterate(fast, init as nat, done)));
        proof {
            lemma_iterate_succ(fast, init as nat, done);
        }
        n = step_word(fast, n);
        masks.push(n);
        if n == 1 {
            proof {
                if done + 1 < k {
                    assert(iterate(fast, init as nat, done + 1) != 1);
                }
            }
            break;
        }
    }
    assert(masks@ =~= orbit_seq(fast, init as nat));
}

/// Replaces the contents of `masks` with the trajectory of the Collatz map from
/// `init`: every value after `init`, up to and including the first `1`.
pub fn fill_collatz(init: u64, masks: &mut Vec<u64>)
    requires
        orbit_terminates(false, init as nat),
    ensures
        final(masks)@ == orbit_seq(false, init as nat),
{
    fill_orbit(init, false, masks)
}

/// Replaces the contents of `masks` with the trajectory of the shortened map
/// from `init`: every value after `init`, up to and including the first `1`.
pub fn fill_fast_collatz(init: u64, masks: &mut Vec<u64>)
    requires
        orbit_terminates(true, init as nat),
    ensures
        final(masks)@ == orbit_seq(true, init as nat),
{
    fill_orbit(init, true, masks)
}


/// The trajectory from `init` meets its first arithmetic fault at step `j`,
/// before it has reached `1`.
pub open spec fn faults_at(fast: bool, init: nat, j: nat) -> bool {
    &&& !step_ok(fast, iterate(fast, init, j))
    &&& forall|i: nat| i < j ==> step_ok(fast, #[trigger] iterate(fast, init, i))
    &&& forall|i: nat| 1 <= i <= j ==> #[trigger] iterate(fast, init, i) != 1
}

/// What following a trajectory for a bounded number of steps found out.
#[derive(Clone, Copy, PartialEq, Eq, Structural, Debug)]
pub enum OrbitCheck {
    /// The trajectory reaches `1` after this many steps.
    Reaches(u64),
    /// A step on the way overflows (or would strip the zeros of `0`).
    Faults,
    /// Neither happened within the budget.
    Undecided,
}

/// A fault on the way rules out a safe arrival at `1`.
pub proof fn lemma_fault_excludes_arrival(fast: bool, init: nat, j: nat)
    requires
        faults_at(fast, init, j),
    ensures
        !orbit_terminates(fast, init),
{
    if orbit_terminates(fast, init) {
        let k = orbit_len(fast, init);
        if k <= j {
            assert(iterate(fast, init, k) != 1);
        } else {
            assert(step_ok(fast, iterate(fast, init, j)));
        }
    }
}

/// Follows the trajectory from `init` for at most `budget` steps and reports
/// whether it reaches `1`, meets an arithmetic fault, or does neither.
pub fn check_orbit(fast: bool, init: u64, budget: u64) -> (r: OrbitCheck)
    ensures
        r matches OrbitCheck::Reaches(k) ==> k <= budget && first_hit_one(fast, init as nat, k as nat)
            && orbit_terminates(fast, init as nat) && orbit_len(fast, init as nat) == k,
        r is Faults ==> exists|j: nat| j < budget && faults_at(fast, init as nat, j),
        r is Faults ==> !orbit_terminates(fast, init as nat),
        r is Undecided ==> forall|j: nat|
            j < budget ==> step_ok(fast, #[trigger] iterate(fast, init as nat, j)),
        r is Undecided ==> forall|j: nat|
            1 <= j <= budget ==> #[trigger] iterate(fast, init as nat, j) != 1,
        orbit_terminates(fast, init as nat) && orbit_len(fast, init as nat) <= budget ==> r
            == OrbitCheck::Reaches(orbit_len(fast, init as nat) as u64),
{
    let mut n = init;
    let mut steps: u64 = 0;
    loop
        invariant
            steps <= budget,
            n as nat == iterate(fast, init as nat, steps as nat),
            forall|i: nat| i < steps ==> step_ok(fast, #[trigger] iterate(fast, init as nat, i)),
            forall|i: nat| 1 <= i <= steps ==> #[trigger] iterate(fast, init as nat, i) != 1,
        decreases budget - steps,
    {
        if steps == budget {
            proof {
                if orbit_terminates(fast, init as nat) && orbit_len(fast, init as nat) <= budget {
                    let k = orbit_len(fast, init as nat);
                    assert(iterate(fast, init as nat, k) != 1);
                }
            }
            return OrbitCheck::Undecided;
        }
        if !step_is_safe(fast, n) {
            proof {
                assert(faults_at(fast, init as nat, steps as nat));
                lemma_fault_excludes_arrival(fast, init as nat, steps as nat);
            }
            return OrbitCheck::Faults;
        }
        proof {
            lemma_iterate_succ(fast, init as nat, steps as nat);
        }
        n = step_word(fast, n);
        steps = steps + 1;
        if n == 1 {
            proof {
                assert(first_hit_one(fast, init as nat, steps as nat));
                lemma_orbit_len(fast, init as nat);
                lemma_first_hit_unique(
                    fast,
                    init as nat,
                    steps as nat,
                    orbit_len(fast, init as nat),
                );
            }
            return OrbitCheck::Reaches(steps);
        }
    }
}


/// How many times 2 divides a positive `n`.
pub open spec fn two_adic(n: nat) -> nat
    decreases n,
{
    if n == 0 || n % 2 == 1 {
        0
    } else {
        1 + two_adic(n / 2)
    }
}

/// How many steps of the plain map one step of the shortened map stands for.
pub open spec fn fast_stride(n: nat) -> nat {
    if n % 2 == 0 {
        two_adic(n)
    } else {
        1 + two_adic(3 * n + 1)
    }
}

/// `iterate` over `a + b` steps is `b` steps after `a` steps.
pub proof fn lemma_iterate_add(fast: bool, n: nat, a: nat, b: nat)
    ensures
        iterate(fast, n, a + b) == iterate(fast, iterate(fast, n, a), b),
    decreases a,
{
    if a > 0 {
        lemma_iterate_add(fast, orbit_step(fast, n), (a - 1) as nat, b);
        assert(iterate(fast, n, a + b) == iterate(fast, orbit_step(fast, n), (a + b - 1) as nat));
    }
}

/// Halving a positive `m` as long as it is even passes through even values no
/// larger than `m` and stops at its odd part.
proof fn lemma_halving(m: nat)
    requires
        m > 0,
    ensures
        iterate(false, m, two_adic(m)) == odd_part(m),
        forall|j: nat|
            j < two_adic(m) ==> #[trigger] iterate(false, m, j) % 2 == 0 && 0 < iterate(
                false,
                m,
                j,
            ) <= m,
    decreases m,
{
    if m % 2 == 0 {
        lemma_halving(m / 2);
        assert(iterate(false, m, two_adic(m)) == iterate(false, m / 2, two_adic(m / 2)));
        assert forall|j: nat| j < two_adic(m) implies #[trigger] iterate(false, m, j) % 2 == 0
            && 0 < iterate(false, m, j) <= m by {
            if j > 0 {
                assert(iterate(false, m, j) == iterate(false, m / 2, (j - 1) as nat));
            }
        }
    } else {
        assert(iterate(false, m, 0) == m);
    }
}

/// One step of the shortened map lands where the plain map first reaches an
/// odd value after at least one step: every value the plain map passes on the
/// way is even.
pub proof fn law_fast_step_skips_even_steps(n: nat)
    requires
        n > 0,
    ensures
        fast_stride(n) >= 1,
        iterate(false, n, fast_stride(n)) == fast_collatz_step(n),
        forall|j: nat| 1 <= j < fast_stride(n) ==> #[trigger] iterate(false, n, j) % 2 == 0,
{
    lemma_stride_walk(n);
}

/// The walk of the plain map over one stride, with bounds on the values it meets.
proof fn lemma_stride_walk(n: nat)
    requires
        n > 0,
    ensures
        fast_stride(n) >= 1,
        iterate(false, n, fast_stride(n)) == fast_collatz_step(n),
        forall|j: nat|
            1 <= j < fast_stride(n) ==> #[trigger] iterate(false, n, j) % 2 == 0 && iterate(
                false,
                n,
                j,
            ) <= if n % 2 == 0 {
                n
            } else {
                3 * n + 1
            },
{
    if n % 2 == 0 {
        lemma_halving(n);
    } else {
        let m = 3 * n + 1;
        lemma_halving(m);
        lemma_iterate_add(false, n, 1, two_adic(m));
        assert(iterate(false, n, 1) == m) by {
            assert(iterate(false, m, 0) == m);
        }
        assert forall|j: nat| 1 <= j < fast_stride(n) implies #[trigger] iterate(false, n, j) % 2
            == 0 && iterate(false, n, j) <= m by {
            lemma_iterate_add(false, n, 1, (j - 1) as nat);
            assert(iterate(false, m, (j - 1) as nat) % 2 == 0);
        }
    }
}

/// A step of the shortened map that runs without fault covers plain steps that
/// run without fault.
proof fn lemma_stride_safe(n: nat)
    requires
        step_ok(true, n),
    ensures
        forall|j: nat| j < fast_stride(n) ==> step_ok(false, #[trigger] iterate(false, n, j)),
{
    lemma_stride_walk(n);
    assert forall|j: nat| j < fast_stride(n) implies step_ok(false, #[trigger] iterate(false, n, j)) by {
        if j == 0 {
            assert(iterate(false, n, 0) == n);
        }
    }
}

/// The number of plain steps the first `k` steps of the shortened map stand for.
pub open spec fn plain_steps(init: nat, k: nat) -> nat
    decreases k,
{
    if k == 0 {
        0
    } else {
        plain_steps(init, (k - 1) as nat) + fast_stride(iterate(true, init, (k - 1) as nat))
    }
}

/// Where the shortened map is after `k` steps, the plain map is after
/// `plain_steps(init, k)` steps.
proof fn lemma_fast_tracks_plain(init: nat, k: nat)
    requires
        forall|i: nat| i < k ==> #[trigger] iterate(true, init, i) > 0,
    ensures
        iterate(true, init, k) == iterate(false, init, plain_steps(init, k)),
        forall|i: nat| i < k ==> plain_steps(init, i) < #[trigger] plain_steps(init, i + 1),
    decreases k,
{
    if k > 0 {
        let k1 = (k - 1) as nat;
        lemma_fast_tracks_plain(init, k1);
        let x = iterate(true, init, k1);
        assert(x > 0);
        lemma_stride_walk(x);
        lemma_iterate_add(false, init, plain_steps(init, k1), fast_stride(x));
        lemma_iterate_succ(true, init, k1);
        assert(plain_steps(init, k1 + 1) == plain_steps(init, k1) + fast_stride(x));
    }
}

/// Every plain step before `plain_steps(init, k)` lies in the stride of one of
/// the first `k` steps of the shortened map.
proof fn lemma_window(init: nat, k: nat, j: nat)
    requires
        forall|i: nat| i < k ==> plain_steps(init, i) < #[trigger] plain_steps(init, i + 1),
        j < plain_steps(init, k),
    ensures
        exists|w: nat| w < k && plain_steps(init, w) <= j < #[trigger] plain_steps(init, w + 1),
    decreases k,
{
    let k1 = (k - 1) as nat;
    if j < plain_steps(init, k1) {
        lemma_window(init, k1, j);
        let w = choose|w: nat| w < k1 && plain_steps(init, w) <= j < #[trigger] plain_steps(init, w + 1);
        assert(w < k && plain_steps(init, w) <= j < plain_steps(init, w + 1));
    } else {
        assert(k1 + 1 == k);
        assert(k1 < k && plain_steps(init, k1) <= j < plain_steps(init, k1 + 1));
    }
}

/// When the shortened map takes `init` to `1`, so does the plain map, and the
/// shortened trajectory is the plain one with the even steps left out: its
/// `i`-th value is the plain trajectory's value after `plain_steps(init, i + 1)`
/// steps, and these positions strictly increase.
pub proof fn law_fast_orbit_within_plain(init: nat)
    requires
        orbit_terminates(true, init),
    ensures
        orbit_terminates(false, init),
        orbit_len(false, init) == plain_steps(init, orbit_len(true, init)),
        forall|i: nat|
            i < orbit_len(true, init) ==> plain_steps(init, i) < #[trigger] plain_steps(init, i + 1),
        forall|i: int|
            0 <= i < orbit_len(true, init) ==> #[trigger] orbit_seq(true, init)[i] == orbit_seq(
                false,
                init,
            )[plain_steps(init, (i + 1) as nat) - 1],
{
    let kk = orbit_len(true, init);
    lemma_orbit_len(true, init);
    assert forall|i: nat| i < kk implies #[trigger] iterate(true, init, i) > 0 by {
        assert(step_ok(true, iterate(true, init, i)));
    }
    lemma_fast_tracks_plain(init, kk);
    let s = plain_steps(init, kk);
    assert(plain_steps(init, 0) == 0);
    assert forall|i: nat| i <= kk implies plain_steps(init, i) >= i by {
        lemma_plain_steps_grow(init, kk, i);
    }
    assert forall|j: nat| 1 <= j < s implies #[trigger] iterate(false, init, j) != 1 by {
        lemma_window(init, kk, j);
        let w = choose|w: nat| w < kk && plain_steps(init, w) <= j < #[trigger] plain_steps(init, w + 1);
        let x = iterate(true, init, w);
        lemma_fast_tracks_plain(init, w);
        let d = (j - plain_steps(init, w)) as nat;
        lemma_iterate_add(false, init, plain_steps(init, w), d);
        lemma_stride_walk(x);
        lemma_iterate_succ(true, init, w);
        if d == 0 {
            assert(w >= 1);
            assert(iterate(true, init, w) != 1);
        } else {
            assert(iterate(false, x, d) % 2 == 0);
        }
    }
    assert forall|j: nat| j < s implies step_ok(false, #[trigger] iterate(false, init, j)) by {
        lemma_window(init, kk, j);
        let w = choose|w: nat| w < kk && plain_steps(init, w) <= j < #[trigger] plain_steps(init, w + 1);
        let x = iterate(true, init, w);
        lemma_fast_tracks_plain(init, w);
        let d = (j - plain_steps(init, w)) as nat;
        lemma_iterate_add(false, init, plain_steps(init, w), d);
        lemma_iterate_succ(true, init, w);
        assert(step_ok(true, x));
        lemma_stride_safe(x);
    }
    assert(first_hit_one(false, init, s));
    lemma_orbit_len(false, init);
    lemma_first_hit_unique(false, init, s, orbit_len(false, init));
    assert forall|i: int| 0 <= i < kk implies #[trigger] orbit_seq(true, init)[i] == orbit_seq(
        false,
        init,
    )[plain_steps(init, (i + 1) as nat) - 1] by {
        let i1 = (i + 1) as nat;
        lemma_fast_tracks_plain(init, i1);
        lemma_plain_steps_grow(init, kk, i1);
    }
}

/// `plain_steps` grows by at least one per step and stays below its final value.
proof fn lemma_plain_steps_grow(init: nat, k: nat, i: nat)
    requires
        forall|m: nat| m < k ==> plain_steps(init, m) < #[trigger] plain_steps(init, m + 1),
        i <= k,
    ensures
        plain_steps(init, i) >= i,
        plain_steps(init, i) <= plain_steps(init, k),
    decreases k, i,
{
    if i < k {
        let k1 = (k - 1) as nat;
        assert(plain_steps(init, k1) < plain_steps(init, k1 + 1));
        lemma_plain_steps_grow(init, k1, i);
    }
    if i > 0 {
        let i1 = (i - 1) as nat;
        assert(plain_steps(init, i1) < plain_steps(init, i1 + 1));
        lemma_plain_steps_grow(init, k, i1);
    }
}


/// Every value on a trajectory that reaches `1` safely fits in a `u64`.
proof fn lemma_orbit_values_fit(fast: bool, init: nat, j: nat)
    requires
        orbit_terminates(fast, init),
        j <= orbit_len(fast, init),
    ensures
        iterate(fast, init, j) <= u64::MAX,
{
    lemma_orbit_len(fast, init);
    if j == 0 {
        assert(step_ok(fast, iterate(fast, init, 0)));
    } else {
        let j1 = (j - 1) as nat;
        assert(step_ok(fast, iterate(fast, init, j1)));
        lemma_step_fits(fast, iterate(fast, init, j1));
        lemma_iterate_succ(fast, init, j1);
    }
}

/// A recorded trajectory is a chain of steps: its first value is one step from
/// `init`, each later value one step from the value before, and it ends at its
/// only `1`.
pub proof fn law_orbit_chain(fast: bool, init: nat)
    requires
        orbit_terminates(fast, init),
    ensures
        orbit_seq(fast, init).len() >= 1,
        orbit_seq(fast, init)[0] as nat == orbit_step(fast, init),
        forall|j: int|
            0 <= j < orbit_seq(fast, init).len() - 1 ==> orbit_seq(fast, init)[j + 1] as nat
                == orbit_step(fast, #[trigger] orbit_seq(fast, init)[j] as nat),
        orbit_seq(fast, init).last() == 1,
        forall|j: int|
            0 <= j < orbit_seq(fast, init).len() - 1 ==> #[trigger] orbit_seq(fast, init)[j] != 1,
{
    let k = orbit_len(fast, init);
    let sq = orbit_seq(fast, init);
    lemma_orbit_len(fast, init);
    lemma_orbit_values_fit(fast, init, 1);
    lemma_iterate_succ(fast, init, 0);
    assert(iterate(fast, init, 0) == init);
    assert forall|j: int| 0 <= j < sq.len() - 1 implies sq[j + 1] as nat == orbit_step(
        fast,
        #[trigger] sq[j] as nat,
    ) by {
        lemma_orbit_values_fit(fast, init, (j + 1) as nat);
        lemma_orbit_values_fit(fast, init, (j + 2) as nat);
        lemma_iterate_succ(fast, init, (j + 1) as nat);
    }
    assert forall|j: int| 0 <= j < sq.len() - 1 implies #[trigger] sq[j] != 1 by {
        lemma_orbit_values_fit(fast, init, (j + 1) as nat);
        assert(iterate(fast, init, (j + 1) as nat) != 1);
    }
}

/// Every value of a trajectory of the shortened map is odd.
pub proof fn law_fast_orbit_is_odd(init: nat)
    requires
        orbit_terminates(true, init),
    ensures
        forall|j: int|
            0 <= j < orbit_seq(true, init).len() ==> #[trigger] orbit_seq(true, init)[j] % 2 == 1,
{
    let k = orbit_len(true, init);
    lemma_orbit_len(true, init);
    assert forall|j: int| 0 <= j < orbit_seq(true, init).len() implies #[trigger] orbit_seq(
        true,
        init,
    )[j] % 2 == 1 by {
        let j0 = j as nat;
        let x = iterate(true, init, j0);
        assert(step_ok(true, x));
        lemma_iterate_succ(true, init, j0);
        lemma_orbit_values_fit(true, init, j0 + 1);
        if x % 2 == 0 {
            lemma_odd_part_bounds(x);
        } else {
            lemma_odd_part_bounds(3 * x + 1);
        }
    }
}


/// The odd values of `s`, in order.
pub open spec fn odd_filter(s: Seq<u64>) -> Seq<u64> {
    s.filter(|x: u64| x % 2 == 1)
}

proof fn lemma_odd_filter_take_succ(s: Seq<u64>, j: int)
    requires
        0 <= j < s.len(),
    ensures
        odd_filter(s.take(j + 1)) == if s[j] % 2 == 1 {
            odd_filter(s.take(j)).push(s[j])
        } else {
            odd_filter(s.take(j))
        },
{
    reveal(Seq::filter);
    assert(s.take(j + 1).drop_last() =~= s.take(j));
    assert(s.take(j + 1).last() == s[j]);
}

/// The plain map never leaves `0`.
proof fn lemma_zero_stays(k: nat)
    ensures
        iterate(false, 0, k) == 0,
    decreases k,
{
    if k > 0 {
        lemma_zero_stays((k - 1) as nat);
    }
}

/// While the plain trajectory has not yet reached its first `1` after `s`
/// steps, each further step of the shortened map ends no later than step `s`.
proof fn lemma_fast_reaches(init: nat, s: nat, k: nat)
    requires
        first_hit_one(false, init, s),
        plain_steps(init, k) <= s,
        forall|i: nat| i < k ==> #[trigger] iterate(true, init, i) > 0,
    ensures
        exists|kk: nat|
            kk >= k && #[trigger] plain_steps(init, kk) == s && (forall|i: nat|
                i < kk ==> #[trigger] iterate(true, init, i) > 0),
    decreases s - plain_steps(init, k),
{
    let p = plain_steps(init, k);
    if p == s {
        assert(k >= k && plain_steps(init, k) == s);
    } else {
        lemma_fast_tracks_plain(init, k);
        let x = iterate(true, init, k);
        assert(x == iterate(false, init, p));
        if x == 0 {
            lemma_iterate_add(false, init, p, (s - p) as nat);
            lemma_zero_stays((s - p) as nat);
        }
        lemma_stride_walk(x);
        assert(plain_steps(init, k + 1) == p + fast_stride(x));
        if s < p + fast_stride(x) {
            let d = (s - p) as nat;
            lemma_iterate_add(false, init, p, d);
            assert(iterate(false, x, d) % 2 == 0);
        }
        assert forall|i: nat| i < k + 1 implies #[trigger] iterate(true, init, i) > 0 by {
            if i == k {
                assert(x > 0);
            }
        }
        lemma_fast_reaches(init, s, k + 1);
    }
}

/// When the plain trajectory from `init` reaches `1`, so does the shortened one.
pub proof fn law_plain_arrival_gives_fast_arrival(init: nat)
    requires
        orbit_terminates(false, init),
    ensures
        orbit_terminates(true, init),
{
    let s = orbit_len(false, init);
    lemma_orbit_len(false, init);
    assert(plain_steps(init, 0) == 0);
    lemma_fast_reaches(init, s, 0);
    let kk = choose|kk: nat|
        kk >= 0 && #[trigger] plain_steps(init, kk) == s && (forall|i: nat|
            i < kk ==> #[trigger] iterate(true, init, i) > 0);
    lemma_fast_tracks_plain(init, kk);
    assert(kk >= 1);
    assert forall|k: nat| 1 <= k < kk implies #[trigger] iterate(true, init, k) != 1 by {
        lemma_fast_tracks_plain(init, k);
        lemma_plain_steps_grow(init, kk, k);
        lemma_plain_steps_grow(init, kk, k + 1);
        assert(plain_steps(init, k) < plain_steps(init, k + 1));
    }
    assert forall|k: nat| k < kk implies step_ok(true, #[trigger] iterate(true, init, k)) by {
        lemma_fast_tracks_plain(init, k);
        lemma_plain_steps_grow(init, kk, k + 1);
        assert(plain_steps(init, k) < plain_steps(init, k + 1));
        assert(step_ok(false, iterate(false, init, plain_steps(init, k))));
    }
    assert(first_hit_one(true, init, kk));
}

/// Within the stride of fast step `k`, the odd values of the plain trajectory
/// are those of the shortened one up to step `k`.
proof fn lemma_filter_window(init: nat, k: nat, d: nat)
    requires
        orbit_terminates(true, init),
        orbit_terminates(false, init),
        k < orbit_len(true, init),
        orbit_len(false, init) == plain_steps(init, orbit_len(true, init)),
        forall|i: nat|
            i < orbit_len(true, init) ==> plain_steps(init, i) < #[trigger] plain_steps(init, i + 1),
        d <= fast_stride(iterate(true, init, k)),
        odd_filter(orbit_seq(false, init).take(plain_steps(init, k) as int)) == orbit_seq(
            true,
            init,
        ).take(k as int),
    ensures
        d < fast_stride(iterate(true, init, k)) ==> odd_filter(
            orbit_seq(false, init).take((plain_steps(init, k) + d) as int),
        ) == orbit_seq(true, init).take(k as int),
        d == fast_stride(iterate(true, init, k)) ==> odd_filter(
            orbit_seq(false, init).take((plain_steps(init, k) + d) as int),
        ) == orbit_seq(true, init).take((k + 1) as int),
    decreases d,
{
    if d > 0 {
        let kk = orbit_len(true, init);
        let plain = orbit_seq(false, init);
        let fast = orbit_seq(true, init);
        let p = plain_steps(init, k);
        let x = iterate(true, init, k);
        lemma_filter_window(init, k, (d - 1) as nat);
        lemma_orbit_len(true, init);
        assert(step_ok(true, x));
        lemma_plain_steps_grow(init, kk, k + 1);
        assert(p + fast_stride(x) == plain_steps(init, k + 1));
        let j = p + d - 1;
        lemma_odd_filter_take_succ(plain, j);
        lemma_orbit_values_fit(false, init, (j + 1) as nat);
        assert(plain[j] as nat == iterate(false, init, (j + 1) as nat));
        lemma_fast_tracks_plain(init, k);
        lemma_iterate_add(false, init, p, d);
        lemma_stride_walk(x);
        if d < fast_stride(x) {
            assert(iterate(false, x, d) % 2 == 0);
        } else {
            lemma_fast_tracks_plain(init, k + 1);
            lemma_iterate_succ(true, init, k);
            lemma_orbit_values_fit(true, init, k + 1);
            assert(fast[k as int] as nat == iterate(true, init, k + 1));
            lemma_odd_part_bounds(if x % 2 == 0 { x } else { 3 * x + 1 });
            assert(fast.take(k as int).push(fast[k as int]) =~= fast.take((k + 1) as int));
        }
    }
}

/// The odd values of the plain trajectory up to plain step `plain_steps(init, k)`
/// are the first `k` values of the shortened trajectory.
proof fn lemma_filter_prefix(init: nat, k: nat)
    requires
        orbit_terminates(true, init),
        orbit_terminates(false, init),
        k <= orbit_len(true, init),
        orbit_len(false, init) == plain_steps(init, orbit_len(true, init)),
        forall|i: nat|
            i < orbit_len(true, init) ==> plain_steps(init, i) < #[trigger] plain_steps(init, i + 1),
    ensures
        odd_filter(orbit_seq(false, init).take(plain_steps(init, k) as int)) == orbit_seq(
            true,
            init,
        ).take(k as int),
    decreases k,
{
    if k == 0 {
        reveal(Seq::filter);
        assert(orbit_seq(false, init).take(0) =~= Seq::<u64>::empty());
        assert(orbit_seq(true, init).take(0) =~= Seq::<u64>::empty());
    } else {
        let k1 = (k - 1) as nat;
        lemma_filter_prefix(init, k1);
        let x = iterate(true, init, k1);
        lemma_filter_window(init, k1, fast_stride(x));
    }
}

/// The plain trajectory from `init` reaches `1` exactly when the shortened one
/// does, and then the shortened trajectory is the odd values of the plain one,
/// in order.
pub proof fn law_fast_orbit_is_odd_part_of_plain(init: nat)
    ensures
        orbit_terminates(false, init) <==> orbit_terminates(true, init),
        orbit_terminates(false, init) ==> orbit_seq(true, init) == odd_filter(
            orbit_seq(false, init),
        ),
{
    if orbit_terminates(false, init) {
        law_plain_arrival_gives_fast_arrival(init);
    }
    if orbit_terminates(true, init) {
        law_fast_orbit_within_plain(init);
        let kk = orbit_len(true, init);
        lemma_filter_prefix(init, kk);
        assert(orbit_seq(false, init).take(plain_steps(init, kk) as int) =~= orbit_seq(false, init));
        assert(orbit_seq(true, init).take(kk as int) =~= orbit_seq(true, init));
    }
}


/// A plain step halves an even number and sends an odd `n` to `3n + 1`, which
/// is even; a shortened step from a positive number gives an odd number that,
/// times a power of two, is the number itself (for an even `n`) or `3n + 1`
/// (for an odd `n`).
pub proof fn law_step_values(n: nat)
    ensures
        n % 2 == 0 ==> 2 * collatz_step(n) == n,
        n % 2 == 1 ==> collatz_step(n) == 3 * n + 1 && collatz_step(n) % 2 == 0,
        n > 0 ==> fast_collatz_step(n) % 2 == 1,
        n > 0 ==> fast_collatz_step(n) * pow2(two_adic(if n % 2 == 0 {
            n
        } else {
            3 * n + 1
        })) == if n % 2 == 0 {
            n
        } else {
            3 * n + 1
        },
{
    if n > 0 {
        let m = if n % 2 == 0 {
            n
        } else {
            3 * n + 1
        };
        lemma_odd_part_bounds(m);
        lemma_odd_part_times_power(m);
    }
}

/// A positive number is its odd part times two to the number of times 2 divides it.
proof fn lemma_odd_part_times_power(m: nat)
    requires
        m > 0,
    ensures
        odd_part(m) * pow2(two_adic(m)) == m,
    decreases m,
{
    if m % 2 == 0 {
        lemma_odd_part_times_power(m / 2);
        lemma_pow2_unfold(two_adic(m));
        let t = two_adic(m);
        let h = m / 2;
        assert(t == two_adic(h) + 1);
        assert((t - 1) as nat == two_adic(h));
        assert(pow2(t) == 2 * pow2(two_adic(h)));
        assert(odd_part(m) == odd_part(h));
        assert(odd_part(m) * pow2(t) == odd_part(h) * (2 * pow2(two_adic(h))));
        assert(2 * h == m);
        assert(odd_part(h) * pow2(two_adic(h)) == h);
        assert(odd_part(m / 2) * (2 * pow2(two_adic(m / 2))) == 2 * (odd_part(m / 2) * pow2(
            two_adic(m / 2),
        ))) by (nonlinear_arith);
    } else {
        lemma2_to64();
        assert(two_adic(m) == 0);
        assert(odd_part(m) == m);
        assert(m * pow2(0) == m);
    }
}

} // verus!
