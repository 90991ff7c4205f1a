//! The glitch primitives: drift, bit flip, and the glitch-aware factorial.
//!
//! Each primitive has a spec function that gives its outcome as a function of
//! the draws it reads, starting at a position of the stream's history; the
//! executable function makes those draws and returns that outcome.
use vstd::prelude::*;
use crate::numbers::{RandomNumbers, lemma_prefix_trans, prefix_of, replays};

verus! {

/// Success rates are probabilities in units of 2^-24: this value, and any
/// above it, stands for certainty.
pub const SUCCESS_SCALE: u64 = 16777216;

/// Number of bit positions that a bit flip may choose from.
pub const FLIP_POSITIONS: u64 = 8;

/// How many draws the search for a bit to flip makes before it settles on
/// the lowest bit. For any value of at least 1 each draw is eligible with
/// probability at least 1/8, so the bound is never reached in practice.
pub const FLIP_FUEL: u64 = 0xffff_ffff_ffff_ffff;

/// The coin that decides whether a value stays clean: a draw, reduced below
/// `SUCCESS_SCALE`, passes when it does not exceed the success rate.
pub open spec fn coin_passes(draw: u64, success_rate: u32) -> bool {
    draw % SUCCESS_SCALE <= success_rate
}

/// A glitch may touch `v` only away from the root and above the threshold.
pub open spec fn perturbs(depth: u64, min: u64, v: u64) -> bool {
    depth > 0 && v > min
}

/// One step up or down, by a fair draw reduced below 2.
pub open spec fn nudge(v: u64, draw: u64) -> u64 {
    if draw % 2 != 0 { v.wrapping_add(1) } else { v.wrapping_sub(1) }
}

/// The place value of the bit position that a draw `n` selects, once
/// reduced below `FLIP_POSITIONS`.
pub open spec fn place_value(n: u64) -> u64 {
    1u64 << (n % FLIP_POSITIONS)
}

/// Whatever draws follow the history `h`, the outcome `f` of them is
/// `(r, h.len())`: `f` reads exactly the draws that `h` ends with.
pub open spec fn settled(h: Seq<u64>, f: spec_fn(Seq<u64>) -> (u64, nat), r: u64) -> bool {
    forall|d: Seq<u64>| prefix_of(h, d) ==> #[trigger] f(d) == (r, h.len())
}

/// Outcome of a drift of `v`, reading draws from `pos`: the value and the
/// position after the last draw read.
pub open spec fn drift_outcome(
    success_rate: u32,
    min: u64,
    depth: u64,
    v: u64,
    draws: Seq<u64>,
    pos: nat,
) -> (u64, nat) {
    if !perturbs(depth, min, v) {
        (v, pos)
    } else if coin_passes(draws[pos as int], success_rate) {
        (v, pos + 1)
    } else {
        (nudge(v, draws[pos + 1 as int]), pos + 2)
    }
}

/// Choice of the place value to flip in `v`, reading draws of bit positions
/// from `pos`: the leading draws whose place value exceeds `v` are passed
/// over, the first draw that does not exceed `v` is skipped as well, and the
/// draw right after it is chosen, whatever its place value. After `fuel`
/// draws without one that does not exceed `v`, the lowest bit is chosen.
pub open spec fn flip_choice(v: u64, draws: Seq<u64>, pos: nat, fuel: nat) -> (u64, nat)
    decreases fuel,
{
    if fuel == 0 {
        (1, pos)
    } else if place_value(draws[pos as int]) > v {
        flip_choice(v, draws, pos + 1, (fuel - 1) as nat)
    } else {
        (place_value(draws[pos + 1 as int]), pos + 2)
    }
}

/// Outcome of a bit flip of `v`, reading draws from `pos`.
pub open spec fn flip_outcome(
    success_rate: u32,
    min: u64,
    depth: u64,
    v: u64,
    draws: Seq<u64>,
    pos: nat,
) -> (u64, nat) {
    if !perturbs(depth, min, v) {
        (v, pos)
    } else if coin_passes(draws[pos as int], success_rate) {
        (v, pos + 1)
    } else {
        let (b, p) = flip_choice(v, draws, pos + 1, FLIP_FUEL as nat);
        (v ^ b, p)
    }
}

/// Draws the success coin.
fn coin(rng: &mut RandomNumbers, success_rate: u32) -> (r: bool)
    ensures
        final(rng)@.len() == old(rng)@.len() + 1,
        prefix_of(old(rng)@, final(rng)@),
        final(rng).script() == old(rng).script(),
        replays(old(rng).script(), old(rng)@, final(rng)@),
        r == coin_passes(final(rng)@.last(), success_rate),
{
    let d = rng.draw_below(SUCCESS_SCALE);
    d <= success_rate as u64
}

/// Drift: with the guard met and the coin failed, moves `v` one step up or
/// down (wrapping); otherwise leaves it unchanged.
pub fn drift(rng: &mut RandomNumbers, success_rate: u32, min: u64, depth: u64, v: u64) -> (r: u64)
    ensures
        prefix_of(old(rng)@, final(rng)@),
        final(rng).script() == old(rng).script(),
        replays(old(rng).script(), old(rng)@, final(rng)@),
        settled(
            final(rng)@,
            |d: Seq<u64>| drift_outcome(success_rate, min, depth, v, d, old(rng)@.len()),
            r,
        ),
{
    let ghost h0 = rng@;
    if !(depth > 0 && v > min) {
        return v;
    }
    if coin(rng, success_rate) {
        assert forall|d: Seq<u64>| prefix_of(rng@, d) implies #[trigger] drift_outcome(
            success_rate,
            min,
            depth,
            v,
            d,
            h0.len(),
        ) == (v, rng@.len()) by {
            assert(d[h0.len() as int] == rng@[h0.len() as int]);
        }
        return v;
    }
    let ghost h1 = rng@;
    let up = rng.draw_below(2);
    let r = if up != 0 { v.wrapping_add(1) } else { v.wrapping_sub(1) };
    assert forall|d: Seq<u64>| prefix_of(rng@, d) implies #[trigger] drift_outcome(
        success_rate,
        min,
        depth,
        v,
        d,
        h0.len(),
    ) == (r, rng@.len()) by {
        assert(d[h0.len() as int] == rng@[h0.len() as int]);
        assert(d[h1.len() as int] == rng@[h1.len() as int]);
    }
    r
}

/// Draws bit positions until the place value to flip in `v` is chosen.
fn choose_place(rng: &mut RandomNumbers, v: u64) -> (b: u64)
    ensures
        exists|n: u64| n < FLIP_POSITIONS && b == place_value(n),
        prefix_of(old(rng)@, final(rng)@),
        final(rng).script() == old(rng).script(),
        replays(old(rng).script(), old(rng)@, final(rng)@),
        settled(final(rng)@, |d: Seq<u64>| flip_choice(v, d, old(rng)@.len(), FLIP_FUEL as nat), b),
{
    let ghost h0 = rng@;
    let mut fuel: u64 = FLIP_FUEL;
    loop
        invariant
            h0 == old(rng)@,
            prefix_of(h0, rng@),
            rng.script() == old(rng).script(),
            replays(old(rng).script(), h0, rng@),
            forall|d: Seq<u64>| #[trigger]
                prefix_of(rng@, d) ==> flip_choice(v, d, h0.len(), FLIP_FUEL as nat)
                    == flip_choice(v, d, rng@.len(), fuel as nat),
        decreases fuel,
    {
        if fuel == 0 {
            assert(place_value(0) == 1) by {
                assert(1u64 << 0u64 == 1u64) by (bit_vector);
            }
            return 1;
        }
        let ghost h1 = rng@;
        let n = rng.draw_below(FLIP_POSITIONS);
        let b: u64 = 1u64 << n;
        fuel = fuel - 1;
        assert(prefix_of(h0, rng@)) by {
            assert forall|i: int| 0 <= i < h0.len() implies #[trigger] rng@[i] == h0[i] by {
                assert(rng@[i] == h1[i]);
            }
        }
        if b <= v {
            let ghost h2 = rng@;
            let m = rng.draw_below(FLIP_POSITIONS);
            let c: u64 = 1u64 << m;
            assert(prefix_of(h0, rng@)) by {
                assert forall|i: int| 0 <= i < h0.len() implies #[trigger] rng@[i] == h0[i] by {
                    assert(rng@[i] == h2[i]);
                }
            }
            assert forall|d: Seq<u64>| prefix_of(rng@, d) implies #[trigger] flip_choice(
                v,
                d,
                h0.len(),
                FLIP_FUEL as nat,
            ) == (c, rng@.len()) by {
                assert(prefix_of(h2, d));
                assert(prefix_of(h1, d));
                assert(d[h1.len() as int] == rng@[h1.len() as int]);
                assert(d[h2.len() as int] == rng@[h2.len() as int]);
            }
            assert(c == place_value(m));
            return c;
        }
        assert forall|d: Seq<u64>| #[trigger] prefix_of(rng@, d) implies flip_choice(
            v,
            d,
            h0.len(),
            FLIP_FUEL as nat,
        ) == flip_choice(v, d, rng@.len(), fuel as nat) by {
            assert(prefix_of(h1, d));
            assert(d[h1.len() as int] == rng@[h1.len() as int]);
        }
    }
}

/// Bit flip: with the guard met and the coin failed, flips one of the
/// `FLIP_POSITIONS` low bits of `v`, chosen as `flip_choice` says; otherwise
/// leaves it unchanged.
pub fn bit_flip(rng: &mut RandomNumbers, success_rate: u32, min: u64, depth: u64, v: u64) -> (r: u64)
    ensures
        r == v || exists|n: u64| n < FLIP_POSITIONS && r == v ^ place_value(n),
        prefix_of(old(rng)@, final(rng)@),
        final(rng).script() == old(rng).script(),
        replays(old(rng).script(), old(rng)@, final(rng)@),
        settled(
            final(rng)@,
            |d: Seq<u64>| flip_outcome(success_rate, min, depth, v, d, old(rng)@.len()),
            r,
        ),
{
    let ghost h0 = rng@;
    if !(depth > 0 && v > min) {
        return v;
    }
    let clean = coin(rng, success_rate);
    let ghost h1 = rng@;
    if clean {
        assert forall|d: Seq<u64>| prefix_of(rng@, d) implies #[trigger] flip_outcome(
            success_rate,
            min,
            depth,
            v,
            d,
            h0.len(),
        ) == (v, rng@.len()) by {
            assert(d[h0.len() as int] == rng@[h0.len() as int]);
        }
        return v;
    }
    let b = choose_place(rng, v);
    assert forall|d: Seq<u64>| prefix_of(rng@, d) implies #[trigger] flip_outcome(
        success_rate,
        min,
        depth,
        v,
        d,
        h0.len(),
    ) == (v ^ b, rng@.len()) by {
        assert(prefix_of(h1, d));
        assert(d[h0.len() as int] == h1[h0.len() as int]);
        let f = |d: Seq<u64>| flip_choice(v, d, h1.len(), FLIP_FUEL as nat);
        assert(f(d) == (b, rng@.len()));
    }
    v ^ b
}

/// The factorial loop from index `i` on, with running product `acc`: each
/// index up to `n` multiplies the product (wrapping), and a product that has
/// become 0 is first replaced by the drift of `i % 9`.
pub open spec fn factorial_from(
    success_rate: u32,
    depth: u64,
    n: u64,
    i: int,
    acc: u64,
    draws: Seq<u64>,
    pos: nat,
) -> (u64, nat)
    decreases n + 1 - i,
{
    if i > n {
        (acc, pos)
    } else {
        let (a, p) = if acc == 0 {
            drift_outcome(success_rate, 0, depth, (i % 9) as u64, draws, pos)
        } else {
            (acc, pos)
        };
        factorial_from(success_rate, depth, n, i + 1, a.wrapping_mul(i as u64), draws, p)
    }
}

/// Outcome of the glitch-aware factorial of `n`, reading draws from `pos`.
pub open spec fn factorial_outcome(success_rate: u32, depth: u64, n: u64, draws: Seq<u64>, pos: nat) -> (u64, nat) {
    factorial_from(success_rate, depth, n, 2, 1, draws, pos)
}

/// The product `2 * 3 * ... * n` with wrapping multiplication (1 for
/// `n <= 1`); a product that has wrapped to exactly 0 restarts from the
/// drift of the next index modulo 9.
pub fn factorial(rng: &mut RandomNumbers, success_rate: u32, depth: u64, n: u64) -> (r: u64)
    ensures
        prefix_of(old(rng)@, final(rng)@),
        final(rng).script() == old(rng).script(),
        replays(old(rng).script(), old(rng)@, final(rng)@),
        settled(
            final(rng)@,
            |d: Seq<u64>| factorial_outcome(success_rate, depth, n, d, old(rng)@.len()),
            r,
        ),
{
    let ghost h0 = rng@;
    let mut acc: u64 = 1;
    let mut i: u128 = 2;
    assert forall|d: Seq<u64>| #[trigger] prefix_of(rng@, d) implies factorial_outcome(
        success_rate,
        depth,
        n,
        d,
        h0.len(),
    ) == factorial_from(success_rate, depth, n, i as int, acc, d, rng@.len()) by {}
    while i <= n as u128
        invariant
            2 <= i <= n as int + 2,
            h0 == old(rng)@,
            prefix_of(h0, rng@),
            rng.script() == old(rng).script(),
            replays(old(rng).script(), h0, rng@),
            forall|d: Seq<u64>| #[trigger]
                prefix_of(rng@, d) ==> factorial_outcome(success_rate, depth, n, d, h0.len())
                    == factorial_from(success_rate, depth, n, i as int, acc, d, rng@.len()),
        decreases n + 1 - i,
    {
        let ghost h1 = rng@;
        let ghost acc1 = acc;
        let a = if acc == 0 {
            drift(rng, success_rate, 0, depth, (i % 9) as u64)
        } else {
            acc
        };
        acc = a.wrapping_mul(i as u64);
        proof {
            lemma_prefix_trans(h0, h1, rng@);
            assert forall|d: Seq<u64>| #[trigger] prefix_of(rng@, d) implies factorial_outcome(
                success_rate,
                depth,
                n,
                d,
                h0.len(),
            ) == factorial_from(success_rate, depth, n, i + 1, acc, d, rng@.len()) by {
                lemma_prefix_trans(h1, rng@, d);
                if acc1 == 0 {
                    let f = |d: Seq<u64>| drift_outcome(success_rate, 0, depth, (i % 9) as u64, d, h1.len());
                    assert(f(d) == (a, rng@.len()));
                }
            }
        }
        i = i + 1;
    }
    assert forall|d: Seq<u64>| prefix_of(rng@, d) implies #[trigger] factorial_outcome(
        success_rate,
        depth,
        n,
        d,
        h0.len(),
    ) == (acc, rng@.len()) by {
        assert(factorial_from(success_rate, depth, n, i as int, acc, d, rng@.len()) == (acc, rng@.len()));
    }
    acc
}

} // verus!
