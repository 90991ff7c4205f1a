//! Evaluation of expressions, with glitches.
use vstd::prelude::*;
use vstd::arithmetic::power::pow;
use crate::ast::{Expr, Opcode, PostfixOpcode, PrefixOpcode, expr_text, help_text};
use crate::glitch::{
    bit_flip, drift, drift_outcome, factorial, factorial_outcome, flip_outcome,
    settled,
};
use crate::numbers::{RandomNumbers, lemma_prefix_trans, prefix_of, replays};

verus! {

/// Values up to this threshold are too small for a literal to drift.
pub const NUMBER_THRESHOLD: u64 = 100;

/// Values up to this threshold are too small for a bit flip.
pub const FLIP_THRESHOLD: u64 = 1000;

/// `b` to the power `e`, modulo 2^64.
pub open spec fn wrapped_pow(b: u64, e: u32) -> u64 {
    (pow(b as int, e as nat) % 0x1_0000_0000_0000_0000) as u64
}

/// Relies on `u64::wrapping_pow`: `b` to the power `e`, modulo 2^64.
#[verifier::external_body]
fn wrapping_power(b: u64, e: u32) -> (r: u64)
    ensures
        r == wrapped_pow(b, e),
{
    b.wrapping_pow(e)
}

/// The depth of the children of a node at `depth`.
pub open spec fn child_depth(depth: u64) -> u64 {
    if depth == u64::MAX { depth } else { (depth + 1) as u64 }
}

/// The message of an evaluation, as characters.
pub open spec fn result_view(r: Result<u64, String>) -> Result<u64, Seq<char>> {
    match r {
        Ok(v) => Ok(v),
        Err(m) => Err(m@),
    }
}

/// The message for input that could not be understood.
pub open spec fn parse_error_text() -> Seq<char> {
    "Oh no, something went wrong!"@
}

/// Outcome of a binary operator on the values `v1` and `v2` of its operands,
/// reading draws from `pos`.
pub open spec fn op_outcome(
    o: Opcode,
    v1: u64,
    v2: u64,
    success_rate: u32,
    depth: u64,
    draws: Seq<u64>,
    pos: nat,
) -> (u64, nat) {
    match o {
        Opcode::Mul => (v1.wrapping_mul(v2), pos),
        Opcode::Div => if v2 == 0 {
            drift_outcome(success_rate, 0, depth, 1, draws, pos)
        } else {
            (v1 / v2, pos)
        },
        Opcode::Mod => if v2 == 0 {
            drift_outcome(success_rate, 0, depth, 1, draws, pos)
        } else {
            (v1 % v2, pos)
        },
        Opcode::Pow => (wrapped_pow(v1, #[verifier::truncate] (v2 as u32)), pos),
        Opcode::Add => (v1.wrapping_add(v2), pos),
        Opcode::Sub => (v1.wrapping_sub(v2), pos),
        Opcode::LShift => {
            let (s, p) = drift_outcome(success_rate, 0, depth, v2, draws, pos);
            (v1.wrapping_shl(#[verifier::truncate] (s as u32)), p)
        },
        Opcode::RShift => {
            let (s, p) = drift_outcome(success_rate, 0, depth, v2, draws, pos);
            (v1.wrapping_shr(#[verifier::truncate] (s as u32)), p)
        },
        Opcode::Or | Opcode::And | Opcode::Xor => {
            let (a, p1) = flip_outcome(success_rate, FLIP_THRESHOLD, depth, v1, draws, pos);
            let (b, p2) = flip_outcome(success_rate, FLIP_THRESHOLD, depth, v2, draws, p1);
            (
                match o {
                    Opcode::Or => a | b,
                    Opcode::And => a & b,
                    _ => a ^ b,
                },
                p2,
            )
        },
    }
}

/// The last step of every numeric result: a bit flip above the flip threshold.
pub open spec fn finish(
    r: (u64, nat),
    success_rate: u32,
    depth: u64,
    draws: Seq<u64>,
) -> (Result<u64, Seq<char>>, nat) {
    let (w, p) = flip_outcome(success_rate, FLIP_THRESHOLD, depth, r.0, draws, r.1);
    (Ok(w), p)
}

/// Outcome of evaluating `e` at `depth`, reading draws from `pos`: the
/// value or message, and the position after the last draw read.
pub open spec fn outcome(
    e: Expr,
    success_rate: u32,
    depth: u64,
    draws: Seq<u64>,
    pos: nat,
) -> (Result<u64, Seq<char>>, nat)
    decreases e,
{
    let cd = child_depth(depth);
    match e {
        Expr::Number(n) => finish(
            drift_outcome(success_rate, NUMBER_THRESHOLD, depth, n, draws, pos),
            success_rate,
            depth,
            draws,
        ),
        Expr::Op(l, o, r) => {
            let (a, p1) = outcome(*l, success_rate, cd, draws, pos);
            match a {
                Err(m) => (Err(m), p1),
                Ok(v1) => {
                    let (b, p2) = outcome(*r, success_rate, cd, draws, p1);
                    match b {
                        Err(m) => (Err(m), p2),
                        Ok(v2) => finish(
                            op_outcome(o, v1, v2, success_rate, depth, draws, p2),
                            success_rate,
                            depth,
                            draws,
                        ),
                    }
                },
            }
        },
        Expr::Prefix(o, inner) => {
            let (a, p1) = outcome(*inner, success_rate, cd, draws, pos);
            match a {
                Err(m) => (Err(m), p1),
                Ok(v) => finish(
                    match o {
                        PrefixOpcode::Not => (!v, p1),
                    },
                    success_rate,
                    depth,
                    draws,
                ),
            }
        },
        Expr::Postfix(inner, o) => {
            let (a, p1) = outcome(*inner, success_rate, cd, draws, pos);
            match a {
                Err(m) => (Err(m), p1),
                Ok(v) => finish(
                    match o {
                        PostfixOpcode::Inc => (v.wrapping_add(1), p1),
                        PostfixOpcode::Dec => (v.wrapping_sub(1), p1),
                        PostfixOpcode::Factorial => factorial_outcome(success_rate, depth, v, draws, p1),
                    },
                    success_rate,
                    depth,
                    draws,
                ),
            }
        },
        Expr::Show(inner) => (Err(expr_text(*inner)), pos),
        Expr::Help(h) => (Err(help_text(h)), pos),
        Expr::Error => (Err(parse_error_text()), pos),
    }
}

/// The glitch-free factorial loop from index `i` on, with running product
/// `acc`.
pub open spec fn clean_factorial_from(n: u64, i: int, acc: u64) -> u64
    decreases n + 1 - i,
{
    if i > n {
        acc
    } else {
        let a = if acc == 0 { (i % 9) as u64 } else { acc };
        clean_factorial_from(n, i + 1, a.wrapping_mul(i as u64))
    }
}

/// A binary operator without glitches.
pub open spec fn clean_op(o: Opcode, v1: u64, v2: u64) -> u64 {
    match o {
        Opcode::Mul => v1.wrapping_mul(v2),
        Opcode::Div => if v2 == 0 { 1 } else { v1 / v2 },
        Opcode::Mod => if v2 == 0 { 1 } else { v1 % v2 },
        Opcode::Pow => wrapped_pow(v1, #[verifier::truncate] (v2 as u32)),
        Opcode::Add => v1.wrapping_add(v2),
        Opcode::Sub => v1.wrapping_sub(v2),
        Opcode::LShift => v1.wrapping_shl(#[verifier::truncate] (v2 as u32)),
        Opcode::RShift => v1.wrapping_shr(#[verifier::truncate] (v2 as u32)),
        Opcode::Or => v1 | v2,
        Opcode::And => v1 & v2,
        Opcode::Xor => v1 ^ v2,
    }
}

/// The value or message of `e` when no glitch happens.
pub open spec fn clean_value(e: Expr) -> Result<u64, Seq<char>>
    decreases e,
{
    match e {
        Expr::Number(n) => Ok(n),
        Expr::Op(l, o, r) => match clean_value(*l) {
            Err(m) => Err(m),
            Ok(v1) => match clean_value(*r) {
                Err(m) => Err(m),
                Ok(v2) => Ok(clean_op(o, v1, v2)),
            },
        },
        Expr::Prefix(o, inner) => match clean_value(*inner) {
            Err(m) => Err(m),
            Ok(v) => Ok(
                match o {
                    PrefixOpcode::Not => !v,
                },
            ),
        },
        Expr::Postfix(inner, o) => match clean_value(*inner) {
            Err(m) => Err(m),
            Ok(v) => Ok(
                match o {
                    PostfixOpcode::Inc => v.wrapping_add(1),
                    PostfixOpcode::Dec => v.wrapping_sub(1),
                    PostfixOpcode::Factorial => clean_factorial_from(v, 2, 1),
                },
            ),
        },
        Expr::Show(inner) => Err(expr_text(*inner)),
        Expr::Help(h) => Err(help_text(h)),
        Expr::Error => Err(parse_error_text()),
    }
}

/// Whatever draws follow `h`, evaluating `e` from position `start` gives
/// `r` and ends at the end of `h`.
pub open spec fn evaluated(
    h: Seq<u64>,
    e: Expr,
    success_rate: u32,
    depth: u64,
    start: nat,
    r: Result<u64, String>,
) -> bool {
    forall|d: Seq<u64>| prefix_of(h, d) ==> #[trigger] outcome(e, success_rate, depth, d, start) == (
    result_view(r), h.len())
}

/// Applies a binary operator to the values of its operands.
fn apply_op(
    rng: &mut RandomNumbers,
    o: Opcode,
    v1: u64,
    v2: u64,
    success_rate: u32,
    depth: u64,
) -> (r: u64)
    ensures
        prefix_of(old(rng)@, final(rng)@),
        final(rng).script() == old(rng).script(),
        replays(old(rng).script(), old(rng)@, final(rng)@),
        settled(
            final(rng)@,
            |d: Seq<u64>| op_outcome(o, v1, v2, success_rate, depth, d, old(rng)@.len()),
            r,
        ),
{
    let ghost h0 = rng@;
    match o {
        Opcode::Mul => v1.wrapping_mul(v2),
        Opcode::Div | Opcode::Mod => {
            if v2 == 0 {
                let r = drift(rng, success_rate, 0, depth, 1);
                assert forall|d: Seq<u64>| prefix_of(rng@, d) implies #[trigger] op_outcome(
                    o,
                    v1,
                    v2,
                    success_rate,
                    depth,
                    d,
                    h0.len(),
                ) == (r, rng@.len()) by {
                    let f = |d: Seq<u64>| drift_outcome(success_rate, 0, depth, 1, d, h0.len());
                    assert(f(d) == (r, rng@.len()));
                }
                r
            } else if o == Opcode::Div {
                v1 / v2
            } else {
                v1 % v2
            }
        },
        Opcode::Pow => wrapping_power(v1, #[verifier::truncate] (v2 as u32)),
        Opcode::Add => v1.wrapping_add(v2),
        Opcode::Sub => v1.wrapping_sub(v2),
        Opcode::LShift => {
            let s = drift(rng, success_rate, 0, depth, v2);
            let r = v1.wrapping_shl(#[verifier::truncate] (s as u32));
            assert forall|d: Seq<u64>| prefix_of(rng@, d) implies #[trigger] op_outcome(
                o,
                v1,
                v2,
                success_rate,
                depth,
                d,
                h0.len(),
            ) == (r, rng@.len()) by {
                let f = |d: Seq<u64>| drift_outcome(success_rate, 0, depth, v2, d, h0.len());
                assert(f(d) == (s, rng@.len()));
            }
            r
        },
        Opcode::RShift => {
            let s = drift(rng, success_rate, 0, depth, v2);
            let r = v1.wrapping_shr(#[verifier::truncate] (s as u32));
            assert forall|d: Seq<u64>| prefix_of(rng@, d) implies #[trigger] op_outcome(
                o,
                v1,
                v2,
                success_rate,
                depth,
                d,
                h0.len(),
            ) == (r, rng@.len()) by {
                let f = |d: Seq<u64>| drift_outcome(success_rate, 0, depth, v2, d, h0.len());
                assert(f(d) == (s, rng@.len()));
            }
            r
        },
        Opcode::Or | Opcode::And | Opcode::Xor => {
            let a = bit_flip(rng, success_rate, FLIP_THRESHOLD, depth, v1);
            let ghost h1 = rng@;
            let b = bit_flip(rng, success_rate, FLIP_THRESHOLD, depth, v2);
            let r = match o {
                Opcode::Or => a | b,
                Opcode::And => a & b,
                _ => a ^ b,
            };
            proof {
                lemma_prefix_trans(h0, h1, rng@);
            }
            assert forall|d: Seq<u64>| prefix_of(rng@, d) implies #[trigger] op_outcome(
                o,
                v1,
                v2,
                success_rate,
                depth,
                d,
                h0.len(),
            ) == (r, rng@.len()) by {
                lemma_prefix_trans(h1, rng@, d);
                let f = |d: Seq<u64>| flip_outcome(success_rate, FLIP_THRESHOLD, depth, v1, d, h0.len());
                let g = |d: Seq<u64>| flip_outcome(success_rate, FLIP_THRESHOLD, depth, v2, d, h1.len());
                assert(f(d) == (a, h1.len()));
                assert(g(d) == (b, rng@.len()));
            }
            r
        },
    }
}

/// Whatever draws follow `h`, evaluating `e` from `start` gives what `r`
/// says before its last step: a value that still goes through `finish`, or
/// a message.
spec fn completes(
    h: Seq<u64>,
    e: Expr,
    success_rate: u32,
    depth: u64,
    start: nat,
    r: Result<u64, String>,
) -> bool {
    forall|d: Seq<u64>| prefix_of(h, d) ==> #[trigger] outcome(e, success_rate, depth, d, start) == (
    match r {
        Ok(v) => finish((v, h.len()), success_rate, depth, d),
        Err(m) => (Err(m@), h.len()),
    })
}

impl Expr {
    /// Evaluates this expression at `depth` (0 at the root), drawing from
    /// `rng`.
    ///
    /// `success_rate` is the probability, in units of 2^-24 (see
    /// `SUCCESS_SCALE`), that a glitch-guarded step stays clean. The result
    /// is the value, or the message of a `Show`, `Help` or `Error` node.
    /// Whatever draws are made, the result is `outcome` of them.
    pub fn evaluate(&self, rng: &mut RandomNumbers, success_rate: u32, depth: u64) -> (r: Result<
        u64,
        String,
    >)
        ensures
            prefix_of(old(rng)@, final(rng)@),
            final(rng).script() == old(rng).script(),
            replays(old(rng).script(), old(rng)@, final(rng)@),
            evaluated(final(rng)@, *self, success_rate, depth, old(rng)@.len(), r),
        decreases self, 1nat,
    {
        let ghost h0 = rng@;
        let c = self.evaluate_node(rng, success_rate, depth);
        match c {
            Err(m) => Err(m),
            Ok(v) => {
                let ghost h1 = rng@;
                let w = bit_flip(rng, success_rate, FLIP_THRESHOLD, depth, v);
                proof {
                    lemma_prefix_trans(h0, h1, rng@);
                    assert forall|d: Seq<u64>| prefix_of(rng@, d) implies #[trigger] outcome(
                        *self,
                        success_rate,
                        depth,
                        d,
                        h0.len(),
                    ) == (result_view(Ok(w)), rng@.len()) by {
                        lemma_prefix_trans(h1, rng@, d);
                        let f = |d: Seq<u64>|
                            flip_outcome(success_rate, FLIP_THRESHOLD, depth, v, d, h1.len());
                        assert(f(d) == (w, rng@.len()));
                    }
                }
                Ok(w)
            },
        }
    }

    /// Evaluates this node up to, not including, the bit flip that every
    /// numeric result goes through last.
    fn evaluate_node(&self, rng: &mut RandomNumbers, success_rate: u32, depth: u64) -> (r: Result<
        u64,
        String,
    >)
        ensures
            prefix_of(old(rng)@, final(rng)@),
            final(rng).script() == old(rng).script(),
            replays(old(rng).script(), old(rng)@, final(rng)@),
            completes(final(rng)@, *self, success_rate, depth, old(rng)@.len(), r),
        decreases self, 0nat,
    {
        let ghost h0 = rng@;
        let cd: u64 = if depth == u64::MAX {
            depth
        } else {
            depth + 1
        };
        assert(cd == child_depth(depth));
        match self {
            Expr::Number(n) => {
                let v = drift(rng, success_rate, NUMBER_THRESHOLD, depth, *n);
                assert forall|d: Seq<u64>| prefix_of(rng@, d) implies #[trigger] outcome(
                    *self,
                    success_rate,
                    depth,
                    d,
                    h0.len(),
                ) == finish((v, rng@.len()), success_rate, depth, d) by {
                    let f = |d: Seq<u64>|
                        drift_outcome(success_rate, NUMBER_THRESHOLD, depth, *n, d, h0.len());
                    assert(f(d) == (v, rng@.len()));
                }
                Ok(v)
            },
            Expr::Op(l, o, r) => {
                let a = l.evaluate(rng, success_rate, cd);
                let ghost h1 = rng@;
                let v1 = match a {
                    Err(m) => {
                        assert forall|d: Seq<u64>| prefix_of(rng@, d) implies #[trigger] outcome(
                            *self,
                            success_rate,
                            depth,
                            d,
                            h0.len(),
                        ) == (Err::<u64, Seq<char>>(m@), rng@.len()) by {
                            assert(outcome(**l, success_rate, cd, d, h0.len()) == (Err::<u64, Seq<char>>(m@), h1.len()));
                        }
                        return Err(m);
                    },
                    Ok(v1) => v1,
                };
                let b = r.evaluate(rng, success_rate, cd);
                let ghost h2 = rng@;
                let v2 = match b {
                    Err(m) => {
                        proof {
                            lemma_prefix_trans(h0, h1, rng@);
                            assert forall|d: Seq<u64>| prefix_of(rng@, d) implies #[trigger] outcome(
                                *self,
                                success_rate,
                                depth,
                                d,
                                h0.len(),
                            ) == (Err::<u64, Seq<char>>(m@), rng@.len()) by {
                                lemma_prefix_trans(h1, rng@, d);
                                assert(outcome(**l, success_rate, cd, d, h0.len()) == (Ok::<u64, Seq<char>>(v1), h1.len()));
                                assert(outcome(**r, success_rate, cd, d, h1.len()) == (Err::<u64, Seq<char>>(m@), rng@.len()));
                            }
                        }
                        return Err(m);
                    },
                    Ok(v2) => v2,
                };
                let v = apply_op(rng, *o, v1, v2, success_rate, depth);
                proof {
                    lemma_prefix_trans(h0, h1, h2);
                    lemma_prefix_trans(h0, h2, rng@);
                    assert forall|d: Seq<u64>| prefix_of(rng@, d) implies #[trigger] outcome(
                        *self,
                        success_rate,
                        depth,
                        d,
                        h0.len(),
                    ) == finish((v, rng@.len()), success_rate, depth, d) by {
                        lemma_prefix_trans(h2, rng@, d);
                        lemma_prefix_trans(h1, h2, d);
                        assert(outcome(**l, success_rate, cd, d, h0.len()) == (Ok::<u64, Seq<char>>(v1), h1.len()));
                        assert(outcome(**r, success_rate, cd, d, h1.len()) == (Ok::<u64, Seq<char>>(v2), h2.len()));
                        let f = |d: Seq<u64>| op_outcome(*o, v1, v2, success_rate, depth, d, h2.len());
                        assert(f(d) == (v, rng@.len()));
                    }
                }
                Ok(v)
            },
            Expr::Prefix(o, inner) => {
                let a = inner.evaluate(rng, success_rate, cd);
                match a {
                    Err(m) => {
                        assert forall|d: Seq<u64>| prefix_of(rng@, d) implies #[trigger] outcome(
                            *self,
                            success_rate,
                            depth,
                            d,
                            h0.len(),
                        ) == (Err::<u64, Seq<char>>(m@), rng@.len()) by {
                            assert(outcome(**inner, success_rate, cd, d, h0.len()) == (Err::<u64, Seq<char>>(m@), rng@.len()));
                        }
                        Err(m)
                    },
                    Ok(v) => {
                        let w = match o {
                            PrefixOpcode::Not => !v,
                        };
                        assert forall|d: Seq<u64>| prefix_of(rng@, d) implies #[trigger] outcome(
                            *self,
                            success_rate,
                            depth,
                            d,
                            h0.len(),
                        ) == finish((w, rng@.len()), success_rate, depth, d) by {
                            assert(outcome(**inner, success_rate, cd, d, h0.len()) == (Ok::<u64, Seq<char>>(v), rng@.len()));
                        }
                        Ok(w)
                    },
                }
            },
            Expr::Postfix(inner, o) => {
                let a = inner.evaluate(rng, success_rate, cd);
                let ghost h1 = rng@;
                match a {
                    Err(m) => {
                        assert forall|d: Seq<u64>| prefix_of(rng@, d) implies #[trigger] outcome(
                            *self,
                            success_rate,
                            depth,
                            d,
                            h0.len(),
                        ) == (Err::<u64, Seq<char>>(m@), rng@.len()) by {
                            assert(outcome(**inner, success_rate, cd, d, h0.len()) == (Err::<u64, Seq<char>>(m@), rng@.len()));
                        }
                        Err(m)
                    },
                    Ok(v) => {
                        let w = match o {
                            PostfixOpcode::Inc => v.wrapping_add(1),
                            PostfixOpcode::Dec => v.wrapping_sub(1),
                            PostfixOpcode::Factorial => factorial(rng, success_rate, depth, v),
                        };
                        proof {
                            lemma_prefix_trans(h0, h1, rng@);
                            assert forall|d: Seq<u64>| prefix_of(rng@, d) implies #[trigger] outcome(
                                *self,
                                success_rate,
                                depth,
                                d,
                                h0.len(),
                            ) == finish((w, rng@.len()), success_rate, depth, d) by {
                                lemma_prefix_trans(h1, rng@, d);
                                assert(outcome(**inner, success_rate, cd, d, h0.len()) == (Ok::<u64, Seq<char>>(v), h1.len()));
                                let f = |d: Seq<u64>| factorial_outcome(success_rate, depth, v, d, h1.len());
                                if *o == PostfixOpcode::Factorial {
                                    assert(f(d) == (w, rng@.len()));
                                }
                            }
                        }
                        Ok(w)
                    },
                }
            },
            Expr::Show(inner) => Err(inner.render()),
            Expr::Help(h) => Err(h.description()),
            Expr::Error => Err(String::from_str("Oh no, something went wrong!")),
        }
    }
}

} // verus!
