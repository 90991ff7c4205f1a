//! Properties of the evaluator, the glitches and the help catalog.
use vstd::prelude::*;
use crate::ast::{
    Expr, Help, Opcode, PostfixOpcode, expr_text, help_text, joined, operator_tokens,
};
use crate::eval::{
    FLIP_THRESHOLD, NUMBER_THRESHOLD, child_depth, clean_factorial_from, clean_op, clean_value,
    evaluated, op_outcome, outcome, result_view,
};
use crate::numbers::prefix_of;
use crate::glitch::{
    FLIP_FUEL, SUCCESS_SCALE, drift_outcome, factorial_from, flip_choice, flip_outcome,
    place_value,
};

verus! {

/// Dividing a literal by the literal 0, or taking the remainder, never
/// fails: the result is 0, 1 or 2, whatever the draws.
pub proof fn lemma_division_by_zero(a: u64, o: Opcode, success_rate: u32, depth: u64, draws: Seq<u64>, pos: nat)
    requires
        o == Opcode::Div || o == Opcode::Mod,
    ensures
        outcome(
            Expr::Op(Box::new(Expr::Number(a)), o, Box::new(Expr::Number(0))),
            success_rate,
            depth,
            draws,
            pos,
        ).0 matches Ok(v) && v <= 2,
{
    let cd = child_depth(depth);
    let (a1, p1) = outcome(Expr::Number(a), success_rate, cd, draws, pos);
    assert(a1 is Ok);
    let v1 = a1->Ok_0;
    assert(outcome(Expr::Number(0), success_rate, cd, draws, p1) == (Ok::<u64, Seq<char>>(0), p1));
    let (x, p2) = op_outcome(o, v1, 0, success_rate, depth, draws, p1);
    assert(x <= 2);
    assert(flip_outcome(success_rate, FLIP_THRESHOLD, depth, x, draws, p2) == (x, p2));
}

/// `show` never evaluates: it fails with the structural rendering of the
/// expression it is given, and draws nothing.
pub proof fn lemma_show_renders(e: Expr, success_rate: u32, depth: u64, draws: Seq<u64>, pos: nat)
    ensures
        outcome(Expr::Show(Box::new(e)), success_rate, depth, draws, pos) == (
        Err::<u64, Seq<char>>(expr_text(e)), pos),
{
}

/// The bit chosen for a flip follows the rule "pass over the leading draws
/// whose place value exceeds `v`, skip the first one that does not, take the
/// draw right after it": when, from `pos` on, the draw at `k` is the first
/// whose place value does not exceed `v`, the place value of the draw at
/// `k + 1` is chosen, whatever it is, and reading goes on at `k + 2` (for
/// fewer than `FLIP_FUEL` draws passed over).
pub proof fn lemma_flip_choice_rule(v: u64, d: Seq<u64>, pos: nat, k: nat)
    requires
        pos <= k,
        k - pos < FLIP_FUEL,
        place_value(d[k as int]) <= v,
        forall|i: int| pos <= i < k ==> place_value(#[trigger] d[i]) > v,
    ensures
        flip_choice(v, d, pos, FLIP_FUEL as nat) == (place_value(d[k + 1 as int]), k + 2),
{
    lemma_flip_choice_from(v, d, pos, k, FLIP_FUEL as nat);
}

/// The rule of `lemma_flip_choice_rule`, for any fuel left that exceeds the
/// draws still to pass over.
proof fn lemma_flip_choice_from(v: u64, d: Seq<u64>, p: nat, k: nat, fuel: nat)
    requires
        p <= k,
        k - p < fuel,
        place_value(d[k as int]) <= v,
        forall|i: int| p <= i < k ==> place_value(#[trigger] d[i]) > v,
    ensures
        flip_choice(v, d, p, fuel) == (place_value(d[k + 1 as int]), k + 2),
    decreases k - p,
{
    if p < k {
        lemma_flip_choice_from(v, d, p + 1, k, (fuel - 1) as nat);
    }
}

/// `joined(items, sep)` holds each item at some position.
proof fn lemma_joined_holds(items: Seq<Seq<char>>, sep: Seq<char>, i: int) -> (k: int)
    requires
        0 <= i < items.len(),
    ensures
        0 <= k,
        k + items[i].len() <= joined(items, sep).len(),
        joined(items, sep).subrange(k, k + items[i].len()) == items[i],
    decreases items.len(),
{
    let t = joined(items, sep);
    if items.len() == 1 {
        assert(t.subrange(0, items[i].len() as int) =~= items[i]);
        0
    } else if i == items.len() - 1 {
        let k: int = (joined(items.drop_last(), sep).len() + sep.len()) as int;
        assert(t.subrange(k, k + items[i].len()) =~= items[i]);
        k
    } else {
        let rest = items.drop_last();
        let k = lemma_joined_holds(rest, sep, i);
        let head = joined(rest, sep);
        assert(rest[i] == items[i]);
        assert(t.subrange(k, k + items[i].len()) =~= head.subrange(k, k + items[i].len()));
        k
    }
}

/// The general help names every operator token.
pub proof fn lemma_general_help_lists(i: int)
    requires
        0 <= i < operator_tokens().len(),
    ensures
        exists|k: int|
            0 <= k && k + operator_tokens()[i].len() <= help_text(Help::Help).len()
                && #[trigger] help_text(Help::Help).subrange(k, k + operator_tokens()[i].len())
                == operator_tokens()[i],
{
    let pre = "Show help for one of the following operators: "@;
    let list = joined(operator_tokens(), ", "@);
    let k = lemma_joined_holds(operator_tokens(), ", "@, i);
    let t = help_text(Help::Help);
    let n = operator_tokens()[i].len();
    assert(t == pre + list);
    assert(t.subrange(pre.len() + k, pre.len() + k + n) =~= list.subrange(k, k + n));
}

/// Every help topic has a non-empty description.
pub proof fn lemma_help_described(h: Help)
    ensures
        help_text(h).len() > 0,
{
    reveal_strlit("Multiplication. Multiplies the two given numbers.");
    reveal_strlit("Integer Division. Divides the first number with the second number and drops the remainder");
    reveal_strlit("Modulo. Like integer division, but returns the remainder instead.");
    reveal_strlit("Power. Raises the first number to the power of the second number.");
    reveal_strlit("Addition. Adds the two given numbers together.");
    reveal_strlit("Subtraction. Subtracts the second number from the first.");
    reveal_strlit("Bit Shift Left. Shifts all bits from the first number to the left by the amount of the second number.");
    reveal_strlit("Bit Shift Right. Shifts all bits from the first number to the righ by the amount of the second number.");
    reveal_strlit("Bitwise OR. Performs a bitwise OR between the two numbers.");
    reveal_strlit("Bitwise AND. Performs a bitwise AND between the two numbers.");
    reveal_strlit("Bitwise XOR. Performs a bitwise XOR between the two numbers.");
    reveal_strlit("Bitwise Not. Flips every bit in the following number.");
    reveal_strlit("Increment. Increments the preceding number by 1.");
    reveal_strlit("Decrement. Decrements the preceding number by 1.");
    reveal_strlit("Factorial. Calculates the factorial of the preceding number.");
    reveal_strlit("A number.");
    reveal_strlit("The lowest possible number.");
    reveal_strlit("The highest possible number.");
    reveal_strlit("The speed of light.");
    reveal_strlit("Command to show an expression with parenthesis.");
    reveal_strlit("Show help for one of the following operators: ");
}

/// A bit flip at a success rate of certainty leaves its value alone.
proof fn lemma_flip_clean(success_rate: u32, min: u64, depth: u64, v: u64, d: Seq<u64>, pos: nat)
    requires
        success_rate >= SUCCESS_SCALE,
    ensures
        flip_outcome(success_rate, min, depth, v, d, pos).0 == v,
{
}

/// The factorial loop at a success rate of certainty has no glitches.
proof fn lemma_factorial_clean(
    success_rate: u32,
    depth: u64,
    n: u64,
    i: int,
    acc: u64,
    d: Seq<u64>,
    p: nat,
)
    requires
        success_rate >= SUCCESS_SCALE,
    ensures
        factorial_from(success_rate, depth, n, i, acc, d, p).0 == clean_factorial_from(n, i, acc),
    decreases n + 1 - i,
{
    if i <= n {
        let (a, q) = if acc == 0 {
            drift_outcome(success_rate, 0, depth, (i % 9) as u64, d, p)
        } else {
            (acc, p)
        };
        lemma_factorial_clean(success_rate, depth, n, i + 1, a.wrapping_mul(i as u64), d, q);
    }
}

/// At a success rate of certainty every coin passes, whatever the draws:
/// evaluation gives the glitch-free value or message.
pub proof fn lemma_certain_is_clean(e: Expr, success_rate: u32, depth: u64, d: Seq<u64>, pos: nat)
    requires
        success_rate >= SUCCESS_SCALE,
    ensures
        outcome(e, success_rate, depth, d, pos).0 == clean_value(e),
    decreases e,
{
    let cd = child_depth(depth);
    match e {
        Expr::Number(n) => {
            let (v, p) = drift_outcome(success_rate, NUMBER_THRESHOLD, depth, n, d, pos);
            lemma_flip_clean(success_rate, FLIP_THRESHOLD, depth, v, d, p);
        },
        Expr::Op(l, o, r) => {
            let (a, p1) = outcome(*l, success_rate, cd, d, pos);
            let (b, p2) = outcome(*r, success_rate, cd, d, p1);
            lemma_certain_is_clean(*l, success_rate, cd, d, pos);
            lemma_certain_is_clean(*r, success_rate, cd, d, p1);
            if a is Ok && b is Ok {
                let (v1, v2) = (a->Ok_0, b->Ok_0);
                let (x, p3) = op_outcome(o, v1, v2, success_rate, depth, d, p2);
                let q = flip_outcome(success_rate, FLIP_THRESHOLD, depth, v1, d, p2).1;
                lemma_flip_clean(success_rate, FLIP_THRESHOLD, depth, v1, d, p2);
                lemma_flip_clean(success_rate, FLIP_THRESHOLD, depth, v2, d, q);
                assert(x == clean_op(o, v1, v2));
                lemma_flip_clean(success_rate, FLIP_THRESHOLD, depth, x, d, p3);
            }
        },
        Expr::Prefix(o, inner) => {
            let (a, p1) = outcome(*inner, success_rate, cd, d, pos);
            lemma_certain_is_clean(*inner, success_rate, cd, d, pos);
            if a is Ok {
                lemma_flip_clean(success_rate, FLIP_THRESHOLD, depth, !(a->Ok_0), d, p1);
            }
        },
        Expr::Postfix(inner, o) => {
            let (a, p1) = outcome(*inner, success_rate, cd, d, pos);
            lemma_certain_is_clean(*inner, success_rate, cd, d, pos);
            if a is Ok {
                let v = a->Ok_0;
                let (x, p2) = match o {
                    PostfixOpcode::Inc => (v.wrapping_add(1), p1),
                    PostfixOpcode::Dec => (v.wrapping_sub(1), p1),
                    PostfixOpcode::Factorial => factorial_from(success_rate, depth, v, 2, 1, d, p1),
                };
                if o == PostfixOpcode::Factorial {
                    lemma_factorial_clean(success_rate, depth, v, 2, 1, d, p1);
                }
                lemma_flip_clean(success_rate, FLIP_THRESHOLD, depth, x, d, p2);
            }
        },
        _ => {},
    }
}

/// With a success rate of certainty no glitch happens: an evaluation gives
/// the glitch-free value or message.
pub proof fn lemma_certain_evaluation(
    e: Expr,
    success_rate: u32,
    depth: u64,
    h0: Seq<u64>,
    h1: Seq<u64>,
    r: Result<u64, String>,
)
    requires
        success_rate >= SUCCESS_SCALE,
        evaluated(h1, e, success_rate, depth, h0.len(), r),
    ensures
        result_view(r) == clean_value(e),
{
    assert(prefix_of(h1, h1));
    assert(outcome(e, success_rate, depth, h1, h0.len()) == (result_view(r), h1.len()));
    lemma_certain_is_clean(e, success_rate, depth, h1, h0.len());
}

/// With a success rate of certainty, two evaluations of one expression, on
/// streams of their own, give the same result.
pub proof fn lemma_certain_evaluations_agree(
    e: Expr,
    success_rate: u32,
    depth: u64,
    h0: Seq<u64>,
    h1: Seq<u64>,
    r1: Result<u64, String>,
    g0: Seq<u64>,
    g1: Seq<u64>,
    r2: Result<u64, String>,
)
    requires
        success_rate >= SUCCESS_SCALE,
        evaluated(h1, e, success_rate, depth, h0.len(), r1),
        evaluated(g1, e, success_rate, depth, g0.len(), r2),
    ensures
        result_view(r1) == result_view(r2),
{
    lemma_certain_evaluation(e, success_rate, depth, h0, h1, r1);
    lemma_certain_evaluation(e, success_rate, depth, g0, g1, r2);
}

} // verus!
