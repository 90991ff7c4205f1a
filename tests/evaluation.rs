use glitch_calc::ast::{Constant, Expr, ExprSymbol, Help, Opcode, PostfixOpcode, PrefixOpcode};
use glitch_calc::glitch::SUCCESS_SCALE;
use glitch_calc::numbers::RandomNumbers;

const CERTAIN: u32 = SUCCESS_SCALE as u32;

fn num(n: u64) -> Box<Expr> {
    Box::new(Expr::Number(n))
}

fn op(l: u64, o: Opcode, r: u64) -> Expr {
    Expr::Op(num(l), o, num(r))
}

fn eval_certain(e: &Expr) -> Result<u64, String> {
    let mut rng = RandomNumbers::new(0, 8);
    e.evaluate(&mut rng, CERTAIN, 0)
}

#[test]
fn clean_addition_multiplication_power() {
    assert_eq!(eval_certain(&op(2, Opcode::Add, 2)), Ok(4));
    assert_eq!(eval_certain(&op(6, Opcode::Mul, 7)), Ok(42));
    assert_eq!(eval_certain(&op(2, Opcode::Pow, 10)), Ok(1024));
}

#[test]
fn clean_other_operators() {
    assert_eq!(eval_certain(&op(7, Opcode::Sub, 9)), Ok(u64::MAX - 1));
    assert_eq!(eval_certain(&op(u64::MAX, Opcode::Add, 1)), Ok(0));
    assert_eq!(eval_certain(&op(u64::MAX, Opcode::Mul, 2)), Ok(u64::MAX - 1));
    assert_eq!(eval_certain(&op(17, Opcode::Div, 5)), Ok(3));
    assert_eq!(eval_certain(&op(17, Opcode::Mod, 5)), Ok(2));
    assert_eq!(eval_certain(&op(1, Opcode::LShift, 4)), Ok(16));
    assert_eq!(eval_certain(&op(256, Opcode::RShift, 4)), Ok(16));
    assert_eq!(eval_certain(&op(1, Opcode::LShift, 65)), Ok(2));
    assert_eq!(eval_certain(&op(12, Opcode::Or, 3)), Ok(15));
    assert_eq!(eval_certain(&op(12, Opcode::And, 10)), Ok(8));
    assert_eq!(eval_certain(&op(12, Opcode::Xor, 10)), Ok(6));
    assert_eq!(eval_certain(&op(3, Opcode::Pow, 41)), Ok(3u64.wrapping_pow(41)));
}

#[test]
fn clean_prefix_and_postfix() {
    assert_eq!(eval_certain(&Expr::Prefix(PrefixOpcode::Not, num(0))), Ok(u64::MAX));
    assert_eq!(eval_certain(&Expr::Postfix(num(41), PostfixOpcode::Inc)), Ok(42));
    assert_eq!(eval_certain(&Expr::Postfix(num(0), PostfixOpcode::Dec)), Ok(u64::MAX));
}

#[test]
fn factorial_small_values() {
    assert_eq!(eval_certain(&Expr::Postfix(num(0), PostfixOpcode::Factorial)), Ok(1));
    assert_eq!(eval_certain(&Expr::Postfix(num(1), PostfixOpcode::Factorial)), Ok(1));
    assert_eq!(eval_certain(&Expr::Postfix(num(5), PostfixOpcode::Factorial)), Ok(120));
    assert_eq!(eval_certain(&Expr::Postfix(num(20), PostfixOpcode::Factorial)), Ok(2432902008176640000));
}

#[test]
fn factorial_wraps_to_zero_and_recovers() {
    // 66! is a multiple of 2^64, so the product wraps to 0 at index 66;
    // with clean drifts it then restarts from 67 % 9 = 4 at index 67.
    let mut expected: u64 = 1;
    let mut i: u64 = 2;
    while i <= 70 {
        if expected == 0 {
            expected = i % 9;
        }
        expected = expected.wrapping_mul(i);
        i += 1;
    }
    let e = Expr::Op(
        Box::new(Expr::Postfix(num(70), PostfixOpcode::Factorial)),
        Opcode::Add,
        num(0),
    );
    let r = eval_certain(&e).unwrap();
    assert_eq!(r, expected);
    assert_ne!(r, 0);
}

#[test]
fn division_by_zero_never_fails() {
    for _ in 0..200 {
        for o in [Opcode::Div, Opcode::Mod] {
            let mut rng = RandomNumbers::new(0, 8);
            let r = op(4, o, 0).evaluate(&mut rng, 0, 0);
            let v = r.unwrap();
            assert!(v <= 2);
        }
    }
}

#[test]
fn division_by_zero_nested_drifts_with_failed_coin() {
    // At depth 1 the fallback 1 drifts: coin draw 5 fails at rate 0, the
    // fair draw 1 moves it up.
    let mut rng = RandomNumbers::scripted(vec![5, 1], 0, 8);
    let r = op(4, Opcode::Div, 0).evaluate(&mut rng, 0, 1);
    assert_eq!(r, Ok(2));
    let mut rng = RandomNumbers::scripted(vec![5, 0], 0, 8);
    let r = op(4, Opcode::Mod, 0).evaluate(&mut rng, 0, 1);
    assert_eq!(r, Ok(0));
}

#[test]
fn show_renders_structure() {
    let e = Expr::Show(Box::new(op(2, Opcode::Add, 2)));
    assert_eq!(eval_certain(&e), Err("(2 + 2)".to_string()));
    let nested = Expr::Show(Box::new(Expr::Postfix(
        Box::new(Expr::Prefix(PrefixOpcode::Not, Box::new(op(3, Opcode::Xor, 4)))),
        PostfixOpcode::Factorial,
    )));
    assert_eq!(eval_certain(&nested), Err("((~ (3 xor 4)) !)".to_string()));
    let help = Expr::Show(Box::new(Expr::Help(Help::Number(12))));
    assert_eq!(eval_certain(&help), Err("? 12".to_string()));
}

#[test]
fn render_matches_show_message() {
    let e = op(10, Opcode::LShift, 2);
    assert_eq!(e.render(), "(10 << 2)");
    assert_eq!(Expr::Error.render(), "error");
    assert_eq!(Expr::Show(num(7)).render(), "show 7");
    assert_eq!(Expr::Help(Help::Constant(Constant::C)).render(), "? c");
}

#[test]
fn help_for_every_operator() {
    let topics = [
        Help::Opcode(Opcode::Mul),
        Help::Opcode(Opcode::Div),
        Help::Opcode(Opcode::Mod),
        Help::Opcode(Opcode::Pow),
        Help::Opcode(Opcode::Add),
        Help::Opcode(Opcode::Sub),
        Help::Opcode(Opcode::LShift),
        Help::Opcode(Opcode::RShift),
        Help::Opcode(Opcode::Or),
        Help::Opcode(Opcode::And),
        Help::Opcode(Opcode::Xor),
        Help::PrefixOpcode(PrefixOpcode::Not),
        Help::PostfixOpcode(PostfixOpcode::Inc),
        Help::PostfixOpcode(PostfixOpcode::Dec),
        Help::PostfixOpcode(PostfixOpcode::Factorial),
        Help::Number(3),
        Help::Constant(Constant::Min),
        Help::Constant(Constant::Max),
        Help::Constant(Constant::C),
        Help::Show,
    ];
    for t in topics {
        let r = eval_certain(&Expr::Help(t));
        let m = r.unwrap_err();
        assert!(!m.is_empty());
    }
    assert_eq!(
        eval_certain(&Expr::Help(Help::Opcode(Opcode::Mul))),
        Err("Multiplication. Multiplies the two given numbers.".to_string())
    );
}

#[test]
fn general_help_lists_all_tokens() {
    let m = eval_certain(&Expr::Help(Help::Help)).unwrap_err();
    assert_eq!(
        m,
        "Show help for one of the following operators: !, %, &, *, +, ++, -, --, /, <<, >>, ^, c, max, min, show, xor, |, ~"
    );
    for t in ["!", "%", "&", "*", "+", "++", "-", "--", "/", "<<", ">>", "^", "c", "max", "min", "show", "xor", "|", "~"] {
        assert!(m.contains(t));
    }
}

#[test]
fn parse_error_message() {
    assert_eq!(eval_certain(&Expr::Error), Err("Oh no, something went wrong!".to_string()));
    let inner_error = Expr::Op(num(1), Opcode::Add, Box::new(Expr::Error));
    assert_eq!(eval_certain(&inner_error), Err("Oh no, something went wrong!".to_string()));
}

#[test]
fn repeated_clean_evaluation_agrees() {
    let e = Expr::Op(
        Box::new(op(123456, Opcode::Mul, 789)),
        Opcode::Xor,
        Box::new(Expr::Postfix(num(12), PostfixOpcode::Factorial)),
    );
    let first = eval_certain(&e);
    let second = eval_certain(&e);
    assert_eq!(first, second);
    assert_eq!(first, Ok((123456u64 * 789) ^ 479001600));
}

#[test]
fn literal_drifts_with_failed_coin() {
    // Depth 1, literal above 100: coin draw 9 fails at rate 3, fair draw 0
    // moves it down; the final flip sees 499, below its threshold.
    let mut rng = RandomNumbers::scripted(vec![9, 0], 0, 8);
    assert_eq!(Expr::Number(500).evaluate(&mut rng, 3, 1), Ok(499));
    // At depth 0 nothing is drawn.
    let mut rng = RandomNumbers::scripted(vec![9, 0], 0, 8);
    assert_eq!(Expr::Number(500).evaluate(&mut rng, 0, 0), Ok(500));
}

#[test]
fn symbol_tree_renders_quoted_numbers() {
    let e = ExprSymbol::Op(
        Box::new(ExprSymbol::NumSymbol("12")),
        Opcode::Add,
        Box::new(ExprSymbol::Op(
            Box::new(ExprSymbol::NumSymbol("a\"b")),
            Opcode::Xor,
            Box::new(ExprSymbol::Error),
        )),
    );
    assert_eq!(e.render(), "(\"12\" + (\"a\\\"b\" xor error))");
}

#[test]
fn help_topics_render_as_tokens() {
    assert_eq!(Help::Opcode(Opcode::RShift).render(), ">>");
    assert_eq!(Help::PostfixOpcode(PostfixOpcode::Dec).render(), "--");
    assert_eq!(Help::Number(18446744073709551615).render(), "18446744073709551615");
    assert_eq!(Help::Show.render(), "show");
    assert_eq!(Help::Help.render(), "?");
    assert_eq!(Constant::Max.render(), "max");
    assert_eq!(PrefixOpcode::Not.render(), "~");
}
