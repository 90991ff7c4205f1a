//! The expression tree, its textual rendering, and the help catalog.
use vstd::prelude::*;

verus! {

/// Binary operators.
#[derive(Clone, Copy, PartialEq, Eq, Structural)]
pub enum Opcode {
    Mul,
    Div,
    Mod,
    Pow,
    Add,
    Sub,
    LShift,
    RShift,
    Or,
    And,
    Xor,
}

/// Prefix operators.
#[derive(Clone, Copy, PartialEq, Eq, Structural)]
pub enum PrefixOpcode {
    Not,
}

/// Postfix operators.
#[derive(Clone, Copy, PartialEq, Eq, Structural)]
pub enum PostfixOpcode {
    Inc,
    Dec,
    Factorial,
}

/// Named constants of the calculator language.
#[derive(Clone, Copy, PartialEq, Eq, Structural)]
pub enum Constant {
    Min,
    Max,
    C,
}

/// What a help request asks about.
#[derive(Clone, Copy, PartialEq, Eq, Structural)]
pub enum Help {
    Opcode(Opcode),
    PrefixOpcode(PrefixOpcode),
    PostfixOpcode(PostfixOpcode),
    Number(u64),
    Constant(Constant),
    Show,
    Help,
}

/// A parsed calculator expression. Each node owns its children.
pub enum Expr {
    Number(u64),
    Show(Box<Expr>),
    Help(Help),
    Op(Box<Expr>, Opcode, Box<Expr>),
    Prefix(PrefixOpcode, Box<Expr>),
    Postfix(Box<Expr>, PostfixOpcode),
    Error,
}

/// A parse tree that still holds the source text of its numbers.
pub enum ExprSymbol<'input> {
    NumSymbol(&'input str),
    Op(Box<ExprSymbol<'input>>, Opcode, Box<ExprSymbol<'input>>),
    Error,
}

/// The character of decimal digit `d`.
pub open spec fn digit_char(d: nat) -> char {
    seq!['0', '1', '2', '3', '4', '5', '6', '7', '8', '9'][d as int]
}

/// The decimal digits of `n`, most significant first, without leading zeros.
pub open spec fn decimal(n: nat) -> Seq<char>
    decreases n,
{
    if n < 10 {
        seq![digit_char(n)]
    } else {
        decimal(n / 10).push(digit_char(n % 10))
    }
}

/// Relies on `u64::to_string` (its `Display` impl): the decimal digits of `n`.
#[verifier::external_body]
fn decimal_string(n: u64) -> (r: String)
    ensures
        r@ == decimal(n as nat),
{
    n.to_string()
}

/// The text of a string in Rust's debug notation (quoted and escaped).
pub uninterp spec fn debug_quoted(s: Seq<char>) -> Seq<char>;

/// Relies on the `Debug` impl of `str`: the quoted, escaped form of `s`,
/// which depends on the characters of `s` alone.
#[verifier::external_body]
fn quote_debug(s: &str) -> (r: String)
    ensures
        r@ == debug_quoted(s@),
{
    format!("{:?}", s)
}

/// The token that writes a binary operator.
pub open spec fn opcode_symbol(o: Opcode) -> Seq<char> {
    match o {
        Opcode::Mul => "*"@,
        Opcode::Div => "/"@,
        Opcode::Mod => "%"@,
        Opcode::Pow => "^"@,
        Opcode::Add => "+"@,
        Opcode::Sub => "-"@,
        Opcode::LShift => "<<"@,
        Opcode::RShift => ">>"@,
        Opcode::Or => "|"@,
        Opcode::And => "&"@,
        Opcode::Xor => "xor"@,
    }
}

/// The token that writes a prefix operator.
pub open spec fn prefix_symbol(o: PrefixOpcode) -> Seq<char> {
    match o {
        PrefixOpcode::Not => "~"@,
    }
}

/// The token that writes a postfix operator.
pub open spec fn postfix_symbol(o: PostfixOpcode) -> Seq<char> {
    match o {
        PostfixOpcode::Inc => "++"@,
        PostfixOpcode::Dec => "--"@,
        PostfixOpcode::Factorial => "!"@,
    }
}

/// The token that writes a constant.
pub open spec fn constant_symbol(c: Constant) -> Seq<char> {
    match c {
        Constant::Min => "min"@,
        Constant::Max => "max"@,
        Constant::C => "c"@,
    }
}

/// How a help topic is written.
pub open spec fn help_topic_text(h: Help) -> Seq<char> {
    match h {
        Help::Opcode(o) => opcode_symbol(o),
        Help::PrefixOpcode(o) => prefix_symbol(o),
        Help::PostfixOpcode(o) => postfix_symbol(o),
        Help::Number(n) => decimal(n as nat),
        Help::Constant(c) => constant_symbol(c),
        Help::Show => "show"@,
        Help::Help => "?"@,
    }
}

/// The structural rendering of an expression: every operator node in
/// parentheses, its parts separated by single spaces.
pub open spec fn expr_text(e: Expr) -> Seq<char>
    decreases e,
{
    match e {
        Expr::Number(n) => decimal(n as nat),
        Expr::Show(inner) => "show "@ + expr_text(*inner),
        Expr::Help(h) => "? "@ + help_topic_text(h),
        Expr::Op(l, o, r) => "("@ + expr_text(*l) + " "@ + opcode_symbol(o) + " "@ + expr_text(*r)
            + ")"@,
        Expr::Prefix(o, r) => "("@ + prefix_symbol(o) + " "@ + expr_text(*r) + ")"@,
        Expr::Postfix(l, o) => "("@ + expr_text(*l) + " "@ + postfix_symbol(o) + ")"@,
        Expr::Error => "error"@,
    }
}

/// The structural rendering of a parse tree; numbers appear as quoted text.
pub open spec fn symbol_text(e: ExprSymbol) -> Seq<char>
    decreases e,
{
    match e {
        ExprSymbol::NumSymbol(s) => debug_quoted(s@),
        ExprSymbol::Op(l, o, r) => "("@ + symbol_text(*l) + " "@ + opcode_symbol(o) + " "@
            + symbol_text(*r) + ")"@,
        ExprSymbol::Error => "error"@,
    }
}

/// `"(" + a + " " + b + ")"`, or with a third part `"(" + a + " " + b + " " + c + ")"`.
fn parenthesized(a: &str, b: &str, c: Option<&str>) -> (r: String)
    ensures
        r@ == match c {
            Some(c) => "("@ + a@ + " "@ + b@ + " "@ + c@ + ")"@,
            None => "("@ + a@ + " "@ + b@ + ")"@,
        },
{
    let mut s = String::from_str("(");
    s.append(a);
    s.append(" ");
    s.append(b);
    match c {
        Some(c) => {
            s.append(" ");
            s.append(c);
        },
        None => {},
    }
    s.append(")");
    s
}

impl Opcode {
    /// The token that writes this operator.
    pub fn symbol(&self) -> (r: &'static str)
        ensures
            r@ == opcode_symbol(*self),
    {
        match self {
            Opcode::Mul => "*",
            Opcode::Div => "/",
            Opcode::Mod => "%",
            Opcode::Pow => "^",
            Opcode::Add => "+",
            Opcode::Sub => "-",
            Opcode::LShift => "<<",
            Opcode::RShift => ">>",
            Opcode::Or => "|",
            Opcode::And => "&",
            Opcode::Xor => "xor",
        }
    }

    /// The operator as text.
    pub fn render(&self) -> (r: String)
        ensures
            r@ == opcode_symbol(*self),
    {
        String::from_str(self.symbol())
    }
}

impl PrefixOpcode {
    /// The token that writes this operator.
    pub fn symbol(&self) -> (r: &'static str)
        ensures
            r@ == prefix_symbol(*self),
    {
        match self {
            PrefixOpcode::Not => "~",
        }
    }

    /// The operator as text.
    pub fn render(&self) -> (r: String)
        ensures
            r@ == prefix_symbol(*self),
    {
        String::from_str(self.symbol())
    }
}

impl PostfixOpcode {
    /// The token that writes this operator.
    pub fn symbol(&self) -> (r: &'static str)
        ensures
            r@ == postfix_symbol(*self),
    {
        match self {
            PostfixOpcode::Inc => "++",
            PostfixOpcode::Dec => "--",
            PostfixOpcode::Factorial => "!",
        }
    }

    /// The operator as text.
    pub fn render(&self) -> (r: String)
        ensures
            r@ == postfix_symbol(*self),
    {
        String::from_str(self.symbol())
    }
}

impl Constant {
    /// The token that writes this constant.
    pub fn symbol(&self) -> (r: &'static str)
        ensures
            r@ == constant_symbol(*self),
    {
        match self {
            Constant::Min => "min",
            Constant::Max => "max",
            Constant::C => "c",
        }
    }

    /// The constant as text.
    pub fn render(&self) -> (r: String)
        ensures
            r@ == constant_symbol(*self),
    {
        String::from_str(self.symbol())
    }
}

impl Help {
    /// The topic as text.
    pub fn render(&self) -> (r: String)
        ensures
            r@ == help_topic_text(*self),
    {
        match self {
            Help::Opcode(o) => o.render(),
            Help::PrefixOpcode(o) => o.render(),
            Help::PostfixOpcode(o) => o.render(),
            Help::Number(n) => decimal_string(*n),
            Help::Constant(c) => c.render(),
            Help::Show => String::from_str("show"),
            Help::Help => String::from_str("?"),
        }
    }
}

impl Expr {
    /// The structural rendering of this expression, unevaluated.
    pub fn render(&self) -> (r: String)
        ensures
            r@ == expr_text(*self),
        decreases self,
    {
        match self {
            Expr::Number(n) => decimal_string(*n),
            Expr::Show(inner) => {
                let mut s = String::from_str("show ");
                let t = inner.render();
                s.append(t.as_str());
                s
            },
            Expr::Help(h) => {
                let mut s = String::from_str("? ");
                let t = h.render();
                s.append(t.as_str());
                s
            },
            Expr::Op(l, o, r) => {
                let a = l.render();
                let c = r.render();
                parenthesized(a.as_str(), o.symbol(), Some(c.as_str()))
            },
            Expr::Prefix(o, r) => {
                let b = r.render();
                parenthesized(o.symbol(), b.as_str(), None)
            },
            Expr::Postfix(l, o) => {
                let a = l.render();
                parenthesized(a.as_str(), o.symbol(), None)
            },
            Expr::Error => String::from_str("error"),
        }
    }
}

impl<'input> ExprSymbol<'input> {
    /// The structural rendering of this parse tree.
    pub fn render(&self) -> (r: String)
        ensures
            r@ == symbol_text(*self),
        decreases self,
    {
        match self {
            ExprSymbol::NumSymbol(s) => quote_debug(s),
            ExprSymbol::Op(l, o, r) => {
                let a = l.render();
                let c = r.render();
                parenthesized(a.as_str(), o.symbol(), Some(c.as_str()))
            },
            ExprSymbol::Error => String::from_str("error"),
        }
    }
}

/// The tokens that the general help lists.
pub open spec fn operator_tokens() -> Seq<Seq<char>> {
    seq![
        "!"@, "%"@, "&"@, "*"@, "+"@, "++"@, "-"@, "--"@, "/"@, "<<"@, ">>"@, "^"@, "c"@,
        "max"@, "min"@, "show"@, "xor"@, "|"@, "~"@,
    ]
}

/// `items` written one after another with `sep` between neighbours.
pub open spec fn joined(items: Seq<Seq<char>>, sep: Seq<char>) -> Seq<char>
    decreases items.len(),
{
    if items.len() == 0 {
        Seq::empty()
    } else if items.len() == 1 {
        items[0]
    } else {
        joined(items.drop_last(), sep) + sep + items.last()
    }
}

/// The documentation text for a help topic.
pub open spec fn help_text(h: Help) -> Seq<char> {
    match h {
        Help::Opcode(o) => match o {
            Opcode::Mul => "Multiplication. Multiplies the two given numbers."@,
            Opcode::Div => "Integer Division. Divides the first number with the second number and drops the remainder"@,
            Opcode::Mod => "Modulo. Like integer division, but returns the remainder instead."@,
            Opcode::Pow => "Power. Raises the first number to the power of the second number."@,
            Opcode::Add => "Addition. Adds the two given numbers together."@,
            Opcode::Sub => "Subtraction. Subtracts the second number from the first."@,
            Opcode::LShift => "Bit Shift Left. Shifts all bits from the first number to the left by the amount of the second number."@,
            Opcode::RShift => "Bit Shift Right. Shifts all bits from the first number to the righ by the amount of the second number."@,
            Opcode::Or => "Bitwise OR. Performs a bitwise OR between the two numbers."@,
            Opcode::And => "Bitwise AND. Performs a bitwise AND between the two numbers."@,
            Opcode::Xor => "Bitwise XOR. Performs a bitwise XOR between the two numbers."@,
        },
        Help::PrefixOpcode(o) => match o {
            PrefixOpcode::Not => "Bitwise Not. Flips every bit in the following number."@,
        },
        Help::PostfixOpcode(o) => match o {
            PostfixOpcode::Inc => "Increment. Increments the preceding number by 1."@,
            PostfixOpcode::Dec => "Decrement. Decrements the preceding number by 1."@,
            PostfixOpcode::Factorial => "Factorial. Calculates the factorial of the preceding number."@,
        },
        Help::Number(_) => "A number."@,
        Help::Constant(c) => match c {
            Constant::Min => "The lowest possible number."@,
            Constant::Max => "The highest possible number."@,
            Constant::C => "The speed of light."@,
        },
        Help::Show => "Command to show an expression with parenthesis."@,
        Help::Help => "Show help for one of the following operators: "@ + joined(
            operator_tokens(),
            ", "@,
        ),
    }
}

/// The tokens that the general help lists.
fn operator_token_list() -> (r: Vec<&'static str>)
    ensures
        r@.len() == operator_tokens().len(),
        forall|i: int| 0 <= i < r@.len() ==> #[trigger] r@[i]@ == operator_tokens()[i],
{
    vec![
        "!", "%", "&", "*", "+", "++", "-", "--", "/", "<<", ">>", "^", "c", "max", "min", "show",
        "xor", "|", "~",
    ]
}

/// Writes `items` one after another with `sep` between neighbours.
fn join(items: &Vec<&str>, sep: &str) -> (r: String)
    ensures
        r@ == joined(items@.map_values(|s: &str| s@), sep@),
{
    let ghost all = items@.map_values(|s: &str| s@);
    let mut s = String::new();
    let mut i: usize = 0;
    while i < items.len()
        invariant
            i <= items@.len(),
            all == items@.map_values(|s: &str| s@),
            s@ == joined(all.subrange(0, i as int), sep@),
        decreases items.len() - i,
    {
        let ghost before = all.subrange(0, i as int);
        if i > 0 {
            s.append(sep);
        }
        s.append(items[i]);
        proof {
            let after = all.subrange(0, i + 1);
            assert(after.drop_last() =~= before);
            assert(after.last() == items@[i as int]@);
            if i == 0 {
                assert(before =~= Seq::<Seq<char>>::empty());
            }
        }
        i = i + 1;
    }
    assert(all.subrange(0, items@.len() as int) =~= all);
    s
}

impl Help {
    /// The documentation text for this topic.
    pub fn description(&self) -> (r: String)
        ensures
            r@ == help_text(*self),
    {
        match self {
            Help::Opcode(o) => match o {
                Opcode::Mul => String::from_str("Multiplication. Multiplies the two given numbers."),
                Opcode::Div => String::from_str("Integer Division. Divides the first number with the second number and drops the remainder"),
                Opcode::Mod => String::from_str("Modulo. Like integer division, but returns the remainder instead."),
                Opcode::Pow => String::from_str("Power. Raises the first number to the power of the second number."),
                Opcode::Add => String::from_str("Addition. Adds the two given numbers together."),
                Opcode::Sub => String::from_str("Subtraction. Subtracts the second number from the first."),
                Opcode::LShift => String::from_str("Bit Shift Left. Shifts all bits from the first number to the left by the amount of the second number."),
                Opcode::RShift => String::from_str("Bit Shift Right. Shifts all bits from the first number to the righ by the amount of the second number."),
                Opcode::Or => String::from_str("Bitwise OR. Performs a bitwise OR between the two numbers."),
                Opcode::And => String::from_str("Bitwise AND. Performs a bitwise AND between the two numbers."),
                Opcode::Xor => String::from_str("Bitwise XOR. Performs a bitwise XOR between the two numbers."),
            },
            Help::PrefixOpcode(o) => match o {
                PrefixOpcode::Not => String::from_str("Bitwise Not. Flips every bit in the following number."),
            },
            Help::PostfixOpcode(o) => match o {
                PostfixOpcode::Inc => String::from_str("Increment. Increments the preceding number by 1."),
                PostfixOpcode::Dec => String::from_str("Decrement. Decrements the preceding number by 1."),
                PostfixOpcode::Factorial => String::from_str("Factorial. Calculates the factorial of the preceding number."),
            },
            Help::Number(_) => String::from_str("A number."),
            Help::Constant(c) => match c {
                Constant::Min => String::from_str("The lowest possible number."),
                Constant::Max => String::from_str("The highest possible number."),
                Constant::C => String::from_str("The speed of light."),
            },
            Help::Show => String::from_str("Command to show an expression with parenthesis."),
            Help::Help => {
                let tokens = operator_token_list();
                let list = join(&tokens, ", ");
                proof {
                    assert(tokens@.map_values(|s: &str| s@) =~= operator_tokens());
                }
                let mut s = String::from_str("Show help for one of the following operators: ");
                s.append(list.as_str());
                s
            },
        }
    }
}

} // verus!
