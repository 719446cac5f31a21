use vstd::prelude::*;

use vstd::arithmetic::div_mod::{lemma_fundamental_div_mod, lemma_mod_bound};

use crate::compiler::parser::{
    arith_ops_only, lemma_program_arith_ops, parse_program, parser_fuel, Parser, AST,
};
use crate::compiler::token::{token_at, InterpError, Lexer, Token};

verus! {

/// Signed division truncated toward zero: the quotient of the
/// magnitudes, negated when the operands' signs differ.
pub open spec fn div_trunc(a: int, b: int) -> int {
    if a == 0 {
        0
    } else if a > 0 && b > 0 {
        a / b
    } else if a < 0 && b < 0 {
        (a * -1) / (b * -1)
    } else if a < 0 {
        ((a * -1) / b) * -1
    } else {
        (a / (b * -1)) * -1
    }
}

/// The value of one arithmetic operator applied to two 64-bit values:
/// exact addition, subtraction, multiplication and truncating division,
/// failing with `ArithmeticOverflow` when the exact result leaves the
/// 64-bit signed range, with `DivisionByZero` on a zero divisor, and
/// with `InvalidOperator` on any non-arithmetic token.
pub open spec fn spec_apply(op: Token, a: i64, b: i64) -> Result<i64, InterpError> {
    match op {
        Token::Plus => if a + b > i64::MAX || a + b < i64::MIN {
            Err(InterpError::ArithmeticOverflow)
        } else {
            Ok((a + b) as i64)
        },
        Token::Minus => if a - b > i64::MAX || a - b < i64::MIN {
            Err(InterpError::ArithmeticOverflow)
        } else {
            Ok((a - b) as i64)
        },
        Token::Mul => if a * b > i64::MAX || a * b < i64::MIN {
            Err(InterpError::ArithmeticOverflow)
        } else {
            Ok((a * b) as i64)
        },
        Token::Div => if b == 0 {
            Err(InterpError::DivisionByZero)
        } else {
            let q = div_trunc(a as int, b as int);
            if q < i64::MIN || q > i64::MAX {
                Err(InterpError::ArithmeticOverflow)
            } else {
                Ok(q as i64)
            }
        },
        _ => Err(InterpError::InvalidOperator),
    }
}

/// The value of a syntax tree: a leaf is its number; an operator node
/// evaluates its left child, then its right child, then applies the
/// operator; a conditional evaluates its test and then only the branch
/// the test selects, the consequent on any nonzero value. The first
/// error anywhere in that order is the result.
pub open spec fn spec_eval(node: AST) -> Result<i64, InterpError>
    decreases node,
{
    match node {
        AST::Num(value) => Ok(value),
        AST::BinOp(left, op, right) => match spec_eval(*left) {
            Ok(lv) => match spec_eval(*right) {
                Ok(rv) => spec_apply(op, lv, rv),
                Err(er) => Err(er),
            },
            Err(er) => Err(er),
        },
        AST::IfElse(condition, true_branch, false_branch) => match spec_eval(*condition) {
            Ok(cv) => if cv != 0 {
                spec_eval(*true_branch)
            } else {
                spec_eval(*false_branch)
            },
            Err(er) => Err(er),
        },
    }
}

/// The outcome of parsing from parser state `(pos, cur)` and evaluating
/// the parsed tree. `None` means the parser's fuel ran out; the
/// contract of `interpret` shows it never does.
pub open spec fn spec_run(text: Seq<char>, pos: int, cur: Token) -> Option<
    Result<i64, InterpError>,
> {
    match parse_program(text, pos, cur, parser_fuel(text)) {
        Some(Ok((a, p2, c2))) => Some(spec_eval(a)),
        Some(Err(e)) => Some(Err(e)),
        None => None,
    }
}

/// The outcome of the whole pipeline on a source text: prime the
/// lookahead at position zero, parse one program, evaluate it.
pub open spec fn spec_interpret_source(text: Seq<char>) -> Option<Result<i64, InterpError>> {
    match token_at(text, 0) {
        Ok((c0, p0)) => spec_run(text, p0, c0),
        Err(e) => Some(Err(e)),
    }
}

/// The evaluator: it exclusively owns the parser for one run.
pub struct Interpreter {
    parser: Parser,
}

impl Interpreter {
    /// The evaluator is well-formed whenever its parser is.
    pub closed spec fn wf(&self) -> bool {
        self.parser.wf()
    }

    /// The source text being interpreted.
    pub closed spec fn text_model(&self) -> Seq<char> {
        self.parser.text_model()
    }

    /// The parser's position.
    pub closed spec fn pos_model(&self) -> int {
        self.parser.pos_model()
    }

    /// The parser's lookahead token.
    pub closed spec fn cur_model(&self) -> Token {
        self.parser.cur_model()
    }

    /// An evaluator over the given parser.
    pub fn new(parser: Parser) -> (r: Interpreter)
        ensures
            r.wf() == parser.wf(),
            r.text_model() == parser.text_model(),
            r.pos_model() == parser.pos_model(),
            r.cur_model() == parser.cur_model(),
    {
        Interpreter { parser }
    }

    /// Reduce a tree to its value, exactly as `spec_eval` says.
    fn visit(&self, node: AST) -> (r: Result<i64, InterpError>)
        ensures
            r == spec_eval(node),
        decreases node,
    {
        match node {
            AST::Num(value) => Ok(value),
            AST::BinOp(left, op, right) => {
                let lv = match self.visit(*left) {
                    Ok(v) => v,
                    Err(er) => {
                        return Err(er);
                    },
                };
                let rv = match self.visit(*right) {
                    Ok(v) => v,
                    Err(er) => {
                        return Err(er);
                    },
                };
                match op {
                    Token::Plus => match lv.checked_add(rv) {
                        Some(s) => Ok(s),
                        None => Err(InterpError::ArithmeticOverflow),
                    },
                    Token::Minus => match lv.checked_sub(rv) {
                        Some(s) => Ok(s),
                        None => Err(InterpError::ArithmeticOverflow),
                    },
                    Token::Mul => match lv.checked_mul(rv) {
                        Some(s) => Ok(s),
                        None => Err(InterpError::ArithmeticOverflow),
                    },
                    Token::Div => if rv == 0 {
                        Err(InterpError::DivisionByZero)
                    } else {
                        match lv.checked_div(rv) {
                            Some(q) => Ok(q),
                            None => Err(InterpError::ArithmeticOverflow),
                        }
                    },
                    _ => Err(InterpError::InvalidOperator),
                }
            },
            AST::IfElse(condition, true_branch, false_branch) => {
                let cv = match self.visit(*condition) {
                    Ok(v) => v,
                    Err(er) => {
                        return Err(er);
                    },
                };
                if cv != 0 {
                    self.visit(*true_branch)
                } else {
                    self.visit(*false_branch)
                }
            },
        }
    }

    /// Parse the source and evaluate the tree, exactly as `spec_run`
    /// says from the current parser state; the contract shows the
    /// parser's fuel never runs out. Identical states always yield
    /// identical results, since the outcome is a function of the text
    /// and the state alone.
    pub fn interpret(&mut self) -> (r: Result<i64, InterpError>)
        requires
            old(self).wf(),
        ensures
            final(self).wf(),
            Some(r) == spec_run(
                old(self).text_model(),
                old(self).pos_model(),
                old(self).cur_model(),
            ),
    {
        let tree = match self.parser.parse() {
            Ok(t) => t,
            Err(e) => {
                return Err(e);
            },
        };
        self.visit(tree)
    }
}

/// Run the whole pipeline on one source text, exactly as
/// `spec_interpret_source` says.
pub fn run_source(source: String) -> (r: Result<i64, InterpError>)
    ensures
        Some(r) == spec_interpret_source(source@),
{
    let lexer = Lexer::new(source);
    let parser = match Parser::new(lexer) {
        Ok(p) => p,
        Err(e) => {
            return Err(e);
        },
    };
    let mut interpreter = Interpreter::new(parser);
    interpreter.interpret()
}

/// The division the evaluator uses truncates toward zero: the
/// remainder it leaves is smaller in magnitude than the divisor and
/// never of the opposite sign to the dividend.
pub proof fn lemma_div_truncates(a: int, b: int)
    requires
        b != 0,
    ensures
        ({
            let q = div_trunc(a, b);
            let r = a - b * q;
            &&& (if b > 0 {
                -b < r < b
            } else {
                b < r < -b
            })
            &&& (a >= 0 ==> r >= 0)
            &&& (a <= 0 ==> r <= 0)
        }),
{
    let q: int = div_trunc(a, b);
    if a == 0 {
        assert(b * 0 == 0) by (nonlinear_arith);
    } else if a > 0 && b > 0 {
        lemma_fundamental_div_mod(a, b);
        lemma_mod_bound(a, b);
    } else if a < 0 && b < 0 {
        let x: int = a * -1;
        let d: int = b * -1;
        lemma_fundamental_div_mod(x, d);
        lemma_mod_bound(x, d);
        assert(a == b * q + (x % d) * -1) by (nonlinear_arith)
            requires
                x == d * (x / d) + x % d,
                x == a * -1,
                d == b * -1,
                q == x / d,
        ;
    } else if a < 0 {
        let x: int = a * -1;
        lemma_fundamental_div_mod(x, b);
        lemma_mod_bound(x, b);
        assert(a == b * q + (x % b) * -1) by (nonlinear_arith)
            requires
                x == b * (x / b) + x % b,
                x == a * -1,
                q == (x / b) * -1,
        ;
    } else {
        let d: int = b * -1;
        lemma_fundamental_div_mod(a, d);
        lemma_mod_bound(a, d);
        assert(a == b * q + a % d) by (nonlinear_arith)
            requires
                a == d * (a / d) + a % d,
                d == b * -1,
                q == (a / d) * -1,
        ;
    }
}

/// A division whose right operand evaluates to zero fails with
/// `DivisionByZero` and produces no value, whatever the left operand
/// evaluated to.
pub proof fn lemma_division_by_zero(num: AST, den: AST, lv: i64)
    requires
        spec_eval(num) == Ok::<i64, InterpError>(lv),
        spec_eval(den) == Ok::<i64, InterpError>(0i64),
    ensures
        spec_eval(AST::BinOp(Box::new(num), Token::Div, Box::new(den))) == Err::<
            i64,
            InterpError,
        >(InterpError::DivisionByZero),
{
}

/// A conditional selects by C-style truthiness: when its test
/// evaluates to any nonzero value the conditional's value is the
/// consequent's, and when the test evaluates to zero it is the
/// alternate's; the unselected branch contributes nothing.
pub proof fn lemma_conditional_selects(condition: AST, consequent: AST, alternate: AST, cv: i64)
    requires
        spec_eval(condition) == Ok::<i64, InterpError>(cv),
    ensures
        cv != 0 ==> spec_eval(
            AST::IfElse(Box::new(condition), Box::new(consequent), Box::new(alternate)),
        ) == spec_eval(consequent),
        cv == 0 ==> spec_eval(
            AST::IfElse(Box::new(condition), Box::new(consequent), Box::new(alternate)),
        ) == spec_eval(alternate),
{
}

/// On a tree whose operator nodes hold only arithmetic tokens — as
/// every tree the parser produces does — evaluation never reports
/// `InvalidOperator`.
pub proof fn lemma_eval_no_invalid_operator(a: AST)
    requires
        arith_ops_only(a),
    ensures
        spec_eval(a) != Err::<i64, InterpError>(InterpError::InvalidOperator),
    decreases a,
{
    match a {
        AST::Num(_) => {},
        AST::BinOp(left, op, right) => {
            lemma_eval_no_invalid_operator(*left);
            lemma_eval_no_invalid_operator(*right);
        },
        AST::IfElse(condition, true_branch, false_branch) => {
            lemma_eval_no_invalid_operator(*condition);
            lemma_eval_no_invalid_operator(*true_branch);
            lemma_eval_no_invalid_operator(*false_branch);
        },
    }
}

/// The evaluator's defensive `InvalidOperator` condition is
/// unreachable through the pipeline: whatever the source text, the
/// parser only builds trees with arithmetic operator nodes, so no run
/// ever ends in that condition.
pub proof fn lemma_invalid_operator_unreachable(text: Seq<char>)
    ensures
        spec_interpret_source(text) != Some(
            Err::<i64, InterpError>(InterpError::InvalidOperator),
        ),
{
    match token_at(text, 0) {
        Ok((c0, p0)) => {
            lemma_program_arith_ops(text, p0, c0, parser_fuel(text));
            match parse_program(text, p0, c0, parser_fuel(text)) {
                Some(Ok((a, p2, c2))) => {
                    lemma_eval_no_invalid_operator(a);
                },
                _ => {},
            }
        },
        Err(_) => {},
    }
}

/// Interpretation is deterministic: any two runs over the same source
/// text yield the same outcome, since the outcome is a function of the
/// text alone.
pub proof fn lemma_deterministic(
    text: Seq<char>,
    r1: Result<i64, InterpError>,
    r2: Result<i64, InterpError>,
)
    requires
        spec_interpret_source(text) == Some(r1),
        spec_interpret_source(text) == Some(r2),
    ensures
        r1 == r2,
{
}

} // verus!
