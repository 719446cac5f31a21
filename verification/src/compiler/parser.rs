use vstd::prelude::*;

use crate::compiler::token::{token_at, InterpError, Lexer, Token};

verus! {

/// The syntax tree for one expression or one conditional statement.
/// `BinOp` holds one of the four arithmetic operator tokens, an
/// invariant the parser establishes by construction; `IfElse` always
/// holds all three branches, the alternate being `Num(0)` when the
/// source had no else-clause.
#[derive(Debug)]
pub enum AST {
    BinOp(Box<AST>, Token, Box<AST>),
    Num(i64),
    IfElse(Box<AST>, Box<AST>, Box<AST>),
}

/// A bound on the work left for the parser in state `(pos, cur)`:
/// the characters not yet scanned, plus one for a pending lookahead.
/// Consuming any token but `EOF` strictly decreases it.
pub open spec fn state_measure(text: Seq<char>, pos: int, cur: Token) -> int {
    text.len() - pos + if cur == Token::EOF {
        0int
    } else {
        1int
    }
}

/// Fuel that is always enough for the grammar over `text`: each grammar
/// rule application burns one unit, and at most three rules are entered
/// for every token consumed.
pub open spec fn parser_fuel(text: Seq<char>) -> nat {
    (3 * text.len() + 8) as nat
}

/// factor := Integer | '(' expr ')' — the result, the position after
/// the last consumed character, and the new lookahead. `None` means the
/// fuel ran out; `parse` always supplies enough.
pub open spec fn parse_factor(text: Seq<char>, pos: int, cur: Token, fuel: nat) -> Option<
    Result<(AST, int, Token), InterpError>,
>
    decreases fuel,
{
    if fuel == 0 {
        None
    } else {
        match cur {
            Token::Integer(v) => match token_at(text, pos) {
                Ok((c2, p2)) => Some(Ok((AST::Num(v), p2, c2))),
                Err(e) => Some(Err(e)),
            },
            Token::LParen => match token_at(text, pos) {
                Ok((c2, p2)) => match parse_expr(text, p2, c2, (fuel - 1) as nat) {
                    Some(Ok((a, p3, c3))) => if c3 == Token::RParen {
                        match token_at(text, p3) {
                            Ok((c4, p4)) => Some(Ok((a, p4, c4))),
                            Err(e) => Some(Err(e)),
                        }
                    } else {
                        Some(Err(InterpError::UnexpectedToken))
                    },
                    other => other,
                },
                Err(e) => Some(Err(e)),
            },
            _ => Some(Err(InterpError::UnexpectedToken)),
        }
    }
}

/// term := factor (('*' | '/') factor)* — left-associative.
pub open spec fn parse_term(text: Seq<char>, pos: int, cur: Token, fuel: nat) -> Option<
    Result<(AST, int, Token), InterpError>,
>
    decreases fuel,
{
    if fuel == 0 {
        None
    } else {
        match parse_factor(text, pos, cur, (fuel - 1) as nat) {
            Some(Ok((a, p, c))) => parse_term_rest(text, p, c, a, (fuel - 1) as nat),
            other => other,
        }
    }
}

/// The chain of '*' and '/' continuations after a parsed factor,
/// folded into a left-leaning tree rooted at `acc`.
pub open spec fn parse_term_rest(text: Seq<char>, pos: int, cur: Token, acc: AST, fuel: nat) -> Option<
    Result<(AST, int, Token), InterpError>,
>
    decreases fuel,
{
    if fuel == 0 {
        None
    } else if cur == Token::Mul || cur == Token::Div {
        match token_at(text, pos) {
            Ok((c2, p2)) => match parse_factor(text, p2, c2, (fuel - 1) as nat) {
                Some(Ok((a2, p3, c3))) => parse_term_rest(
                    text,
                    p3,
                    c3,
                    AST::BinOp(Box::new(acc), cur, Box::new(a2)),
                    (fuel - 1) as nat,
                ),
                other => other,
            },
            Err(e) => Some(Err(e)),
        }
    } else {
        Some(Ok((acc, pos, cur)))
    }
}

/// expr := term (('+' | '-') term)* — left-associative.
pub open spec fn parse_expr(text: Seq<char>, pos: int, cur: Token, fuel: nat) -> Option<
    Result<(AST, int, Token), InterpError>,
>
    decreases fuel,
{
    if fuel == 0 {
        None
    } else {
        match parse_term(text, pos, cur, (fuel - 1) as nat) {
            Some(Ok((a, p, c))) => parse_expr_rest(text, p, c, a, (fuel - 1) as nat),
            other => other,
        }
    }
}

/// The chain of '+' and '-' continuations after a parsed term,
/// folded into a left-leaning tree rooted at `acc`.
pub open spec fn parse_expr_rest(text: Seq<char>, pos: int, cur: Token, acc: AST, fuel: nat) -> Option<
    Result<(AST, int, Token), InterpError>,
>
    decreases fuel,
{
    if fuel == 0 {
        None
    } else if cur == Token::Plus || cur == Token::Minus {
        match token_at(text, pos) {
            Ok((c2, p2)) => match parse_term(text, p2, c2, (fuel - 1) as nat) {
                Some(Ok((a2, p3, c3))) => parse_expr_rest(
                    text,
                    p3,
                    c3,
                    AST::BinOp(Box::new(acc), cur, Box::new(a2)),
                    (fuel - 1) as nat,
                ),
                other => other,
            },
            Err(e) => Some(Err(e)),
        }
    } else {
        Some(Ok((acc, pos, cur)))
    }
}

/// block := '{' expr ';' '}' — the block's value is its expression.
pub open spec fn parse_block(text: Seq<char>, pos: int, cur: Token, fuel: nat) -> Option<
    Result<(AST, int, Token), InterpError>,
>
    decreases fuel,
{
    if fuel == 0 {
        None
    } else if cur == Token::LBrace {
        match token_at(text, pos) {
            Ok((c2, p2)) => match parse_expr(text, p2, c2, (fuel - 1) as nat) {
                Some(Ok((a, p3, c3))) => if c3 == Token::Semicolon {
                    match token_at(text, p3) {
                        Ok((c4, p4)) => if c4 == Token::RBrace {
                            match token_at(text, p4) {
                                Ok((c5, p5)) => Some(Ok((a, p5, c5))),
                                Err(e) => Some(Err(e)),
                            }
                        } else {
                            Some(Err(InterpError::UnexpectedToken))
                        },
                        Err(e) => Some(Err(e)),
                    }
                } else {
                    Some(Err(InterpError::UnexpectedToken))
                },
                other => other,
            },
            Err(e) => Some(Err(e)),
        }
    } else {
        Some(Err(InterpError::UnexpectedToken))
    }
}

/// conditional := 'if' '(' expr ')' block ['else' block] — a missing
/// else-clause defaults the alternate to `Num(0)`.
pub open spec fn parse_if_else(text: Seq<char>, pos: int, cur: Token, fuel: nat) -> Option<
    Result<(AST, int, Token), InterpError>,
>
    decreases fuel,
{
    if fuel == 0 {
        None
    } else if cur == Token::If {
        match token_at(text, pos) {
            Ok((c2, p2)) => if c2 == Token::LParen {
                match token_at(text, p2) {
                    Ok((c3, p3)) => match parse_expr(text, p3, c3, (fuel - 1) as nat) {
                        Some(Ok((cond, p4, c4))) => if c4 == Token::RParen {
                            match token_at(text, p4) {
                                Ok((c5, p5)) => match parse_block(text, p5, c5, (fuel - 1) as nat) {
                                    Some(Ok((thn, p6, c6))) => if c6 == Token::Else {
                                        match token_at(text, p6) {
                                            Ok((c7, p7)) => match parse_block(
                                                text,
                                                p7,
                                                c7,
                                                (fuel - 1) as nat,
                                            ) {
                                                Some(Ok((els, p8, c8))) => Some(
                                                    Ok(
                                                        (
                                                            AST::IfElse(
                                                                Box::new(cond),
                                                                Box::new(thn),
                                                                Box::new(els),
                                                            ),
                                                            p8,
                                                            c8,
                                                        ),
                                                    ),
                                                ),
                                                other => other,
                                            },
                                            Err(e) => Some(Err(e)),
                                        }
                                    } else {
                                        Some(
                                            Ok(
                                                (
                                                    AST::IfElse(
                                                        Box::new(cond),
                                                        Box::new(thn),
                                                        Box::new(AST::Num(0)),
                                                    ),
                                                    p6,
                                                    c6,
                                                ),
                                            ),
                                        )
                                    },
                                    other => other,
                                },
                                Err(e) => Some(Err(e)),
                            }
                        } else {
                            Some(Err(InterpError::UnexpectedToken))
                        },
                        other => other,
                    },
                    Err(e) => Some(Err(e)),
                }
            } else {
                Some(Err(InterpError::UnexpectedToken))
            },
            Err(e) => Some(Err(e)),
        }
    } else {
        Some(Err(InterpError::UnexpectedToken))
    }
}

/// program := conditional | expr — dispatch on whether the lookahead
/// is `if`. Tokens after the one parsed construct are left unread.
pub open spec fn parse_program(text: Seq<char>, pos: int, cur: Token, fuel: nat) -> Option<
    Result<(AST, int, Token), InterpError>,
>
    decreases fuel,
{
    if fuel == 0 {
        None
    } else if cur == Token::If {
        parse_if_else(text, pos, cur, (fuel - 1) as nat)
    } else {
        parse_expr(text, pos, cur, (fuel - 1) as nat)
    }
}

/// Whether every operator node of a tree holds one of the four
/// arithmetic tokens. The parser establishes this by construction;
/// the evaluator's `InvalidOperator` condition guards against trees
/// built otherwise.
pub open spec fn arith_ops_only(a: AST) -> bool
    decreases a,
{
    match a {
        AST::Num(_) => true,
        AST::BinOp(left, op, right) => (op == Token::Plus || op == Token::Minus || op
            == Token::Mul || op == Token::Div) && arith_ops_only(*left) && arith_ops_only(*right),
        AST::IfElse(condition, true_branch, false_branch) => arith_ops_only(*condition)
            && arith_ops_only(*true_branch) && arith_ops_only(*false_branch),
    }
}

pub proof fn lemma_factor_arith_ops(text: Seq<char>, pos: int, cur: Token, fuel: nat)
    ensures
        match parse_factor(text, pos, cur, fuel) {
            Some(Ok((a, p, c))) => arith_ops_only(a),
            Some(Err(e)) => e != InterpError::InvalidOperator,
            None => true,
        },
    decreases fuel,
{
    if fuel > 0 {
        if cur == Token::LParen {
            match token_at(text, pos) {
                Ok((c2, p2)) => {
                    lemma_expr_arith_ops(text, p2, c2, (fuel - 1) as nat);
                },
                Err(_) => {},
            }
        }
    }
}

pub proof fn lemma_term_arith_ops(text: Seq<char>, pos: int, cur: Token, fuel: nat)
    ensures
        match parse_term(text, pos, cur, fuel) {
            Some(Ok((a, p, c))) => arith_ops_only(a),
            Some(Err(e)) => e != InterpError::InvalidOperator,
            None => true,
        },
    decreases fuel,
{
    if fuel > 0 {
        lemma_factor_arith_ops(text, pos, cur, (fuel - 1) as nat);
        match parse_factor(text, pos, cur, (fuel - 1) as nat) {
            Some(Ok((a, p, c))) => {
                lemma_term_rest_arith_ops(text, p, c, a, (fuel - 1) as nat);
            },
            _ => {},
        }
    }
}

pub proof fn lemma_term_rest_arith_ops(text: Seq<char>, pos: int, cur: Token, acc: AST, fuel: nat)
    requires
        arith_ops_only(acc),
    ensures
        match parse_term_rest(text, pos, cur, acc, fuel) {
            Some(Ok((a, p, c))) => arith_ops_only(a),
            Some(Err(e)) => e != InterpError::InvalidOperator,
            None => true,
        },
    decreases fuel,
{
    if fuel > 0 && (cur == Token::Mul || cur == Token::Div) {
        match token_at(text, pos) {
            Ok((c2, p2)) => {
                lemma_factor_arith_ops(text, p2, c2, (fuel - 1) as nat);
                match parse_factor(text, p2, c2, (fuel - 1) as nat) {
                    Some(Ok((a2, p3, c3))) => {
                        lemma_term_rest_arith_ops(
                            text,
                            p3,
                            c3,
                            AST::BinOp(Box::new(acc), cur, Box::new(a2)),
                            (fuel - 1) as nat,
                        );
                    },
                    _ => {},
                }
            },
            Err(_) => {},
        }
    }
}

pub proof fn lemma_expr_arith_ops(text: Seq<char>, pos: int, cur: Token, fuel: nat)
    ensures
        match parse_expr(text, pos, cur, fuel) {
            Some(Ok((a, p, c))) => arith_ops_only(a),
            Some(Err(e)) => e != InterpError::InvalidOperator,
            None => true,
        },
    decreases fuel,
{
    if fuel > 0 {
        lemma_term_arith_ops(text, pos, cur, (fuel - 1) as nat);
        match parse_term(text, pos, cur, (fuel - 1) as nat) {
            Some(Ok((a, p, c))) => {
                lemma_expr_rest_arith_ops(text, p, c, a, (fuel - 1) as nat);
            },
            _ => {},
        }
    }
}

pub proof fn lemma_expr_rest_arith_ops(text: Seq<char>, pos: int, cur: Token, acc: AST, fuel: nat)
    requires
        arith_ops_only(acc),
    ensures
        match parse_expr_rest(text, pos, cur, acc, fuel) {
            Some(Ok((a, p, c))) => arith_ops_only(a),
            Some(Err(e)) => e != InterpError::InvalidOperator,
            None => true,
        },
    decreases fuel,
{
    if fuel > 0 && (cur == Token::Plus || cur == Token::Minus) {
        match token_at(text, pos) {
            Ok((c2, p2)) => {
                lemma_term_arith_ops(text, p2, c2, (fuel - 1) as nat);
                match parse_term(text, p2, c2, (fuel - 1) as nat) {
                    Some(Ok((a2, p3, c3))) => {
                        lemma_expr_rest_arith_ops(
                            text,
                            p3,
                            c3,
                            AST::BinOp(Box::new(acc), cur, Box::new(a2)),
                            (fuel - 1) as nat,
                        );
                    },
                    _ => {},
                }
            },
            Err(_) => {},
        }
    }
}

pub proof fn lemma_block_arith_ops(text: Seq<char>, pos: int, cur: Token, fuel: nat)
    ensures
        match parse_block(text, pos, cur, fuel) {
            Some(Ok((a, p, c))) => arith_ops_only(a),
            Some(Err(e)) => e != InterpError::InvalidOperator,
            None => true,
        },
    decreases fuel,
{
    if fuel > 0 && cur == Token::LBrace {
        match token_at(text, pos) {
            Ok((c2, p2)) => {
                lemma_expr_arith_ops(text, p2, c2, (fuel - 1) as nat);
            },
            Err(_) => {},
        }
    }
}

pub proof fn lemma_if_else_arith_ops(text: Seq<char>, pos: int, cur: Token, fuel: nat)
    ensures
        match parse_if_else(text, pos, cur, fuel) {
            Some(Ok((a, p, c))) => arith_ops_only(a),
            Some(Err(e)) => e != InterpError::InvalidOperator,
            None => true,
        },
    decreases fuel,
{
    if fuel > 0 && cur == Token::If {
        match token_at(text, pos) {
            Ok((c2, p2)) => if c2 == Token::LParen {
                match token_at(text, p2) {
                    Ok((c3, p3)) => {
                        lemma_expr_arith_ops(text, p3, c3, (fuel - 1) as nat);
                        match parse_expr(text, p3, c3, (fuel - 1) as nat) {
                            Some(Ok((cond, p4, c4))) => if c4 == Token::RParen {
                                match token_at(text, p4) {
                                    Ok((c5, p5)) => {
                                        lemma_block_arith_ops(text, p5, c5, (fuel - 1) as nat);
                                        match parse_block(text, p5, c5, (fuel - 1) as nat) {
                                            Some(Ok((thn, p6, c6))) => if c6 == Token::Else {
                                                match token_at(text, p6) {
                                                    Ok((c7, p7)) => {
                                                        lemma_block_arith_ops(
                                                            text,
                                                            p7,
                                                            c7,
                                                            (fuel - 1) as nat,
                                                        );
                                                    },
                                                    Err(_) => {},
                                                }
                                            } else {
                                                assert(arith_ops_only(AST::Num(0)));
                                            },
                                            _ => {},
                                        }
                                    },
                                    Err(_) => {},
                                }
                            },
                            _ => {},
                        }
                    },
                    Err(_) => {},
                }
            },
            Err(_) => {},
        }
    }
}

/// Every tree the parser can produce holds only arithmetic operators
/// in its operator nodes, and no parse failure ever reports the
/// evaluator's `InvalidOperator` condition.
pub proof fn lemma_program_arith_ops(text: Seq<char>, pos: int, cur: Token, fuel: nat)
    ensures
        match parse_program(text, pos, cur, fuel) {
            Some(Ok((a, p, c))) => arith_ops_only(a),
            Some(Err(e)) => e != InterpError::InvalidOperator,
            None => true,
        },
    decreases fuel,
{
    if fuel > 0 {
        if cur == Token::If {
            lemma_if_else_arith_ops(text, pos, cur, (fuel - 1) as nat);
        } else {
            lemma_expr_arith_ops(text, pos, cur, (fuel - 1) as nat);
        }
    }
}

/// The parser: the scanner it exclusively owns, and the single
/// lookahead token already fetched from it.
pub struct Parser {
    lexer: Lexer,
    current_token: Token,
}

impl Parser {
    /// The source text being parsed.
    pub closed spec fn text_model(&self) -> Seq<char> {
        self.lexer.text_model()
    }

    /// The scanner's position, just past the current lookahead.
    pub closed spec fn pos_model(&self) -> int {
        self.lexer.pos_model()
    }

    /// The current lookahead token.
    pub closed spec fn cur_model(&self) -> Token {
        self.current_token
    }

    /// The parser is well-formed whenever its scanner is.
    pub closed spec fn wf(&self) -> bool {
        self.lexer.wf()
    }

    /// The parser's termination measure in its current state.
    pub closed spec fn measure(&self) -> int {
        state_measure(self.text_model(), self.pos_model(), self.cur_model())
    }

    /// A parser over the given scanner, primed with its first token;
    /// the error of scanning that token, if it fails.
    pub fn new(lexer: Lexer) -> (r: Result<Parser, InterpError>)
        requires
            lexer.wf(),
        ensures
            match r {
                Ok(p) => p.wf() && p.text_model() == lexer.text_model() && token_at(
                    lexer.text_model(),
                    lexer.pos_model(),
                ) == Ok::<(Token, int), InterpError>((p.cur_model(), p.pos_model())),
                Err(e) => token_at(lexer.text_model(), lexer.pos_model()) == Err::<
                    (Token, int),
                    InterpError,
                >(e),
            },
    {
        let mut lx = lexer;
        match lx.get_next_token() {
            Ok(t) => Ok(Parser { lexer: lx, current_token: t }),
            Err(e) => Err(e),
        }
    }

    /// Compare the lookahead against the expected token; on a match,
    /// replace it with the next token from the scanner, otherwise fail
    /// with `UnexpectedToken`.
    fn eat(&mut self, token_type: Token) -> (r: Result<(), InterpError>)
        requires
            old(self).wf(),
        ensures
            final(self).wf(),
            final(self).text_model() == old(self).text_model(),
            match r {
                Ok(_) => old(self).cur_model() == token_type && token_at(
                    old(self).text_model(),
                    old(self).pos_model(),
                ) == Ok::<(Token, int), InterpError>(
                    (final(self).cur_model(), final(self).pos_model()),
                ),
                Err(e) => if old(self).cur_model() != token_type {
                    e == InterpError::UnexpectedToken
                } else {
                    token_at(old(self).text_model(), old(self).pos_model()) == Err::<
                        (Token, int),
                        InterpError,
                    >(e)
                },
            },
            r is Ok && token_type != Token::EOF ==> final(self).measure() < old(self).measure(),
    {
        if self.current_token == token_type {
            match self.lexer.get_next_token() {
                Ok(t) => {
                    self.current_token = t;
                    Ok(())
                },
                Err(e) => Err(e),
            }
        } else {
            Err(InterpError::UnexpectedToken)
        }
    }

    /// factor := Integer | '(' expr ')', exactly as `parse_factor` says.
    fn factor(&mut self, Ghost(fuel): Ghost<nat>) -> (r: Result<AST, InterpError>)
        requires
            old(self).wf(),
            fuel >= 3 * old(self).measure() + 2,
        ensures
            final(self).wf(),
            final(self).text_model() == old(self).text_model(),
            match r {
                Ok(a) => parse_factor(
                    old(self).text_model(),
                    old(self).pos_model(),
                    old(self).cur_model(),
                    fuel,
                ) == Some(
                    Ok::<(AST, int, Token), InterpError>(
                        (a, final(self).pos_model(), final(self).cur_model()),
                    ),
                ) && final(self).measure() < old(self).measure(),
                Err(e) => parse_factor(
                    old(self).text_model(),
                    old(self).pos_model(),
                    old(self).cur_model(),
                    fuel,
                ) == Some(Err::<(AST, int, Token), InterpError>(e)),
            },
        decreases old(self).measure(), 0int,
    {
        let tok = self.current_token;
        match tok {
            Token::Integer(value) => {
                let node = AST::Num(value);
                match self.eat(Token::Integer(value)) {
                    Ok(_) => Ok(node),
                    Err(e) => Err(e),
                }
            },
            Token::LParen => {
                match self.eat(Token::LParen) {
                    Ok(_) => (),
                    Err(e) => {
                        return Err(e);
                    },
                }
                let node = match self.expr(Ghost((fuel - 1) as nat)) {
                    Ok(a) => a,
                    Err(e) => {
                        return Err(e);
                    },
                };
                match self.eat(Token::RParen) {
                    Ok(_) => Ok(node),
                    Err(e) => Err(e),
                }
            },
            _ => Err(InterpError::UnexpectedToken),
        }
    }

    /// term := factor (('*' | '/') factor)*, exactly as `parse_term` says.
    #[verifier::loop_isolation(false)]
    fn term(&mut self, Ghost(fuel): Ghost<nat>) -> (r: Result<AST, InterpError>)
        requires
            old(self).wf(),
            fuel >= 3 * old(self).measure() + 3,
        ensures
            final(self).wf(),
            final(self).text_model() == old(self).text_model(),
            match r {
                Ok(a) => parse_term(
                    old(self).text_model(),
                    old(self).pos_model(),
                    old(self).cur_model(),
                    fuel,
                ) == Some(
                    Ok::<(AST, int, Token), InterpError>(
                        (a, final(self).pos_model(), final(self).cur_model()),
                    ),
                ) && final(self).measure() < old(self).measure(),
                Err(e) => parse_term(
                    old(self).text_model(),
                    old(self).pos_model(),
                    old(self).cur_model(),
                    fuel,
                ) == Some(Err::<(AST, int, Token), InterpError>(e)),
            },
        decreases old(self).measure(), 1int,
    {
        let ghost t = self.text_model();
        let ghost p_in: int = self.pos_model();
        let ghost c_in = self.cur_model();
        let ghost m0: int = self.measure();
        let mut node = match self.factor(Ghost((fuel - 1) as nat)) {
            Ok(a) => a,
            Err(e) => {
                return Err(e);
            },
        };
        let ghost mut g: nat = (fuel - 1) as nat;
        while self.current_token == Token::Mul || self.current_token == Token::Div
            invariant
                self.wf(),
                self.text_model() == t,
                self.measure() < m0,
                g >= 3 * self.measure() + 1,
                parse_term_rest(t, self.pos_model(), self.cur_model(), node, g) == parse_term(
                    t,
                    p_in,
                    c_in,
                    fuel,
                ),
            decreases self.measure(),
        {
            let op = self.current_token;
            let r1 = if op == Token::Mul {
                self.eat(Token::Mul)
            } else {
                self.eat(Token::Div)
            };
            match r1 {
                Ok(_) => (),
                Err(e) => {
                    return Err(e);
                },
            }
            let rhs = match self.factor(Ghost((g - 1) as nat)) {
                Ok(a) => a,
                Err(e) => {
                    return Err(e);
                },
            };
            node = AST::BinOp(Box::new(node), op, Box::new(rhs));
            proof {
                g = (g - 1) as nat;
            }
        }
        Ok(node)
    }

    /// expr := term (('+' | '-') term)*, exactly as `parse_expr` says.
    #[verifier::loop_isolation(false)]
    fn expr(&mut self, Ghost(fuel): Ghost<nat>) -> (r: Result<AST, InterpError>)
        requires
            old(self).wf(),
            fuel >= 3 * old(self).measure() + 4,
        ensures
            final(self).wf(),
            final(self).text_model() == old(self).text_model(),
            match r {
                Ok(a) => parse_expr(
                    old(self).text_model(),
                    old(self).pos_model(),
                    old(self).cur_model(),
                    fuel,
                ) == Some(
                    Ok::<(AST, int, Token), InterpError>(
                        (a, final(self).pos_model(), final(self).cur_model()),
                    ),
                ) && final(self).measure() < old(self).measure(),
                Err(e) => parse_expr(
                    old(self).text_model(),
                    old(self).pos_model(),
                    old(self).cur_model(),
                    fuel,
                ) == Some(Err::<(AST, int, Token), InterpError>(e)),
            },
        decreases old(self).measure(), 2int,
    {
        let ghost t = self.text_model();
        let ghost p_in: int = self.pos_model();
        let ghost c_in = self.cur_model();
        let ghost m0: int = self.measure();
        let mut node = match self.term(Ghost((fuel - 1) as nat)) {
            Ok(a) => a,
            Err(e) => {
                return Err(e);
            },
        };
        let ghost mut g: nat = (fuel - 1) as nat;
        while self.current_token == Token::Plus || self.current_token == Token::Minus
            invariant
                self.wf(),
                self.text_model() == t,
                self.measure() < m0,
                g >= 3 * self.measure() + 1,
                parse_expr_rest(t, self.pos_model(), self.cur_model(), node, g) == parse_expr(
                    t,
                    p_in,
                    c_in,
                    fuel,
                ),
            decreases self.measure(),
        {
            let op = self.current_token;
            let r1 = if op == Token::Plus {
                self.eat(Token::Plus)
            } else {
                self.eat(Token::Minus)
            };
            match r1 {
                Ok(_) => (),
                Err(e) => {
                    return Err(e);
                },
            }
            let rhs = match self.term(Ghost((g - 1) as nat)) {
                Ok(a) => a,
                Err(e) => {
                    return Err(e);
                },
            };
            node = AST::BinOp(Box::new(node), op, Box::new(rhs));
            proof {
                g = (g - 1) as nat;
            }
        }
        Ok(node)
    }

    /// block := '{' expr ';' '}', exactly as `parse_block` says.
    fn block(&mut self, Ghost(fuel): Ghost<nat>) -> (r: Result<AST, InterpError>)
        requires
            old(self).wf(),
            fuel >= 3 * old(self).measure() + 2,
        ensures
            final(self).wf(),
            final(self).text_model() == old(self).text_model(),
            match r {
                Ok(a) => parse_block(
                    old(self).text_model(),
                    old(self).pos_model(),
                    old(self).cur_model(),
                    fuel,
                ) == Some(
                    Ok::<(AST, int, Token), InterpError>(
                        (a, final(self).pos_model(), final(self).cur_model()),
                    ),
                ) && final(self).measure() < old(self).measure(),
                Err(e) => parse_block(
                    old(self).text_model(),
                    old(self).pos_model(),
                    old(self).cur_model(),
                    fuel,
                ) == Some(Err::<(AST, int, Token), InterpError>(e)),
            },
        decreases old(self).measure(), 3int,
    {
        match self.eat(Token::LBrace) {
            Ok(_) => (),
            Err(e) => {
                return Err(e);
            },
        }
        let node = match self.expr(Ghost((fuel - 1) as nat)) {
            Ok(a) => a,
            Err(e) => {
                return Err(e);
            },
        };
        match self.eat(Token::Semicolon) {
            Ok(_) => (),
            Err(e) => {
                return Err(e);
            },
        }
        match self.eat(Token::RBrace) {
            Ok(_) => (),
            Err(e) => {
                return Err(e);
            },
        }
        Ok(node)
    }

    /// conditional := 'if' '(' expr ')' block ['else' block], exactly as
    /// `parse_if_else` says.
    fn if_else_statement(&mut self, Ghost(fuel): Ghost<nat>) -> (r: Result<AST, InterpError>)
        requires
            old(self).wf(),
            fuel >= 3 * old(self).measure() + 2,
        ensures
            final(self).wf(),
            final(self).text_model() == old(self).text_model(),
            match r {
                Ok(a) => parse_if_else(
                    old(self).text_model(),
                    old(self).pos_model(),
                    old(self).cur_model(),
                    fuel,
                ) == Some(
                    Ok::<(AST, int, Token), InterpError>(
                        (a, final(self).pos_model(), final(self).cur_model()),
                    ),
                ) && final(self).measure() < old(self).measure(),
                Err(e) => parse_if_else(
                    old(self).text_model(),
                    old(self).pos_model(),
                    old(self).cur_model(),
                    fuel,
                ) == Some(Err::<(AST, int, Token), InterpError>(e)),
            },
        decreases old(self).measure(), 4int,
    {
        match self.eat(Token::If) {
            Ok(_) => (),
            Err(e) => {
                return Err(e);
            },
        }
        match self.eat(Token::LParen) {
            Ok(_) => (),
            Err(e) => {
                return Err(e);
            },
        }
        let condition = match self.expr(Ghost((fuel - 1) as nat)) {
            Ok(a) => a,
            Err(e) => {
                return Err(e);
            },
        };
        match self.eat(Token::RParen) {
            Ok(_) => (),
            Err(e) => {
                return Err(e);
            },
        }
        let true_branch = match self.block(Ghost((fuel - 1) as nat)) {
            Ok(a) => a,
            Err(e) => {
                return Err(e);
            },
        };
        let false_branch = if self.current_token == Token::Else {
            match self.eat(Token::Else) {
                Ok(_) => (),
                Err(e) => {
                    return Err(e);
                },
            }
            match self.block(Ghost((fuel - 1) as nat)) {
                Ok(a) => a,
                Err(e) => {
                    return Err(e);
                },
            }
        } else {
            AST::Num(0)
        };
        Ok(AST::IfElse(Box::new(condition), Box::new(true_branch), Box::new(false_branch)))
    }

    /// Parse the one expression or conditional statement the source
    /// holds, exactly as `parse_program` says with fuel `parser_fuel`;
    /// the contract shows that fuel never runs out. Tokens after the
    /// parsed construct are left unread.
    pub fn parse(&mut self) -> (r: Result<AST, InterpError>)
        requires
            old(self).wf(),
        ensures
            final(self).wf(),
            final(self).text_model() == old(self).text_model(),
            match r {
                Ok(a) => parse_program(
                    old(self).text_model(),
                    old(self).pos_model(),
                    old(self).cur_model(),
                    parser_fuel(old(self).text_model()),
                ) == Some(
                    Ok::<(AST, int, Token), InterpError>(
                        (a, final(self).pos_model(), final(self).cur_model()),
                    ),
                ),
                Err(e) => parse_program(
                    old(self).text_model(),
                    old(self).pos_model(),
                    old(self).cur_model(),
                    parser_fuel(old(self).text_model()),
                ) == Some(Err::<(AST, int, Token), InterpError>(e)),
            },
    {
        let ghost f0: nat = parser_fuel(self.text_model());
        proof {
            assert(self.measure() <= self.text_model().len() + 1);
        }
        if self.current_token == Token::If {
            self.if_else_statement(Ghost((f0 - 1) as nat))
        } else {
            self.expr(Ghost((f0 - 1) as nat))
        }
    }
}

} // verus!
