use vstd::prelude::*;
use vstd::string::StrSliceExecFns;

verus! {

/// The conditions on which a run fails. Each stage reports its own:
/// the scanner `UnknownCharacter` and `InvalidLiteral`, the parser
/// `UnexpectedToken`, the evaluator `InvalidOperator`, `DivisionByZero`
/// and `ArithmeticOverflow`. They propagate to the caller as errors;
/// no stage produces a partial result.
#[derive(Debug, PartialEq, Eq, Structural, Clone, Copy)]
pub enum InterpError {
    UnknownCharacter,
    InvalidLiteral,
    UnexpectedToken,
    InvalidOperator,
    DivisionByZero,
    ArithmeticOverflow,
}

/// One lexical unit. `Integer` carries its value; the other categories
/// are the punctuation, the two keywords, and the end-of-input marker.
#[derive(Debug, PartialEq, Eq, Structural, Clone, Copy)]
pub enum Token {
    Integer(i64),
    Plus,
    Minus,
    Mul,
    Div,
    LParen,
    RParen,
    LBrace,
    RBrace,
    Semicolon,
    If,
    Else,
    EOF,
}

/// The whitespace the scanner skips: space, tab, newline, carriage return.
pub open spec fn is_space_char(c: char) -> bool {
    c == ' ' || c == '\t' || c == '\n' || c == '\r'
}

/// A decimal digit.
pub open spec fn is_digit_char(c: char) -> bool {
    48 <= c as u32 && c as u32 <= 57
}

/// The numeric value of a decimal digit.
pub open spec fn digit_val(c: char) -> int {
    c as u32 - 48
}

/// The first position at or after `pos` that does not hold whitespace
/// (or the end of the text).
pub open spec fn skip_ws(text: Seq<char>, pos: int) -> int
    decreases text.len() - pos,
{
    if 0 <= pos && pos < text.len() && is_space_char(text[pos]) {
        skip_ws(text, pos + 1)
    } else {
        pos
    }
}

/// The end of the maximal run of digits starting at `pos`.
pub open spec fn digits_end(text: Seq<char>, pos: int) -> int
    decreases text.len() - pos,
{
    if 0 <= pos && pos < text.len() && is_digit_char(text[pos]) {
        digits_end(text, pos + 1)
    } else {
        pos
    }
}

/// The value of the digit run `text[start .. end)`, read in base ten.
pub open spec fn digits_value(text: Seq<char>, start: int, end: int) -> int
    decreases end - start,
{
    if start < end {
        digits_value(text, start, end - 1) * 10 + digit_val(text[end - 1])
    } else {
        0
    }
}

/// The token the scanner produces at position `pos`, with the position
/// just past it: skip whitespace, then read a maximal digit run as an
/// `Integer` (rejecting one whose value exceeds the 64-bit signed range),
/// a punctuation character as its category, `if` and `else` by fixed
/// lookahead, and the end of the text (or a NUL sentinel) as `EOF`.
/// Any other character is `UnknownCharacter`.
pub open spec fn token_at(text: Seq<char>, pos: int) -> Result<(Token, int), InterpError> {
    let p = skip_ws(text, pos);
    if p >= text.len() || text[p] == '\0' {
        Ok((Token::EOF, p))
    } else if is_digit_char(text[p]) {
        let e = digits_end(text, p);
        let v = digits_value(text, p, e);
        if v <= i64::MAX {
            Ok((Token::Integer(v as i64), e))
        } else {
            Err(InterpError::InvalidLiteral)
        }
    } else if text[p] == '+' {
        Ok((Token::Plus, p + 1))
    } else if text[p] == '-' {
        Ok((Token::Minus, p + 1))
    } else if text[p] == '*' {
        Ok((Token::Mul, p + 1))
    } else if text[p] == '/' {
        Ok((Token::Div, p + 1))
    } else if text[p] == '(' {
        Ok((Token::LParen, p + 1))
    } else if text[p] == ')' {
        Ok((Token::RParen, p + 1))
    } else if text[p] == '{' {
        Ok((Token::LBrace, p + 1))
    } else if text[p] == '}' {
        Ok((Token::RBrace, p + 1))
    } else if text[p] == ';' {
        Ok((Token::Semicolon, p + 1))
    } else if text[p] == 'i' && p + 1 < text.len() && text[p + 1] == 'f' {
        Ok((Token::If, p + 2))
    } else if text[p] == 'e' && p + 3 < text.len() && text[p + 1] == 'l' && text[p + 2] == 's'
        && text[p + 3] == 'e' {
        Ok((Token::Else, p + 4))
    } else {
        Err(InterpError::UnknownCharacter)
    }
}

pub proof fn lemma_skip_ws_bounds(text: Seq<char>, pos: int)
    requires
        0 <= pos <= text.len(),
    ensures
        pos <= skip_ws(text, pos) <= text.len(),
    decreases text.len() - pos,
{
    if pos < text.len() && is_space_char(text[pos]) {
        lemma_skip_ws_bounds(text, pos + 1);
    }
}

pub proof fn lemma_digits_end_bounds(text: Seq<char>, pos: int)
    requires
        0 <= pos <= text.len(),
    ensures
        pos <= digits_end(text, pos) <= text.len(),
    decreases text.len() - pos,
{
    if pos < text.len() && is_digit_char(text[pos]) {
        lemma_digits_end_bounds(text, pos + 1);
    }
}

/// Scanning never moves backward, stays within the text, and moves
/// strictly forward for every token but `EOF`.
pub proof fn lemma_token_at_progress(text: Seq<char>, pos: int)
    requires
        0 <= pos <= text.len(),
    ensures
        match token_at(text, pos) {
            Ok((t, p2)) => pos <= p2 <= text.len() && (t != Token::EOF ==> pos < p2),
            Err(_) => true,
        },
{
    lemma_skip_ws_bounds(text, pos);
    let p = skip_ws(text, pos);
    if p < text.len() && text[p] != '\0' && is_digit_char(text[p]) {
        lemma_digits_end_bounds(text, p + 1);
        assert(digits_end(text, p) == digits_end(text, p + 1));
    }
}

proof fn lemma_skip_ws_fixed(text: Seq<char>, pos: int)
    ensures
        skip_ws(text, skip_ws(text, pos)) == skip_ws(text, pos),
    decreases text.len() - pos,
{
    if 0 <= pos && pos < text.len() && is_space_char(text[pos]) {
        lemma_skip_ws_fixed(text, pos + 1);
    } else {
        assert(skip_ws(text, pos) == pos);
    }
}

/// The scanner is idempotent at end-of-stream: once it yields `EOF`
/// from some position, scanning again from there yields `EOF` from
/// that same position, indefinitely.
pub proof fn lemma_eof_idempotent(text: Seq<char>, pos: int, p2: int)
    requires
        token_at(text, pos) == Ok::<(Token, int), InterpError>((Token::EOF, p2)),
    ensures
        token_at(text, p2) == Ok::<(Token, int), InterpError>((Token::EOF, p2)),
{
    lemma_skip_ws_fixed(text, pos);
}

/// Whether `c` is whitespace, decided as `is_space_char` says.
fn is_space(c: char) -> (b: bool)
    ensures
        b == is_space_char(c),
{
    c == ' ' || c == '\t' || c == '\n' || c == '\r'
}

/// Whether `c` is a decimal digit, decided as `is_digit_char` says.
fn is_digit(c: char) -> (b: bool)
    ensures
        b == is_digit_char(c),
{
    let u: u32 = c as u32;
    48 <= u && u <= 57
}

/// The scanner: the full source as characters and a cursor that only
/// moves forward.
pub struct Lexer {
    text: Vec<char>,
    pos: usize,
}

impl Lexer {
    /// The source text being scanned.
    pub closed spec fn text_model(&self) -> Seq<char> {
        self.text@
    }

    /// The cursor position.
    pub closed spec fn pos_model(&self) -> int {
        self.pos as int
    }

    /// The cursor never leaves the text (one past the last character
    /// counts as exhausted).
    pub open spec fn wf(&self) -> bool {
        0 <= self.pos_model() <= self.text_model().len()
    }

    /// A scanner over `text`, with the cursor at the start.
    pub fn new(text: String) -> (r: Lexer)
        ensures
            r.wf(),
            r.text_model() == text@,
            r.pos_model() == 0,
    {
        let s = text.as_str();
        let n: usize = s.unicode_len();
        let mut chars: Vec<char> = Vec::new();
        let mut i: usize = 0;
        while i < n
            invariant
                i <= n,
                n == s@.len(),
                s@ == text@,
                chars@ == s@.subrange(0, i as int),
            decreases n - i,
        {
            let c = s.get_char(i);
            chars.push(c);
            assert(chars@ =~= s@.subrange(0, i + 1));
            i += 1;
        }
        assert(chars@ =~= text@);
        Lexer { text: chars, pos: 0 }
    }

    /// Move the cursor one character forward; at the end of the text it
    /// stays where it is.
    pub fn advance(&mut self)
        requires
            old(self).wf(),
        ensures
            final(self).wf(),
            final(self).text_model() == old(self).text_model(),
            final(self).pos_model() == if old(self).pos_model() < old(self).text_model().len() {
                old(self).pos_model() + 1
            } else {
                old(self).pos_model()
            },
    {
        if self.pos < self.text.len() {
            self.pos = self.pos + 1;
        }
    }

    /// Move the cursor past the maximal whitespace run at the cursor.
    fn skip_whitespace(&mut self)
        requires
            old(self).wf(),
        ensures
            final(self).wf(),
            final(self).text_model() == old(self).text_model(),
            final(self).pos_model() == skip_ws(old(self).text_model(), old(self).pos_model()),
    {
        while self.pos < self.text.len() && is_space(self.text[self.pos])
            invariant
                self.wf(),
                self.text_model() == old(self).text_model(),
                skip_ws(self.text_model(), self.pos_model()) == skip_ws(
                    old(self).text_model(),
                    old(self).pos_model(),
                ),
            decreases self.text_model().len() - self.pos_model(),
        {
            self.advance();
        }
    }

    /// Consume the maximal digit run at the cursor and return its value,
    /// or `InvalidLiteral` if the value exceeds the 64-bit signed range.
    /// Either way the cursor ends just past the run.
    fn integer(&mut self) -> (r: Result<i64, InterpError>)
        requires
            old(self).wf(),
            old(self).pos_model() < old(self).text_model().len(),
            is_digit_char(old(self).text_model()[old(self).pos_model()]),
        ensures
            final(self).wf(),
            final(self).text_model() == old(self).text_model(),
            final(self).pos_model() == digits_end(old(self).text_model(), old(self).pos_model()),
            ({
                let v = digits_value(
                    old(self).text_model(),
                    old(self).pos_model(),
                    digits_end(old(self).text_model(), old(self).pos_model()),
                );
                if v <= i64::MAX {
                    r == Ok::<i64, InterpError>(v as i64)
                } else {
                    r == Err::<i64, InterpError>(InterpError::InvalidLiteral)
                }
            }),
    {
        let ghost t = self.text@;
        let ghost p0: int = self.pos as int;
        let mut acc: i64 = 0;
        let mut overflow = false;
        while self.pos < self.text.len() && is_digit(self.text[self.pos])
            invariant
                self.wf(),
                self.text_model() == t,
                p0 <= self.pos_model() <= t.len(),
                digits_end(t, p0) == digits_end(t, self.pos_model()),
                0 <= acc,
                !overflow ==> acc == digits_value(t, p0, self.pos_model()),
                overflow ==> digits_value(t, p0, self.pos_model()) > i64::MAX,
            decreases t.len() - self.pos_model(),
        {
            let c = self.text[self.pos];
            let d: i64 = ((c as u32) - 48) as i64;
            if !overflow {
                match acc.checked_mul(10) {
                    Some(m) => match m.checked_add(d) {
                        Some(s) => {
                            acc = s;
                        },
                        None => {
                            overflow = true;
                        },
                    },
                    None => {
                        overflow = true;
                    },
                }
            }
            self.advance();
        }
        if overflow {
            Err(InterpError::InvalidLiteral)
        } else {
            Ok(acc)
        }
    }

    /// Produce the next token, exactly as `token_at` describes at the
    /// cursor, and leave the cursor just past it. At the end of the
    /// input it keeps yielding `EOF` without moving. On an error the
    /// token stream ends: the condition is returned in place of a token.
    pub fn get_next_token(&mut self) -> (r: Result<Token, InterpError>)
        requires
            old(self).wf(),
        ensures
            final(self).wf(),
            final(self).text_model() == old(self).text_model(),
            match token_at(old(self).text_model(), old(self).pos_model()) {
                Ok((t, p2)) => r == Ok::<Token, InterpError>(t) && final(self).pos_model() == p2,
                Err(e) => r == Err::<Token, InterpError>(e),
            },
            old(self).pos_model() <= final(self).pos_model(),
            match token_at(old(self).text_model(), old(self).pos_model()) {
                Ok((t, p2)) => t != Token::EOF ==> old(self).pos_model() < final(self).pos_model(),
                Err(_) => true,
            },
    {
        proof {
            lemma_token_at_progress(self.text@, self.pos as int);
            lemma_skip_ws_bounds(self.text@, self.pos as int);
        }
        self.skip_whitespace();
        if self.pos >= self.text.len() {
            return Ok(Token::EOF);
        }
        let c = self.text[self.pos];
        if c == '\0' {
            return Ok(Token::EOF);
        }
        if is_digit(c) {
            proof {
                lemma_digits_end_bounds(self.text@, self.pos as int);
            }
            return match self.integer() {
                Ok(v) => Ok(Token::Integer(v)),
                Err(e) => Err(e),
            };
        }
        if c == '+' {
            self.advance();
            return Ok(Token::Plus);
        }
        if c == '-' {
            self.advance();
            return Ok(Token::Minus);
        }
        if c == '*' {
            self.advance();
            return Ok(Token::Mul);
        }
        if c == '/' {
            self.advance();
            return Ok(Token::Div);
        }
        if c == '(' {
            self.advance();
            return Ok(Token::LParen);
        }
        if c == ')' {
            self.advance();
            return Ok(Token::RParen);
        }
        if c == '{' {
            self.advance();
            return Ok(Token::LBrace);
        }
        if c == '}' {
            self.advance();
            return Ok(Token::RBrace);
        }
        if c == ';' {
            self.advance();
            return Ok(Token::Semicolon);
        }
        if c == 'i' {
            if self.text.len() - self.pos > 1 && self.text[self.pos + 1] == 'f' {
                self.advance();
                self.advance();
                return Ok(Token::If);
            }
            return Err(InterpError::UnknownCharacter);
        }
        if c == 'e' {
            if self.text.len() - self.pos > 3 && self.text[self.pos + 1] == 'l'
                && self.text[self.pos + 2] == 's' && self.text[self.pos + 3] == 'e' {
                self.advance();
                self.advance();
                self.advance();
                self.advance();
                return Ok(Token::Else);
            }
            return Err(InterpError::UnknownCharacter);
        }
        Err(InterpError::UnknownCharacter)
    }
}

} // verus!
