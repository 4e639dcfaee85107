//! The syntax builder: a precedence-climbing (Pratt) parser.
//!
//! The parser consumes the scanned tokens left to right and produces one
//! syntax tree, driven by the binding-power table:
//!
//! | operator | role    | left bp | right bp | associativity |
//! |----------|---------|---------|----------|---------------|
//! | `=`      | infix   | 2       | 1        | right         |
//! | `+` `-`  | infix   | 3       | 4        | left          |
//! | `^`      | infix   | 6       | 5        | right         |
//! | `*` `/`  | infix   | 7       | 8        | left          |
//! | `+` `-`  | prefix  | —       | 9        |               |
//! | `!`      | postfix | 11      | —        |               |
//!
//! The whole behaviour is written down by [`spec_parse`] and
//! [`spec_parse_loop`], and [`PrattParser::parse_min_bp`] is proved to
//! return exactly that.

use vstd::prelude::*;

use crate::errors::{InterpretError, InterpretErrorModel, LexError, ParseError};
use crate::lexer::{tokens_view, AtomType, Lexer, Token, TokenModel};

verus! {

/// An atom of the syntax tree: a leaf value.
#[derive(Debug)]
pub enum SExprAtom {
    /// A numeric literal, kept as the exact text that was scanned.
    Number(String),
    /// A variable identifier.
    Variable(String),
}

/// A syntax tree. An application node holds an operator character and one
/// child (prefix and postfix operators) or two children (infix operators and
/// assignment).
#[derive(Debug)]
pub enum SExpr {
    /// A leaf: a numeric literal or a variable reference.
    Atom(SExprAtom),
    /// An operator applied to one operand.
    Unary(char, Box<SExpr>),
    /// An operator applied to two operands, left then right.
    Binary(char, Box<SExpr>, Box<SExpr>),
}

/// The mathematical shape of a syntax tree, with texts as character
/// sequences.
pub enum SExprModel {
    Number(Seq<char>),
    Variable(Seq<char>),
    Unary(char, Box<SExprModel>),
    Binary(char, Box<SExprModel>, Box<SExprModel>),
}

/// The mathematical shape of a syntax tree.
pub open spec fn sexpr_view(e: SExpr) -> SExprModel
    decreases e,
{
    match e {
        SExpr::Atom(SExprAtom::Number(s)) => SExprModel::Number(s@),
        SExpr::Atom(SExprAtom::Variable(s)) => SExprModel::Variable(s@),
        SExpr::Unary(c, x) => SExprModel::Unary(c, Box::new(sexpr_view(*x))),
        SExpr::Binary(c, a, b) => SExprModel::Binary(
            c,
            Box::new(sexpr_view(*a)),
            Box::new(sexpr_view(*b)),
        ),
    }
}

impl View for SExpr {
    type V = SExprModel;

    open spec fn view(&self) -> SExprModel {
        sexpr_view(*self)
    }
}

/// The infix binding powers (left, right) of an operator, if it has an
/// infix role.
pub open spec fn spec_infix_bp(c: char) -> Option<(u8, u8)> {
    if c == '=' {
        Some((2, 1))
    } else if c == '+' || c == '-' {
        Some((3, 4))
    } else if c == '^' {
        Some((6, 5))
    } else if c == '*' || c == '/' {
        Some((7, 8))
    } else {
        None
    }
}

/// The right binding power of an operator, if it has a prefix role.
pub open spec fn spec_prefix_bp(c: char) -> Option<u8> {
    if c == '+' || c == '-' {
        Some(9)
    } else {
        None
    }
}

/// The left binding power of an operator, if it has a postfix role.
pub open spec fn spec_postfix_bp(c: char) -> Option<u8> {
    if c == '!' {
        Some(11)
    } else {
        None
    }
}

/// The token at `pos`, or the end-of-input token past the end.
pub open spec fn tok_at(ts: Seq<TokenModel>, pos: int) -> TokenModel {
    if 0 <= pos < ts.len() {
        ts[pos]
    } else {
        TokenModel::End
    }
}

/// A cursor value brought back into the window `[lo, hi]`. The parser's
/// recursion is measured by the cursor, and every recursive result is passed
/// through this clamp so that the measure plainly shrinks; the progress
/// lemmas below show that the clamp never changes anything.
pub open spec fn advance(next: int, lo: int, hi: int) -> int {
    if next < lo {
        lo
    } else if next > hi {
        hi
    } else {
        next
    }
}

/// What parsing one expression yields: a tree and the cursor past it, or a
/// parse error.
pub enum ParseStep {
    Parsed(SExprModel, int),
    Failed(ParseError),
}

/// The operator loop stops, leaving the token at `pos` unconsumed, when that
/// token is no operator, or is an operator whose binding power here is too
/// low or that has no role here.
proof fn lemma_loop_stop(ts: Seq<TokenModel>, pos: int, min_bp: u8, lhs: SExprModel)
    requires
        match tok_at(ts, pos) {
            TokenModel::Op(c) => match spec_postfix_bp(c) {
                Some(lbp) => lbp < min_bp,
                None => match spec_infix_bp(c) {
                    Some((lbp, rbp)) => lbp < min_bp,
                    None => true,
                },
            },
            _ => true,
        },
    ensures
        spec_parse_loop(ts, pos, min_bp, lhs) == ParseStep::Parsed(lhs, pos),
{
}

/// How the operator loop takes one infix operator whose left binding power
/// reaches `min_bp`: the right-hand side is parsed at the operator's right
/// binding power, and a two-child application extends the left-hand side.
proof fn lemma_loop_infix_step(
    ts: Seq<TokenModel>,
    pos: int,
    min_bp: u8,
    lhs: SExprModel,
    c: char,
    lbp: u8,
    rbp: u8,
)
    requires
        tok_at(ts, pos) == TokenModel::Op(c),
        spec_postfix_bp(c) is None,
        spec_infix_bp(c) == Some((lbp, rbp)),
        lbp >= min_bp,
    ensures
        spec_parse_loop(ts, pos, min_bp, lhs) == (match spec_parse(ts, pos + 1, rbp) {
            ParseStep::Parsed(rhs, next) => spec_parse_loop(
                ts,
                advance(next, pos + 1, ts.len() as int),
                min_bp,
                SExprModel::Binary(c, Box::new(lhs), Box::new(rhs)),
            ),
            ParseStep::Failed(err) => ParseStep::Failed(err),
        }),
{
}

/// Parse one expression from `pos` with a minimum binding power: first a
/// primary (an atom, a parenthesized sub-expression, or a prefix operator
/// and its operand), then the operator loop.
pub open spec fn spec_parse(ts: Seq<TokenModel>, pos: int, min_bp: u8) -> ParseStep
    decreases ts.len() - pos, 1int,
{
    match tok_at(ts, pos) {
        TokenModel::Number(s) => spec_parse_loop(ts, pos + 1, min_bp, SExprModel::Number(s)),
        TokenModel::Variable(s) => spec_parse_loop(ts, pos + 1, min_bp, SExprModel::Variable(s)),
        TokenModel::Op(c) => {
            if c == '(' {
                match spec_parse(ts, pos + 1, 0) {
                    ParseStep::Parsed(inner, next) => {
                        let close = advance(next, pos + 1, ts.len() as int);
                        if tok_at(ts, close) == TokenModel::Op(')') {
                            spec_parse_loop(ts, close + 1, min_bp, inner)
                        } else {
                            ParseStep::Failed(ParseError::UnmatchedParenthesis)
                        }
                    },
                    ParseStep::Failed(err) => ParseStep::Failed(err),
                }
            } else {
                match spec_prefix_bp(c) {
                    Some(rbp) => match spec_parse(ts, pos + 1, rbp) {
                        ParseStep::Parsed(operand, next) => spec_parse_loop(
                            ts,
                            advance(next, pos + 1, ts.len() as int),
                            min_bp,
                            SExprModel::Unary(c, Box::new(operand)),
                        ),
                        ParseStep::Failed(err) => ParseStep::Failed(err),
                    },
                    None => ParseStep::Failed(ParseError::InvalidOperator(c)),
                }
            }
        },
        TokenModel::End => ParseStep::Failed(ParseError::UnexpectedEndOfInput),
    }
}

/// The operator loop: with `lhs` parsed, take postfix and infix operators
/// whose left binding power reaches `min_bp`, and stop on anything else,
/// leaving it unconsumed.
pub open spec fn spec_parse_loop(ts: Seq<TokenModel>, pos: int, min_bp: u8, lhs: SExprModel) -> ParseStep
    decreases ts.len() - pos, 0int,
{
    match tok_at(ts, pos) {
        TokenModel::Op(c) => {
            match spec_postfix_bp(c) {
                Some(lbp) => {
                    if lbp < min_bp {
                        ParseStep::Parsed(lhs, pos)
                    } else {
                        spec_parse_loop(ts, pos + 1, min_bp, SExprModel::Unary(c, Box::new(lhs)))
                    }
                },
                None => {
                    match spec_infix_bp(c) {
                        Some((lbp, rbp)) => {
                            if lbp < min_bp {
                                ParseStep::Parsed(lhs, pos)
                            } else {
                                match spec_parse(ts, pos + 1, rbp) {
                                    ParseStep::Parsed(rhs, next) => spec_parse_loop(
                                        ts,
                                        advance(next, pos + 1, ts.len() as int),
                                        min_bp,
                                        SExprModel::Binary(c, Box::new(lhs), Box::new(rhs)),
                                    ),
                                    ParseStep::Failed(err) => ParseStep::Failed(err),
                                }
                            }
                        },
                        None => ParseStep::Parsed(lhs, pos),
                    }
                },
            }
        },
        _ => ParseStep::Parsed(lhs, pos),
    }
}

/// Parsing one expression always moves the cursor forward and never past the
/// end of the tokens.
pub proof fn lemma_parse_progress(ts: Seq<TokenModel>, pos: int, min_bp: u8)
    requires
        0 <= pos <= ts.len(),
    ensures
        spec_parse(ts, pos, min_bp) matches ParseStep::Parsed(e, next) ==> pos < next <= ts.len(),
    decreases ts.len() - pos, 1int,
{
    match tok_at(ts, pos) {
        TokenModel::Number(s) => {
            lemma_loop_progress(ts, pos + 1, min_bp, SExprModel::Number(s));
        },
        TokenModel::Variable(s) => {
            lemma_loop_progress(ts, pos + 1, min_bp, SExprModel::Variable(s));
        },
        TokenModel::Op(c) => {
            if c == '(' {
                match spec_parse(ts, pos + 1, 0) {
                    ParseStep::Parsed(inner, next) => {
                        let close = advance(next, pos + 1, ts.len() as int);
                        if tok_at(ts, close) == TokenModel::Op(')') {
                            lemma_loop_progress(ts, close + 1, min_bp, inner);
                        }
                    },
                    ParseStep::Failed(_) => {},
                }
            } else {
                match spec_prefix_bp(c) {
                    Some(rbp) => {
                        match spec_parse(ts, pos + 1, rbp) {
                            ParseStep::Parsed(operand, next) => {
                                lemma_loop_progress(
                                    ts,
                                    advance(next, pos + 1, ts.len() as int),
                                    min_bp,
                                    SExprModel::Unary(c, Box::new(operand)),
                                );
                            },
                            ParseStep::Failed(_) => {},
                        }
                    },
                    None => {},
                }
            }
        },
        TokenModel::End => {},
    }
}

/// The operator loop never moves the cursor backward and never past the end
/// of the tokens.
pub proof fn lemma_loop_progress(ts: Seq<TokenModel>, pos: int, min_bp: u8, lhs: SExprModel)
    requires
        0 <= pos <= ts.len(),
    ensures
        spec_parse_loop(ts, pos, min_bp, lhs) matches ParseStep::Parsed(e, next) ==> pos <= next
            <= ts.len(),
    decreases ts.len() - pos, 0int,
{
    match tok_at(ts, pos) {
        TokenModel::Op(c) => {
            match spec_postfix_bp(c) {
                Some(lbp) => {
                    if lbp >= min_bp {
                        lemma_loop_progress(
                            ts,
                            pos + 1,
                            min_bp,
                            SExprModel::Unary(c, Box::new(lhs)),
                        );
                    }
                },
                None => {
                    match spec_infix_bp(c) {
                        Some((lbp, rbp)) => {
                            if lbp >= min_bp {
                                match spec_parse(ts, pos + 1, rbp) {
                                    ParseStep::Parsed(rhs, next) => {
                                        lemma_loop_progress(
                                            ts,
                                            advance(next, pos + 1, ts.len() as int),
                                            min_bp,
                                            SExprModel::Binary(c, Box::new(lhs), Box::new(rhs)),
                                        );
                                    },
                                    ParseStep::Failed(_) => {},
                                }
                            }
                        },
                        None => {},
                    }
                },
            }
        },
        _ => {},
    }
}

/// What the whole pipeline in front of the evaluator yields for an input
/// text: the syntax tree of the first expression, or the scanning or parsing
/// error.
pub open spec fn spec_parse_text(input: Seq<char>) -> Result<SExprModel, InterpretErrorModel> {
    match crate::lexer::spec_lex(input) {
        Err(e) => Err(InterpretErrorModel::Lex(e)),
        Ok(ts) => match spec_parse(ts, 0, 0) {
            ParseStep::Parsed(e, _) => Ok(e),
            ParseStep::Failed(err) => Err(InterpretErrorModel::Parse(err)),
        },
    }
}

/// Parses a sequence of tokens into a syntax tree.
pub struct PrattParser {
    /// The scanned tokens.
    tokens: Vec<Token>,
    /// The cursor: how many tokens have been consumed.
    position: usize,
}

impl PrattParser {
    /// The tokens, as their mathematical shapes.
    pub closed spec fn toks(&self) -> Seq<TokenModel> {
        tokens_view(self.tokens@)
    }

    /// The cursor.
    pub closed spec fn at(&self) -> int {
        self.position as int
    }

    /// Parse a string into a syntax tree, or report the scanning or parsing
    /// error.
    pub fn parse(input: &str) -> (r: Result<SExpr, InterpretError>)
        ensures
            match spec_parse_text(input@) {
                Ok(e) => r matches Ok(x) && x@ == e,
                Err(err) => r matches Err(e2) && e2@ == err,
            },
    {
        let mut parser = match Self::new(input) {
            Ok(p) => p,
            Err(e) => {
                return Err(InterpretError::Lex(e));
            },
        };
        match parser.parse_min_bp(0u8) {
            Ok(sexpr) => Ok(sexpr),
            Err(e) => Err(InterpretError::Parse(e)),
        }
    }

    /// Create a new parser by scanning the input into tokens.
    pub fn new(input: &str) -> (r: Result<Self, LexError>)
        ensures
            match crate::lexer::spec_lex(input@) {
                Ok(ts) => r matches Ok(p) && p.toks() == ts && p.at() == 0,
                Err(e) => r matches Err(e2) && e2 == e,
            },
    {
        let mut parser_lexer = Lexer::new(input);
        let tokens = match parser_lexer.lex() {
            Ok(ts) => ts,
            Err(e) => {
                return Err(e);
            },
        };
        Ok(Self { tokens, position: 0 })
    }

    /// Parse one expression with a minimum binding power, as
    /// [`spec_parse`] says.
    fn parse_min_bp(&mut self, min_bp: u8) -> (r: Result<SExpr, ParseError>)
        requires
            old(self).at() <= old(self).toks().len(),
        ensures
            final(self).toks() == old(self).toks(),
            final(self).at() <= final(self).toks().len(),
            match spec_parse(old(self).toks(), old(self).at(), min_bp) {
                ParseStep::Parsed(e, next) => r matches Ok(x) && x@ == e && final(self).at()
                    == next,
                ParseStep::Failed(err) => r matches Err(e2) && e2 == err,
            },
        decreases old(self).toks().len() - old(self).at(),
    {
        let ghost ts = self.toks();
        let ghost pos0 = self.at();
        // Parse the primary: the left-hand side that the operator loop
        // below will extend.
        let first = self.pop();
        let mut lhs: SExpr;
        match first {
            Token::Atom(AtomType::Number(n)) => {
                lhs = SExpr::Atom(SExprAtom::Number(n));
            },
            Token::Atom(AtomType::Variable(v)) => {
                lhs = SExpr::Atom(SExprAtom::Variable(v));
            },
            Token::Eof => {
                return Err(ParseError::UnexpectedEndOfInput);
            },
            Token::Op(op) => {
                if op == '(' {
                    let inner = match self.parse_min_bp(0u8) {
                        Ok(x) => x,
                        Err(e) => {
                            return Err(e);
                        },
                    };
                    proof {
                        lemma_parse_progress(ts, pos0 + 1, 0u8);
                    }
                    let close = self.pop();
                    let close_ok = match close {
                        Token::Op(c) => c == ')',
                        _ => false,
                    };
                    if !close_ok {
                        return Err(ParseError::UnmatchedParenthesis);
                    }
                    lhs = inner;
                } else {
                    match Self::prefix_binding_power(op) {
                        Some(rbp) => {
                            let operand = match self.parse_min_bp(rbp) {
                                Ok(x) => x,
                                Err(e) => {
                                    return Err(e);
                                },
                            };
                            proof {
                                lemma_parse_progress(ts, pos0 + 1, rbp);
                            }
                            lhs = SExpr::Unary(op, Box::new(operand));
                        },
                        None => {
                            return Err(ParseError::InvalidOperator(op));
                        },
                    }
                }
            },
        }
        // The operator loop: extend the left-hand side while the next
        // operator binds at least as tightly as `min_bp`.
        loop
            invariant
                ts == old(self).toks(),
                pos0 == old(self).at(),
                self.toks() == ts,
                pos0 < self.at() <= ts.len(),
                spec_parse(ts, pos0, min_bp) == spec_parse_loop(ts, self.at(), min_bp, lhs@),
            ensures
                ts == old(self).toks(),
                pos0 == old(self).at(),
                self.toks() == ts,
                pos0 < self.at() <= ts.len(),
                spec_parse(ts, pos0, min_bp) == ParseStep::Parsed(lhs@, self.at()),
            decreases ts.len() - self.at(),
        {
            let next_tok = self.peek();
            let op: char;
            match next_tok {
                Token::Op(c) => {
                    op = c;
                },
                _ => {
                    // The end of the input, or a token with no operator
                    // role here: parsing of this expression is finished.
                    proof {
                        lemma_loop_stop(ts, self.at(), min_bp, lhs@);
                    }
                    break;
                },
            }
            match Self::postfix_binding_power(op) {
                Some(pf_bp) => {
                    if pf_bp < min_bp {
                        proof {
                            lemma_loop_stop(ts, self.at(), min_bp, lhs@);
                        }
                        break;
                    }
                    self.consume();
                    lhs = SExpr::Unary(op, Box::new(lhs));
                    continue;
                },
                None => {},
            }
            match Self::infix_binding_power(op) {
                Some((l_bp, r_bp)) => {
                    if l_bp < min_bp {
                        proof {
                            lemma_loop_stop(ts, self.at(), min_bp, lhs@);
                        }
                        break;
                    }
                    let ghost here = self.at();
                    proof {
                        lemma_loop_infix_step(ts, here, min_bp, lhs@, op, l_bp, r_bp);
                    }
                    self.consume();
                    let rhs = match self.parse_min_bp(r_bp) {
                        Ok(x) => x,
                        Err(e) => {
                            return Err(e);
                        },
                    };
                    proof {
                        lemma_parse_progress(ts, here + 1, r_bp);
                    }
                    lhs = SExpr::Binary(op, Box::new(lhs), Box::new(rhs));
                    continue;
                },
                None => {},
            }
            // An operator with neither a postfix nor an infix role here:
            // leave it unconsumed.
            proof {
                lemma_loop_stop(ts, self.at(), min_bp, lhs@);
            }
            break;
        }
        Ok(lhs)
    }

    /// The infix binding powers of the operator `c`, if it has an infix
    /// role.
    fn infix_binding_power(c: char) -> (r: Option<(u8, u8)>)
        ensures
            r == spec_infix_bp(c),
    {
        if c == '=' {
            Some((2, 1))
        } else if c == '+' || c == '-' {
            Some((3, 4))
        } else if c == '^' {
            Some((6, 5))
        } else if c == '*' || c == '/' {
            Some((7, 8))
        } else {
            None
        }
    }

    /// The prefix binding power of the operator `c`, if it has a prefix
    /// role.
    fn prefix_binding_power(c: char) -> (r: Option<u8>)
        ensures
            r == spec_prefix_bp(c),
    {
        if c == '+' || c == '-' {
            Some(9)
        } else {
            None
        }
    }

    /// The postfix binding power of the operator `c`, if it has a postfix
    /// role.
    fn postfix_binding_power(c: char) -> (r: Option<u8>)
        ensures
            r == spec_postfix_bp(c),
    {
        if c == '!' {
            Some(11)
        } else {
            None
        }
    }

    /// The next token, without consuming it; the end-of-input token when
    /// everything is consumed.
    fn peek(&self) -> (t: Token)
        ensures
            t@ == tok_at(self.toks(), self.at()),
    {
        if self.position >= self.tokens.len() {
            return Token::Eof;
        }
        match &self.tokens[self.position] {
            Token::Op(c) => Token::Op(*c),
            Token::Atom(AtomType::Number(s)) => Token::Atom(AtomType::Number(s.clone())),
            Token::Atom(AtomType::Variable(s)) => Token::Atom(AtomType::Variable(s.clone())),
            Token::Eof => Token::Eof,
        }
    }

    /// The next token, consumed; the end-of-input token when everything is
    /// consumed.
    fn pop(&mut self) -> (t: Token)
        ensures
            final(self).toks() == old(self).toks(),
            t@ == tok_at(old(self).toks(), old(self).at()),
            final(self).at() == if old(self).at() < old(self).toks().len() {
                old(self).at() + 1
            } else {
                old(self).at()
            },
    {
        let t = self.peek();
        if self.position < self.tokens.len() {
            self.position = self.position + 1;
        }
        t
    }

    /// Consume the next token, returning nothing.
    fn consume(&mut self)
        ensures
            final(self).toks() == old(self).toks(),
            final(self).at() == if old(self).at() < old(self).toks().len() {
                old(self).at() + 1
            } else {
                old(self).at()
            },
    {
        if self.position < self.tokens.len() {
            self.position = self.position + 1;
        }
    }
}

/// The index of the first `.` at or after `i`, or the length when there is
/// none.
pub open spec fn dot_pos(s: Seq<char>, i: int) -> int
    decreases s.len() - i,
{
    if 0 <= i < s.len() {
        if s[i] == '.' {
            i
        } else {
            dot_pos(s, i + 1)
        }
    } else {
        s.len() as int
    }
}

proof fn lemma_dot_pos_bounds(s: Seq<char>, i: int)
    requires
        0 <= i <= s.len(),
    ensures
        i <= dot_pos(s, i) <= s.len(),
    decreases s.len() - i,
{
    if i < s.len() && s[i] != '.' {
        lemma_dot_pos_bounds(s, i + 1);
    }
}

/// The digits with the redundant leading zeros removed: `007` reads `7`, and
/// one lone zero stays.
pub open spec fn strip_leading_zeros(s: Seq<char>) -> Seq<char>
    decreases s.len(),
{
    if s.len() > 1 && s[0] == '0' {
        strip_leading_zeros(s.drop_first())
    } else {
        s
    }
}

/// The digits with the trailing zeros removed; the empty sequence may come
/// out.
pub open spec fn strip_trailing_zeros(s: Seq<char>) -> Seq<char>
    decreases s.len(),
{
    if s.len() > 0 && s[s.len() - 1] == '0' {
        strip_trailing_zeros(s.drop_last())
    } else {
        s
    }
}

/// A numeric literal in its canonical decimal form: no redundant leading
/// zeros in the integer part, no trailing zeros in the fraction, and no
/// decimal point when the fraction is empty. `007` reads `7`, `0.50` reads
/// `0.5`, and `5.` and `5.0` read `5`.
pub open spec fn spec_canonical_number(s: Seq<char>) -> Seq<char> {
    let d = dot_pos(s, 0);
    let ip = strip_leading_zeros(s.subrange(0, d));
    let fp = if d >= s.len() {
        Seq::<char>::empty()
    } else {
        strip_trailing_zeros(s.subrange(d + 1, s.len() as int))
    };
    if fp.len() == 0 {
        ip
    } else {
        ip + seq!['.'] + fp
    }
}

/// The canonical text of a syntax tree: leaves as their canonical values,
/// applications as a parenthesized operator followed by its operands.
pub open spec fn spec_tree_string(e: SExprModel) -> Seq<char>
    decreases e,
{
    match e {
        SExprModel::Number(s) => spec_canonical_number(s),
        SExprModel::Variable(s) => s,
        SExprModel::Unary(c, x) => seq!['(', c, ' '] + spec_tree_string(*x) + seq![')'],
        SExprModel::Binary(c, a, b) => seq!['(', c, ' '] + spec_tree_string(*a) + seq![' ']
            + spec_tree_string(*b) + seq![')'],
    }
}

/// Append the characters `s[from..to]` to `out`.
fn append_chars(out: &mut String, s: &String, from: usize, to: usize)
    requires
        from <= to <= s@.len(),
    ensures
        final(out)@ == old(out)@ + s@.subrange(from as int, to as int),
{
    let ghost out0 = out@;
    let mut i: usize = from;
    while i < to
        invariant
            from <= i <= to <= s@.len(),
            out@ == out0 + s@.subrange(from as int, i as int),
        decreases to - i,
    {
        crate::lexer::push_char(out, s.as_str().get_char(i));
        proof {
            assert(out0 + s@.subrange(from as int, i + 1 as int) =~= (out0 + s@.subrange(
                from as int,
                i as int,
            )).push(s@[i as int]));
        }
        i = i + 1;
    }
    proof {
        assert(out@ =~= out0 + s@.subrange(from as int, to as int));
    }
}

/// Write a numeric literal in its canonical decimal form.
fn canonical_number(s: &String) -> (out: String)
    ensures
        out@ == spec_canonical_number(s@),
{
    let n = s.as_str().unicode_len();
    // Find the decimal point.
    let mut d: usize = 0;
    loop
        invariant
            n == s@.len(),
            d <= n,
            dot_pos(s@, 0) == dot_pos(s@, d as int),
        ensures
            n == s@.len(),
            d <= n,
            dot_pos(s@, 0) == d,
        decreases n - d,
    {
        if d >= n {
            break;
        }
        if s.as_str().get_char(d) == '.' {
            break;
        }
        d = d + 1;
    }
    // Skip the redundant leading zeros of the integer part.
    let mut j: usize = 0;
    loop
        invariant
            n == s@.len(),
            j <= d <= n,
            strip_leading_zeros(s@.subrange(0, d as int)) == strip_leading_zeros(
                s@.subrange(j as int, d as int),
            ),
        ensures
            n == s@.len(),
            j <= d,
            strip_leading_zeros(s@.subrange(0, d as int)) == s@.subrange(j as int, d as int),
        decreases d - j,
    {
        if d - j <= 1 {
            proof {
                assert(s@.subrange(j as int, d as int).len() <= 1);
            }
            break;
        }
        if s.as_str().get_char(j) != '0' {
            break;
        }
        proof {
            assert(s@.subrange(j as int, d as int).drop_first() =~= s@.subrange(
                j + 1 as int,
                d as int,
            ));
        }
        j = j + 1;
    }
    // Drop the trailing zeros of the fraction.
    let mut e: usize = n;
    if d < n {
        loop
            invariant
                n == s@.len(),
                d < n,
                d + 1 <= e <= n,
                strip_trailing_zeros(s@.subrange(d + 1 as int, n as int)) == strip_trailing_zeros(
                    s@.subrange(d + 1 as int, e as int),
                ),
            ensures
                n == s@.len(),
                d + 1 <= e <= n,
                strip_trailing_zeros(s@.subrange(d + 1 as int, n as int)) == s@.subrange(
                    d + 1 as int,
                    e as int,
                ),
            decreases e,
        {
            if e <= d + 1 {
                proof {
                    assert(s@.subrange(d + 1 as int, e as int).len() == 0);
                }
                break;
            }
            if s.as_str().get_char(e - 1) != '0' {
                proof {
                    assert(s@.subrange(d + 1 as int, e as int).last() == s@[e - 1]);
                }
                break;
            }
            proof {
                assert(s@.subrange(d + 1 as int, e as int).last() == s@[e - 1]);
                assert(s@.subrange(d + 1 as int, e as int).drop_last() =~= s@.subrange(
                    d + 1 as int,
                    e - 1 as int,
                ));
            }
            e = e - 1;
        }
    }
    // Assemble the canonical text.
    let mut out = String::new();
    append_chars(&mut out, s, j, d);
    if d < n && e > d + 1 {
        crate::lexer::push_char(&mut out, '.');
        append_chars(&mut out, s, d + 1, e);
        proof {
            assert(out@ =~= s@.subrange(j as int, d as int) + seq!['.'] + s@.subrange(
                d + 1 as int,
                e as int,
            ));
        }
    } else {
        proof {
            assert(out@ =~= s@.subrange(j as int, d as int));
        }
    }
    out
}

impl SExpr {
    /// The canonical text of this syntax tree, with each application node
    /// written as `(operator operands...)`.
    pub fn to_tree_string(&self) -> (out: String)
        ensures
            out@ == spec_tree_string(self@),
        decreases self,
    {
        match self {
            SExpr::Atom(SExprAtom::Number(s)) => canonical_number(s),
            SExpr::Atom(SExprAtom::Variable(s)) => s.clone(),
            SExpr::Unary(c, x) => {
                let mut out = String::new();
                crate::lexer::push_char(&mut out, '(');
                crate::lexer::push_char(&mut out, *c);
                crate::lexer::push_char(&mut out, ' ');
                let inner = x.to_tree_string();
                out.append(inner.as_str());
                crate::lexer::push_char(&mut out, ')');
                proof {
                    assert(out@ =~= seq!['(', *c, ' '] + spec_tree_string(x@) + seq![')']);
                }
                out
            },
            SExpr::Binary(c, a, b) => {
                let mut out = String::new();
                crate::lexer::push_char(&mut out, '(');
                crate::lexer::push_char(&mut out, *c);
                crate::lexer::push_char(&mut out, ' ');
                let left = a.to_tree_string();
                out.append(left.as_str());
                crate::lexer::push_char(&mut out, ' ');
                let right = b.to_tree_string();
                out.append(right.as_str());
                crate::lexer::push_char(&mut out, ')');
                proof {
                    assert(out@ =~= seq!['(', *c, ' '] + spec_tree_string(a@) + seq![' ']
                        + spec_tree_string(b@) + seq![')']);
                }
                out
            },
        }
    }
}

} // verus!
