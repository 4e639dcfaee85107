//! The scanner: turns the input text into a sequence of tokens.
//!
//! The scanner walks the characters once, left to right. Operator characters
//! become one-character operator tokens; a run that starts with an ASCII
//! letter or an underscore becomes one identifier token; a run that starts
//! with an ASCII digit becomes one number token (digits and at most one
//! decimal point, a second one is an error); whitespace is skipped; any other
//! character is an error. One end-of-input token is appended at the end.
//!
//! The whole behaviour is written down by [`spec_lex`], and [`Lexer::lex`]
//! is proved to return exactly that.

use vstd::prelude::*;
use vstd::string::*;

use crate::errors::LexError;

verus! {

/// Relies on `char::is_alphanumeric` of std: whether a character is
/// alphanumeric under Unicode's derived properties. The result depends on the
/// character alone; it is named here and never spelled out.
pub uninterp spec fn unicode_alphanumeric(c: char) -> bool;

/// Relies on `char::is_whitespace` of std: whether a character has Unicode's
/// `White_Space` property. The result depends on the character alone; it is
/// named here and never spelled out.
pub uninterp spec fn unicode_whitespace(c: char) -> bool;

/// Relies on `char::is_alphanumeric` of std: the result depends on the
/// character alone.
pub assume_specification[ char::is_alphanumeric ](c: char) -> (r: bool)
    ensures
        r == unicode_alphanumeric(c),
;

/// Relies on `char::is_whitespace` of std: the result depends on the
/// character alone.
pub assume_specification[ char::is_whitespace ](c: char) -> (r: bool)
    ensures
        r == unicode_whitespace(c),
;

/// Relies on `String::push` of std: appends one character at the end.
#[verifier::external_body]
pub(crate) fn push_char(s: &mut String, c: char)
    ensures
        final(s)@ == old(s)@.push(c),
{
    s.push(c);
}

/// The possible types of an atom token.
#[derive(Clone, Debug, PartialEq)]
pub enum AtomType {
    /// A numeric literal, kept as the exact text that was scanned.
    Number(String),
    /// A variable identifier.
    Variable(String),
}

/// A single scanned token.
#[derive(Clone, Debug, PartialEq)]
pub enum Token {
    /// A one-character operator.
    Op(char),
    /// A numeric literal or a variable identifier.
    Atom(AtomType),
    /// The end of the input; every token sequence ends with exactly one.
    Eof,
}

/// The mathematical shape of a token, with texts as character sequences.
pub enum TokenModel {
    Op(char),
    Number(Seq<char>),
    Variable(Seq<char>),
    End,
}

impl View for Token {
    type V = TokenModel;

    open spec fn view(&self) -> TokenModel {
        match self {
            Token::Op(c) => TokenModel::Op(*c),
            Token::Atom(AtomType::Number(s)) => TokenModel::Number(s@),
            Token::Atom(AtomType::Variable(s)) => TokenModel::Variable(s@),
            Token::Eof => TokenModel::End,
        }
    }
}

impl AtomType {
    /// Create a new number atom from the scanned text.
    pub fn new_num(num: String) -> (t: Self)
        ensures
            t is Number && t->Number_0@ == num@,
    {
        AtomType::Number(num)
    }

    /// Create a new variable atom.
    pub fn new_variable(var_name: String) -> (t: Self)
        ensures
            t is Variable && t->Variable_0@ == var_name@,
    {
        AtomType::Variable(var_name)
    }
}

impl Token {
    /// Create a new token representing an operator.
    pub fn new_op(operator: char) -> (t: Self)
        ensures
            t@ == TokenModel::Op(operator),
    {
        Token::Op(operator)
    }

    /// Create a new token representing a number.
    pub fn new_number(num: String) -> (t: Self)
        ensures
            t@ == TokenModel::Number(num@),
    {
        Token::Atom(AtomType::new_num(num))
    }

    /// Create a new token representing a variable.
    pub fn new_variable(var_name: String) -> (t: Self)
        ensures
            t@ == TokenModel::Variable(var_name@),
    {
        Token::Atom(AtomType::new_variable(var_name))
    }
}

/// The view of a token sequence.
pub open spec fn tokens_view(ts: Seq<Token>) -> Seq<TokenModel> {
    ts.map_values(|t: Token| t@)
}

/// The characters that form one-character operator tokens.
pub open spec fn spec_op_char(c: char) -> bool {
    c == '(' || c == ')' || c == '*' || c == '/' || c == '+' || c == '-' || c == '^' || c == '!'
        || c == '='
}

/// The characters that may start an identifier.
pub open spec fn spec_name_start(c: char) -> bool {
    ('a' <= c && c <= 'z') || ('A' <= c && c <= 'Z') || c == '_'
}

/// The characters that may continue an identifier.
pub open spec fn spec_name_continue(c: char) -> bool {
    unicode_alphanumeric(c) || c == '_'
}

/// The ASCII digits.
pub open spec fn spec_digit(c: char) -> bool {
    '0' <= c && c <= '9'
}

/// Where the identifier that is running at `pos` ends: the first index at or
/// after `pos` whose character no longer continues an identifier.
pub open spec fn identifier_end(input: Seq<char>, pos: int) -> int
    decreases input.len() - pos,
{
    if pos < input.len() && spec_name_continue(input[pos]) {
        identifier_end(input, pos + 1)
    } else {
        pos
    }
}

/// Where the numeric literal that is running at `pos` ends, given whether a
/// decimal point was already seen: the first index whose character is neither
/// a digit nor a decimal point — or `None` for a second decimal point.
pub open spec fn number_end(input: Seq<char>, pos: int, seen_decimal: bool) -> Option<int>
    decreases input.len() - pos,
{
    if pos < input.len() {
        if spec_digit(input[pos]) {
            number_end(input, pos + 1, seen_decimal)
        } else if input[pos] == '.' {
            if seen_decimal {
                None
            } else {
                number_end(input, pos + 1, true)
            }
        } else {
            Some(pos)
        }
    } else {
        Some(pos)
    }
}

proof fn lemma_identifier_end_bounds(input: Seq<char>, pos: int)
    requires
        0 <= pos <= input.len(),
    ensures
        pos <= identifier_end(input, pos) <= input.len(),
    decreases input.len() - pos,
{
    if pos < input.len() && spec_name_continue(input[pos]) {
        lemma_identifier_end_bounds(input, pos + 1);
    }
}

proof fn lemma_number_end_bounds(input: Seq<char>, pos: int, seen_decimal: bool)
    requires
        0 <= pos <= input.len(),
    ensures
        number_end(input, pos, seen_decimal) matches Some(e) ==> pos <= e <= input.len(),
    decreases input.len() - pos,
{
    if pos < input.len() {
        if spec_digit(input[pos]) {
            lemma_number_end_bounds(input, pos + 1, seen_decimal);
        } else if input[pos] == '.' && !seen_decimal {
            lemma_number_end_bounds(input, pos + 1, true);
        }
    }
}

/// The tokens scanned from `input` starting at `pos`, or the first scanning
/// error. The returned sequence always ends with the end-of-input token.
pub open spec fn spec_lex_from(input: Seq<char>, pos: int) -> Result<Seq<TokenModel>, LexError>
    decreases input.len() - pos,
{
    if pos < 0 || pos >= input.len() {
        Ok(seq![TokenModel::End])
    } else {
        let c = input[pos];
        if spec_op_char(c) {
            match spec_lex_from(input, pos + 1) {
                Ok(rest) => Ok(seq![TokenModel::Op(c)] + rest),
                Err(e) => Err(e),
            }
        } else if spec_name_start(c) {
            let end = identifier_end(input, pos + 1);
            let next = if end < pos + 1 {
                pos + 1
            } else if end > input.len() {
                input.len() as int
            } else {
                end
            };
            match spec_lex_from(input, next) {
                Ok(rest) => Ok(seq![TokenModel::Variable(input.subrange(pos, next))] + rest),
                Err(e) => Err(e),
            }
        } else if spec_digit(c) {
            match number_end(input, pos + 1, false) {
                None => Err(LexError::MultipleDecimalPoints),
                Some(end) => {
                    let next = if end < pos + 1 {
                        pos + 1
                    } else if end > input.len() {
                        input.len() as int
                    } else {
                        end
                    };
                    match spec_lex_from(input, next) {
                        Ok(rest) => Ok(seq![TokenModel::Number(input.subrange(pos, next))] + rest),
                        Err(e) => Err(e),
                    }
                },
            }
        } else if unicode_whitespace(c) {
            spec_lex_from(input, pos + 1)
        } else {
            Err(LexError::UnexpectedCharacter(c))
        }
    }
}

/// The tokens scanned from a whole input, or the first scanning error.
pub open spec fn spec_lex(input: Seq<char>) -> Result<Seq<TokenModel>, LexError> {
    spec_lex_from(input, 0)
}

/// Copy the characters `v[from..to]` into a fresh `String`.
fn chars_to_string(v: &Vec<char>, from: usize, to: usize) -> (s: String)
    requires
        from <= to <= v@.len(),
    ensures
        s@ == v@.subrange(from as int, to as int),
{
    let mut s = String::new();
    let mut i: usize = from;
    while i < to
        invariant
            from <= i <= to <= v@.len(),
            s@ == v@.subrange(from as int, i as int),
        decreases to - i,
    {
        push_char(&mut s, v[i]);
        proof {
            assert(v@.subrange(from as int, i + 1 as int) == v@.subrange(
                from as int,
                i as int,
            ).push(v@[i as int]));
        }
        i = i + 1;
    }
    s
}

/// Scans a string into a sequence of tokens.
pub struct Lexer {
    /// The generated sequence of tokens.
    tokens: Vec<Token>,
    /// The input being scanned.
    input: Vec<char>,
    /// The current position in the input.
    current_position: usize,
    /// The start position of the token being scanned.
    start_position: usize,
}

impl Lexer {
    /// A lexer that has scanned nothing yet.
    pub closed spec fn fresh(&self) -> bool {
        self.tokens@.len() == 0 && self.current_position == 0
    }

    /// The input characters.
    pub closed spec fn input_chars(&self) -> Seq<char> {
        self.input@
    }

    /// Create a new lexer over the given input.
    pub fn new(input: &str) -> (lexer: Self)
        ensures
            lexer.fresh(),
            lexer.input_chars() == input@,
    {
        let n = input.unicode_len();
        let mut input_vec: Vec<char> = Vec::new();
        let mut i: usize = 0;
        while i < n
            invariant
                n == input@.len(),
                i <= n,
                input_vec@ == input@.subrange(0, i as int),
            decreases n - i,
        {
            input_vec.push(input.get_char(i));
            proof {
                assert(input@.subrange(0, i + 1 as int) == input@.subrange(0, i as int).push(
                    input@[i as int],
                ));
            }
            i = i + 1;
        }
        proof {
            assert(input_vec@ == input@.subrange(0, input@.len() as int));
            assert(input@.subrange(0, input@.len() as int) == input@);
        }
        Self { tokens: Vec::new(), input: input_vec, current_position: 0, start_position: 0 }
    }

    /// Scan the whole input into a series of tokens, or report the first
    /// scanning error.
    pub fn lex(&mut self) -> (r: Result<Vec<Token>, LexError>)
        requires
            old(self).fresh(),
        ensures
            match spec_lex(old(self).input_chars()) {
                Ok(ts) => r matches Ok(v) && tokens_view(v@) == ts,
                Err(e) => r matches Err(e2) && e2 == e,
            },
    {
        let ghost input0 = self.input@;
        loop
            invariant
                old(self).input_chars() == input0,
                self.input@ == input0,
                self.current_position <= self.input@.len(),
                spec_lex(input0) == (match spec_lex_from(input0, self.current_position as int) {
                    Ok(rest) => Ok(tokens_view(self.tokens@) + rest),
                    Err(e) => Err::<Seq<TokenModel>, LexError>(e),
                }),
            ensures
                self.input@ == input0,
                self.current_position == self.input@.len(),
                spec_lex(input0) == (match spec_lex_from(input0, self.current_position as int) {
                    Ok(rest) => Ok(tokens_view(self.tokens@) + rest),
                    Err(e) => Err::<Seq<TokenModel>, LexError>(e),
                }),
            decreases self.input@.len() - self.current_position,
        {
            if self.at_end() {
                break;
            }
            self.start_position = self.current_position;
            let ghost pos0 = self.current_position as int;
            let ghost prev = self.tokens@;
            let cur_char = self.pop();
            if is_op_char(cur_char) {
                self.tokens.push(Token::new_op(cur_char));
                proof {
                    lemma_tokens_view_push(prev, self.tokens@.last());
                    lemma_step(tokens_view(prev), TokenModel::Op(cur_char), input0, pos0 + 1);
                }
            } else if is_name_start(cur_char) {
                self.consume_variable();
                proof {
                    lemma_identifier_end_bounds(input0, pos0 + 1);
                }
                let new_var_name = chars_to_string(
                    &self.input,
                    self.start_position,
                    self.current_position,
                );
                let ghost text = new_var_name@;
                self.tokens.push(Token::new_variable(new_var_name));
                proof {
                    lemma_tokens_view_push(prev, self.tokens@.last());
                    lemma_step(
                        tokens_view(prev),
                        TokenModel::Variable(text),
                        input0,
                        self.current_position as int,
                    );
                }
            } else if is_digit(cur_char) {
                let ok = self.consume_number();
                if !ok {
                    return Err(LexError::MultipleDecimalPoints);
                }
                proof {
                    lemma_number_end_bounds(input0, pos0 + 1, false);
                }
                let new_num = chars_to_string(
                    &self.input,
                    self.start_position,
                    self.current_position,
                );
                let ghost text = new_num@;
                self.tokens.push(Token::new_number(new_num));
                proof {
                    lemma_tokens_view_push(prev, self.tokens@.last());
                    lemma_step(
                        tokens_view(prev),
                        TokenModel::Number(text),
                        input0,
                        self.current_position as int,
                    );
                }
            } else if cur_char.is_whitespace() {
                // Whitespace never produces a token.
            } else {
                return Err(LexError::UnexpectedCharacter(cur_char));
            }
        }
        let ghost prev = self.tokens@;
        self.tokens.push(Token::Eof);
        proof {
            lemma_tokens_view_push(prev, Token::Eof);
            assert(tokens_view(prev).push(TokenModel::End) =~= tokens_view(prev) + seq![
                TokenModel::End,
            ]);
        }
        let mut tokens: Vec<Token> = Vec::new();
        core::mem::swap(&mut tokens, &mut self.tokens);
        Ok(tokens)
    }

    /// Step past the characters that continue the identifier that started
    /// just before the current position.
    fn consume_variable(&mut self)
        requires
            old(self).current_position <= old(self).input@.len(),
        ensures
            final(self).input@ == old(self).input@,
            final(self).tokens@ == old(self).tokens@,
            final(self).start_position == old(self).start_position,
            final(self).current_position as int == identifier_end(
                old(self).input@,
                old(self).current_position as int,
            ),
    {
        loop
            invariant
                self.input@ == old(self).input@,
                self.tokens@ == old(self).tokens@,
                self.start_position == old(self).start_position,
                self.current_position <= self.input@.len(),
                identifier_end(self.input@, self.current_position as int) == identifier_end(
                    self.input@,
                    old(self).current_position as int,
                ),
            ensures
                self.input@ == old(self).input@,
                self.tokens@ == old(self).tokens@,
                self.start_position == old(self).start_position,
                self.current_position as int == identifier_end(
                    self.input@,
                    old(self).current_position as int,
                ),
            decreases self.input@.len() - self.current_position,
        {
            if self.at_end() {
                break;
            }
            if !self.is_valid_var() {
                break;
            }
            self.consume();
        }
    }

    /// Step past the characters that continue the numeric literal that
    /// started just before the current position. Returns `false` when the
    /// literal holds a second decimal point.
    fn consume_number(&mut self) -> (ok: bool)
        requires
            old(self).current_position <= old(self).input@.len(),
        ensures
            final(self).input@ == old(self).input@,
            final(self).tokens@ == old(self).tokens@,
            final(self).start_position == old(self).start_position,
            match number_end(old(self).input@, old(self).current_position as int, false) {
                Some(e) => ok && final(self).current_position as int == e,
                None => !ok,
            },
    {
        let mut encountered_decimal = false;
        loop
            invariant
                self.input@ == old(self).input@,
                self.tokens@ == old(self).tokens@,
                self.start_position == old(self).start_position,
                self.current_position <= self.input@.len(),
                number_end(self.input@, self.current_position as int, encountered_decimal)
                    == number_end(self.input@, old(self).current_position as int, false),
            ensures
                self.input@ == old(self).input@,
                self.tokens@ == old(self).tokens@,
                self.start_position == old(self).start_position,
                match number_end(self.input@, old(self).current_position as int, false) {
                    Some(e) => self.current_position as int == e,
                    None => false,
                },
            decreases self.input@.len() - self.current_position,
        {
            if self.at_end() {
                break;
            }
            let cur_char = self.peek();
            if is_digit(cur_char) {
                self.consume();
            } else if cur_char == '.' {
                if encountered_decimal {
                    return false;
                }
                encountered_decimal = true;
                self.consume();
            } else {
                break;
            }
        }
        true
    }

    /// Return the next character without consuming it.
    fn peek(&self) -> (c: char)
        requires
            self.current_position < self.input@.len(),
        ensures
            c == self.input@[self.current_position as int],
    {
        self.input[self.current_position]
    }

    /// Consume the next character and return it.
    fn pop(&mut self) -> (c: char)
        requires
            old(self).current_position < old(self).input@.len(),
        ensures
            final(self).input@ == old(self).input@,
            final(self).tokens@ == old(self).tokens@,
            final(self).start_position == old(self).start_position,
            final(self).current_position == old(self).current_position + 1,
            c == old(self).input@[old(self).current_position as int],
    {
        proof {
            vstd::std_specs::vec::axiom_spec_len(&self.input);
        }
        let next_char = self.peek();
        self.current_position = self.current_position + 1;
        next_char
    }

    /// Consume the next character, returning nothing.
    fn consume(&mut self)
        requires
            old(self).current_position < old(self).input@.len(),
        ensures
            final(self).input@ == old(self).input@,
            final(self).tokens@ == old(self).tokens@,
            final(self).start_position == old(self).start_position,
            final(self).current_position == old(self).current_position + 1,
    {
        proof {
            vstd::std_specs::vec::axiom_spec_len(&self.input);
        }
        self.current_position = self.current_position + 1;
    }

    /// Determine whether the entire input has been scanned.
    fn at_end(&self) -> (r: bool)
        ensures
            r == (self.current_position >= self.input@.len()),
    {
        self.current_position >= self.input.len()
    }

    /// Check whether the current character may continue an identifier.
    fn is_valid_var(&self) -> (r: bool)
        requires
            self.current_position < self.input@.len(),
        ensures
            r == spec_name_continue(self.input@[self.current_position as int]),
    {
        let cur_char = self.peek();
        cur_char.is_alphanumeric() || cur_char == '_'
    }
}

proof fn lemma_tokens_view_push(ts: Seq<Token>, t: Token)
    ensures
        tokens_view(ts.push(t)) == tokens_view(ts).push(t@),
{
    assert(tokens_view(ts.push(t)) =~= tokens_view(ts).push(t@));
}

proof fn lemma_step(a: Seq<TokenModel>, m: TokenModel, input: Seq<char>, next: int)
    ensures
        spec_lex_from(input, next) matches Ok(rest) ==> a.push(m) + rest == a + (seq![m] + rest),
{
    match spec_lex_from(input, next) {
        Ok(rest) => {
            assert(a.push(m) + rest =~= a + (seq![m] + rest));
        },
        Err(_) => {},
    }
}

/// Whether `c` is one of the operator characters.
fn is_op_char(c: char) -> (r: bool)
    ensures
        r == spec_op_char(c),
{
    c == '(' || c == ')' || c == '*' || c == '/' || c == '+' || c == '-' || c == '^' || c == '!'
        || c == '='
}

/// Whether `c` may start an identifier.
fn is_name_start(c: char) -> (r: bool)
    ensures
        r == spec_name_start(c),
{
    ('a' <= c && c <= 'z') || ('A' <= c && c <= 'Z') || c == '_'
}

/// Whether `c` is an ASCII digit.
fn is_digit(c: char) -> (r: bool)
    ensures
        r == spec_digit(c),
{
    '0' <= c && c <= '9'
}

} // verus!
