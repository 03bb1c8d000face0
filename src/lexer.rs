use vstd::prelude::*;
use crate::common::{Builtin, CompileError, ErrorKind, Keyword, Position, Token};
use crate::text::{push_char, spells, string_of};

verus! {

broadcast use vstd::seq::group_seq_axioms;

/// What `char::is_alphabetic` answers for a character.
pub uninterp spec fn alphabetic(c: char) -> bool;

/// What `char::is_alphanumeric` answers for a character.
pub uninterp spec fn alphanumeric(c: char) -> bool;

/// Relies on `char::is_alphabetic` (the Unicode Alphabetic property), a
/// function of the character alone.
#[verifier::external_body]
fn is_alphabetic(c: char) -> (r: bool)
    ensures
        r == alphabetic(c),
{
    c.is_alphabetic()
}

/// Relies on `char::is_alphanumeric`, a function of the character alone,
/// which holds of every character that `char::is_alphabetic` holds of.
#[verifier::external_body]
fn is_alphanumeric(c: char) -> (r: bool)
    ensures
        r == alphanumeric(c),
        alphabetic(c) ==> r,
{
    c.is_alphanumeric()
}

pub open spec fn is_space(c: char) -> bool {
    c == ' ' || c == '\t' || c == '\r' || c == '\n'
}

pub open spec fn is_digit(c: char) -> bool {
    '0' <= c && c <= '9'
}

pub open spec fn word_start(c: char) -> bool {
    alphabetic(c) || c == '_'
}

pub open spec fn word_char(c: char) -> bool {
    alphanumeric(c) || c == '_'
}

/// Line and column of the character at index `i`: both start at 1, a newline
/// moves to the next line and back to column 1.
pub open spec fn line_col(s: Seq<char>, i: int) -> (int, int)
    decreases i,
{
    if i <= 0 {
        (1, 1)
    } else {
        let (l, c) = line_col(s, i - 1);
        if s[i - 1] == '\n' {
            (l + 1, 1)
        } else {
            (l, c + 1)
        }
    }
}

pub open spec fn pos_at(s: Seq<char>, i: int) -> Position {
    Position { line: line_col(s, i).0 as usize, column: line_col(s, i).1 as usize }
}

/// The first index at or after `i` that holds no blank.
pub open spec fn skip_space(s: Seq<char>, i: int) -> int
    decreases s.len() - i,
{
    if 0 <= i < s.len() && is_space(s[i]) {
        skip_space(s, i + 1)
    } else {
        i
    }
}

/// The end of the longest run of word characters that starts at `i`.
pub open spec fn word_end(s: Seq<char>, i: int) -> int
    decreases s.len() - i,
{
    if 0 <= i < s.len() && word_char(s[i]) {
        word_end(s, i + 1)
    } else {
        i
    }
}

/// The end of the longest run of decimal digits that starts at `i`.
pub open spec fn digits_end(s: Seq<char>, i: int) -> int
    decreases s.len() - i,
{
    if 0 <= i < s.len() && is_digit(s[i]) {
        digits_end(s, i + 1)
    } else {
        i
    }
}

/// The index of the first `"` at or after `i`, or the length if there is none.
pub open spec fn quote_end(s: Seq<char>, i: int) -> int
    decreases s.len() - i,
{
    if 0 <= i < s.len() && s[i] != '"' {
        quote_end(s, i + 1)
    } else {
        i
    }
}

pub open spec fn digit_value(c: char) -> int {
    (c as u32) - ('0' as u32)
}

/// The number that a string of decimal digits denotes.
pub open spec fn digits_value(d: Seq<char>) -> int
    decreases d.len(),
{
    if d.len() == 0 {
        0
    } else {
        digits_value(d.drop_last()) * 10 + digit_value(d.last())
    }
}

/// What a token stands for, with text payloads as character sequences.
pub enum Lexeme {
    /// A token without text.
    Tok(Token),
    /// A string literal with its contents.
    Text(Seq<char>),
    /// An identifier with its name.
    Word(Seq<char>),
}

/// Whether the token `t` is the one that `l` describes.
pub open spec fn denotes(t: Token, l: Lexeme) -> bool {
    match l {
        Lexeme::Tok(x) => t == x,
        Lexeme::Text(s) => t is StringLiteral && t->StringLiteral_0@ == s,
        Lexeme::Word(w) => t is Identifier && t->Identifier_0@ == w,
    }
}

/// The keyword or builtin that a word spells, or the identifier it names.
pub open spec fn word_lexeme(w: Seq<char>) -> Lexeme {
    if w == "fn"@ {
        Lexeme::Tok(Token::Keyword(Keyword::Fn))
    } else if w == "extern"@ {
        Lexeme::Tok(Token::Keyword(Keyword::Extern))
    } else if w == "var"@ {
        Lexeme::Tok(Token::Keyword(Keyword::Var))
    } else if w == "int"@ {
        Lexeme::Tok(Token::Keyword(Keyword::Int))
    } else if w == "bool"@ {
        Lexeme::Tok(Token::Keyword(Keyword::Bool))
    } else if w == "true"@ {
        Lexeme::Tok(Token::Keyword(Keyword::True))
    } else if w == "false"@ {
        Lexeme::Tok(Token::Keyword(Keyword::False))
    } else if w == "return"@ {
        Lexeme::Tok(Token::Keyword(Keyword::Return))
    } else if w == "print"@ {
        Lexeme::Tok(Token::Builtin(Builtin::Print))
    } else if w == "input"@ {
        Lexeme::Tok(Token::Builtin(Builtin::Input))
    } else if w == "if"@ {
        Lexeme::Tok(Token::Keyword(Keyword::If))
    } else if w == "else"@ {
        Lexeme::Tok(Token::Keyword(Keyword::Else))
    } else if w == "while"@ {
        Lexeme::Tok(Token::Keyword(Keyword::While))
    } else {
        Lexeme::Word(w)
    }
}

/// The token whose text starts at index `j` (which holds no blank), with the
/// index just past it; `None` where no token starts there.
pub open spec fn scan(s: Seq<char>, j: int) -> Option<(Lexeme, int)> {
    let c = s[j];
    let eq_next = j + 1 < s.len() && s[j + 1] == '=';
    if c == '(' {
        Some((Lexeme::Tok(Token::LeftParen), j + 1))
    } else if c == ')' {
        Some((Lexeme::Tok(Token::RightParen), j + 1))
    } else if c == ':' {
        Some((Lexeme::Tok(Token::Colon), j + 1))
    } else if c == ',' {
        Some((Lexeme::Tok(Token::Comma), j + 1))
    } else if c == '=' {
        if eq_next {
            Some((Lexeme::Tok(Token::Equality), j + 2))
        } else {
            Some((Lexeme::Tok(Token::Equals), j + 1))
        }
    } else if c == '>' {
        if eq_next {
            Some((Lexeme::Tok(Token::GreaterThanOrEqual), j + 2))
        } else {
            Some((Lexeme::Tok(Token::GreaterThan), j + 1))
        }
    } else if c == '<' {
        if eq_next {
            Some((Lexeme::Tok(Token::LessThanOrEqual), j + 2))
        } else {
            Some((Lexeme::Tok(Token::LessThan), j + 1))
        }
    } else if c == '!' {
        if eq_next {
            Some((Lexeme::Tok(Token::NotEqual), j + 2))
        } else {
            None
        }
    } else if c == '+' {
        Some((Lexeme::Tok(Token::Plus), j + 1))
    } else if c == '-' {
        Some((Lexeme::Tok(Token::Minus), j + 1))
    } else if c == '*' {
        Some((Lexeme::Tok(Token::Asterisk), j + 1))
    } else if c == '/' {
        Some((Lexeme::Tok(Token::Slash), j + 1))
    } else if c == '"' {
        let q = quote_end(s, j + 1);
        if q < s.len() {
            Some((Lexeme::Text(s.subrange(j + 1, q)), q + 1))
        } else {
            None
        }
    } else if c == '{' {
        Some((Lexeme::Tok(Token::LeftBrace), j + 1))
    } else if c == '}' {
        Some((Lexeme::Tok(Token::RightBrace), j + 1))
    } else if c == ';' {
        Some((Lexeme::Tok(Token::Semicolon), j + 1))
    } else if is_digit(c) {
        let e = digits_end(s, j);
        let v = digits_value(s.subrange(j, e));
        if v <= i64::MAX {
            Some((Lexeme::Tok(Token::NumberLiteral(v as i64)), e))
        } else {
            None
        }
    } else if word_start(c) {
        let e = word_end(s, j);
        Some((word_lexeme(s.subrange(j, e)), e))
    } else {
        None
    }
}

pub proof fn lemma_line_col_bounds(s: Seq<char>, i: int)
    requires
        0 <= i,
    ensures
        1 <= line_col(s, i).0 <= i + 1,
        1 <= line_col(s, i).1 <= i + 1,
    decreases i,
{
    if i > 0 {
        lemma_line_col_bounds(s, i - 1);
    }
}

proof fn lemma_run_bounds(s: Seq<char>, i: int)
    requires
        0 <= i <= s.len(),
    ensures
        i <= skip_space(s, i) <= s.len(),
        i <= word_end(s, i) <= s.len(),
        i <= digits_end(s, i) <= s.len(),
        i <= quote_end(s, i) <= s.len(),
    decreases s.len() - i,
{
    if i < s.len() {
        lemma_run_bounds(s, i + 1);
    }
}

proof fn lemma_digits_value_nonneg(d: Seq<char>)
    requires
        forall|k: int| 0 <= k < d.len() ==> is_digit(#[trigger] d[k]),
    ensures
        digits_value(d) >= 0,
    decreases d.len(),
{
    if d.len() > 0 {
        lemma_digits_value_nonneg(d.drop_last());
    }
}

/// Grows `d` by one digit and returns the old value, so that the new value
/// is ten times it plus the digit.
proof fn lemma_digits_value_step(s: Seq<char>, a: int, b: int)
    requires
        0 <= a <= b < s.len(),
        forall|k: int| a <= k <= b ==> is_digit(#[trigger] s[k]),
    ensures
        digits_value(s.subrange(a, b + 1)) == digits_value(s.subrange(a, b)) * 10 + digit_value(s[b]),
        digits_value(s.subrange(a, b)) >= 0,
{
    assert(s.subrange(a, b + 1).drop_last() =~= s.subrange(a, b));
    lemma_digits_value_nonneg(s.subrange(a, b));
}

/// Turns source text into tokens, one at a time.
pub struct Lexer {
    chars: Vec<char>,
    position: usize,
    current_pos: Position,
}

impl Lexer {
    /// The characters being lexed.
    pub closed spec fn text(&self) -> Seq<char> {
        self.chars@
    }

    /// The index of the next character to read.
    pub closed spec fn index(&self) -> int {
        self.position as int
    }

    pub closed spec fn wf(&self) -> bool {
        &&& self.position <= self.chars@.len()
        &&& self.chars@.len() < usize::MAX
        &&& self.current_pos == pos_at(self.chars@, self.position as int)
    }

    pub fn new(input: &str) -> (r: Self)
        requires
            input@.len() < usize::MAX,
        ensures
            r.wf(),
            r.text() == input@,
            r.index() == 0,
    {
        let n = input.unicode_len();
        let mut chars: Vec<char> = Vec::new();
        let mut k: usize = 0;
        while k < n
            invariant
                n == input@.len(),
                k <= n,
                chars@ == input@.subrange(0, k as int),
            decreases n - k,
        {
            chars.push(input.get_char(k));
            k = k + 1;
            assert(chars@ =~= input@.subrange(0, k as int));
        }
        assert(chars@ =~= input@);
        Lexer { chars, position: 0, current_pos: Position::new(1, 1) }
    }

    /// The next token and where it starts. Blanks are skipped; at the end of
    /// the input the result is `EOF` at the position just past the last
    /// character, on every later call too.
    pub fn next_token(&mut self) -> (r: Result<(Token, Position), CompileError>)
        requires
            old(self).wf(),
        ensures
            final(self).wf(),
            final(self).text() == old(self).text(),
            ({
                let s = old(self).text();
                let j = skip_space(s, old(self).index());
                if j >= s.len() {
                    &&& r matches Ok((t, p))
                    &&& t == Token::EOF
                    &&& p == pos_at(s, s.len() as int)
                    &&& final(self).index() == s.len()
                } else {
                    match scan(s, j) {
                        Some((l, k)) => {
                            &&& r matches Ok((t, p))
                            &&& denotes(t, l)
                            &&& p == pos_at(s, j)
                            &&& final(self).index() == k
                            &&& j < k <= s.len()
                        },
                        None => {
                            &&& r matches Err(e)
                            &&& e.kind == ErrorKind::Lex
                            &&& e.position == pos_at(s, j)
                        },
                    }
                }
            }),
    {
        let ghost s = self.chars@;
        while self.position < self.chars.len() && is_blank(self.chars[self.position])
            invariant
                self.wf(),
                self.chars@ == s,
                skip_space(s, self.index()) == skip_space(s, old(self).index()),
                old(self).index() <= self.index(),
            decreases self.chars@.len() - self.position,
        {
            self.advance();
        }
        let start_pos = self.current_pos;
        if self.position >= self.chars.len() {
            return Ok((Token::EOF, start_pos));
        }
        proof {
            lemma_run_bounds(s, self.position as int);
            lemma_run_bounds(s, self.position as int + 1);
        }
        let current = self.current_char();
        let token = match current {
            '(' => self.consume_simple(Token::LeftParen),
            ')' => self.consume_simple(Token::RightParen),
            ':' => self.consume_simple(Token::Colon),
            ',' => self.consume_simple(Token::Comma),
            '=' => self.consume_pair(Token::Equals, Token::Equality),
            '>' => self.consume_pair(Token::GreaterThan, Token::GreaterThanOrEqual),
            '<' => self.consume_pair(Token::LessThan, Token::LessThanOrEqual),
            '!' => {
                if self.peek() == '=' {
                    self.advance();
                    self.advance();
                    Token::NotEqual
                } else {
                    return Err(
                        CompileError::new(
                            ErrorKind::Lex,
                            "Unary operators are not supported",
                            start_pos,
                        ),
                    );
                }
            },
            '+' => self.consume_simple(Token::Plus),
            '-' => self.consume_simple(Token::Minus),
            '*' => self.consume_simple(Token::Asterisk),
            '/' => self.consume_simple(Token::Slash),
            '"' => {
                match self.consume_string() {
                    Some(t) => t,
                    None => {
                        return Err(
                            CompileError::new(
                                ErrorKind::Lex,
                                "Unterminated string literal",
                                start_pos,
                            ),
                        );
                    },
                }
            },
            '{' => self.consume_simple(Token::LeftBrace),
            '}' => self.consume_simple(Token::RightBrace),
            ';' => self.consume_simple(Token::Semicolon),
            _ => {
                if '0' <= current && current <= '9' {
                    match self.consume_number() {
                        Some(t) => t,
                        None => {
                            return Err(
                                CompileError::new(
                                    ErrorKind::Lex,
                                    "Integer literal does not fit in 64 bits",
                                    start_pos,
                                ),
                            );
                        },
                    }
                } else if is_alphabetic(current) || current == '_' {
                    self.consume_word()
                } else {
                    return Err(
                        CompileError::new(ErrorKind::Lex, "Unexpected character", start_pos),
                    );
                }
            },
        };
        Ok((token, start_pos))
    }

    /// Reads a run of digits as a 64-bit integer; `None` where it does not fit.
    fn consume_number(&mut self) -> (r: Option<Token>)
        requires
            old(self).wf(),
            old(self).index() < old(self).text().len(),
            is_digit(old(self).text()[old(self).index()]),
        ensures
            final(self).wf(),
            final(self).text() == old(self).text(),
            ({
                let s = old(self).text();
                let j = old(self).index();
                let e = digits_end(s, j);
                let v = digits_value(s.subrange(j, e));
                &&& final(self).index() == e
                &&& v <= i64::MAX ==> r == Some(Token::NumberLiteral(v as i64))
                &&& v > i64::MAX ==> r is None
            }),
    {
        let ghost s = self.chars@;
        let start = self.position;
        let mut value: i64 = 0;
        let mut overflow = false;
        while self.position < self.chars.len() && is_decimal_digit(self.chars[self.position])
            invariant
                self.wf(),
                self.chars@ == s,
                start <= self.position <= s.len(),
                digits_end(s, start as int) == digits_end(s, self.index()),
                forall|k: int| start <= k < self.position ==> is_digit(#[trigger] s[k]),
                !overflow ==> value == digits_value(s.subrange(start as int, self.index())),
                overflow ==> digits_value(s.subrange(start as int, self.index())) > i64::MAX,
            decreases s.len() - self.position,
        {
            let c = self.chars[self.position];
            let d = (c as u32 - '0' as u32) as i64;
            proof {
                lemma_digits_value_step(s, start as int, self.position as int);
            }
            if !overflow {
                if value > (i64::MAX - d) / 10 {
                    overflow = true;
                    assert(value * 10 + d > i64::MAX) by (nonlinear_arith)
                        requires
                            value > (i64::MAX - d) / 10,
                            0 <= d <= 9,
                    ;
                } else {
                    assert(value * 10 + d <= i64::MAX) by (nonlinear_arith)
                        requires
                            value <= (i64::MAX - d) / 10,
                            0 <= d <= 9,
                            value >= 0,
                    ;
                    value = value * 10 + d;
                }
            } else {
                assert(digits_value(s.subrange(start as int, self.index())) * 10 + d > i64::MAX)
                    by (nonlinear_arith)
                    requires
                        digits_value(s.subrange(start as int, self.index())) > i64::MAX,
                        0 <= d,
                ;
            }
            self.advance();
        }
        if overflow {
            None
        } else {
            Some(Token::NumberLiteral(value))
        }
    }

    /// Reads a word: a keyword, a builtin, or an identifier.
    fn consume_word(&mut self) -> (r: Token)
        requires
            old(self).wf(),
            old(self).index() < old(self).text().len(),
            word_start(old(self).text()[old(self).index()]),
        ensures
            final(self).wf(),
            final(self).text() == old(self).text(),
            final(self).index() > old(self).index(),
            ({
                let s = old(self).text();
                let e = word_end(s, old(self).index());
                &&& final(self).index() == e
                &&& denotes(r, word_lexeme(s.subrange(old(self).index(), e)))
            }),
    {
        let ghost s = self.chars@;
        let start = self.position;
        while self.position < self.chars.len() && (is_alphanumeric(self.chars[self.position])
            || self.chars[self.position] == '_')
            invariant
                self.wf(),
                self.chars@ == s,
                start <= self.position <= s.len(),
                word_end(s, start as int) == word_end(s, self.index()),
                word_start(s[start as int]),
            decreases s.len() - self.position,
        {
            self.advance();
        }
        let end = self.position;
        if spells(&self.chars, start, end, "fn") {
            Token::Keyword(Keyword::Fn)
        } else if spells(&self.chars, start, end, "extern") {
            Token::Keyword(Keyword::Extern)
        } else if spells(&self.chars, start, end, "var") {
            Token::Keyword(Keyword::Var)
        } else if spells(&self.chars, start, end, "int") {
            Token::Keyword(Keyword::Int)
        } else if spells(&self.chars, start, end, "bool") {
            Token::Keyword(Keyword::Bool)
        } else if spells(&self.chars, start, end, "true") {
            Token::Keyword(Keyword::True)
        } else if spells(&self.chars, start, end, "false") {
            Token::Keyword(Keyword::False)
        } else if spells(&self.chars, start, end, "return") {
            Token::Keyword(Keyword::Return)
        } else if spells(&self.chars, start, end, "print") {
            Token::Builtin(Builtin::Print)
        } else if spells(&self.chars, start, end, "input") {
            Token::Builtin(Builtin::Input)
        } else if spells(&self.chars, start, end, "if") {
            Token::Keyword(Keyword::If)
        } else if spells(&self.chars, start, end, "else") {
            Token::Keyword(Keyword::Else)
        } else if spells(&self.chars, start, end, "while") {
            Token::Keyword(Keyword::While)
        } else {
            Token::Identifier(string_of(&self.chars, start, end))
        }
    }

    /// Reads a string literal, whose contents are taken verbatim; `None` when
    /// the closing quote is missing.
    fn consume_string(&mut self) -> (r: Option<Token>)
        requires
            old(self).wf(),
            old(self).index() < old(self).text().len(),
            old(self).text()[old(self).index()] == '"',
        ensures
            final(self).wf(),
            final(self).text() == old(self).text(),
            ({
                let s = old(self).text();
                let j = old(self).index();
                let q = quote_end(s, j + 1);
                &&& q < s.len() ==> (r matches Some(t) && denotes(t, Lexeme::Text(s.subrange(j + 1, q)))
                    && final(self).index() == q + 1)
                &&& q >= s.len() ==> r is None
            }),
    {
        let ghost s = self.chars@;
        self.advance();
        let start = self.position;
        while self.position < self.chars.len() && self.chars[self.position] != '"'
            invariant
                self.wf(),
                self.chars@ == s,
                start <= self.position <= s.len(),
                quote_end(s, start as int) == quote_end(s, self.index()),
            decreases s.len() - self.position,
        {
            self.advance();
        }
        if self.position >= self.chars.len() {
            return None;
        }
        let content = string_of(&self.chars, start, self.position);
        self.advance();
        Some(Token::StringLiteral(content))
    }

    fn current_char(&self) -> (c: char)
        requires
            self.wf(),
            self.index() < self.text().len(),
        ensures
            c == self.text()[self.index()],
    {
        self.chars[self.position]
    }

    /// Moves past one character, keeping the line and column in step.
    fn advance(&mut self)
        requires
            old(self).wf(),
            old(self).index() < old(self).text().len(),
        ensures
            final(self).wf(),
            final(self).text() == old(self).text(),
            final(self).index() == old(self).index() + 1,
    {
        proof {
            lemma_line_col_bounds(self.chars@, self.position as int);
        }
        if self.chars[self.position] == '\n' {
            self.current_pos.line = self.current_pos.line + 1;
            self.current_pos.column = 1;
        } else {
            self.current_pos.column = self.current_pos.column + 1;
        }
        self.position = self.position + 1;
    }

    fn consume_simple(&mut self, token: Token) -> (r: Token)
        requires
            old(self).wf(),
            old(self).index() < old(self).text().len(),
        ensures
            final(self).wf(),
            final(self).text() == old(self).text(),
            final(self).index() == old(self).index() + 1,
            r == token,
    {
        self.advance();
        token
    }

    /// Reads `single`, or `double` where the next character is `=`.
    fn consume_pair(&mut self, single: Token, double: Token) -> (r: Token)
        requires
            old(self).wf(),
            old(self).index() < old(self).text().len(),
        ensures
            final(self).wf(),
            final(self).text() == old(self).text(),
            ({
                let s = old(self).text();
                let j = old(self).index();
                if j + 1 < s.len() && s[j + 1] == '=' {
                    r == double && final(self).index() == j + 2
                } else {
                    r == single && final(self).index() == j + 1
                }
            }),
    {
        if self.peek() == '=' {
            self.advance();
            self.advance();
            double
        } else {
            self.advance();
            single
        }
    }

    /// The character after the current one, or `'\0'` at the end.
    fn peek(&self) -> (c: char)
        requires
            self.wf(),
        ensures
            self.index() + 1 < self.text().len() ==> c == self.text()[self.index() + 1],
            self.index() + 1 >= self.text().len() ==> c == '\0',
    {
        if self.position + 1 < self.chars.len() {
            self.chars[self.position + 1]
        } else {
            '\0'
        }
    }
}

/// The tokens of `s` from index `i` on, each with its position, the final
/// `EOF` not included; `None` where a character starts no token.
pub open spec fn lex_from(s: Seq<char>, i: int) -> Option<Seq<(Lexeme, Position)>>
    decreases s.len() - i,
{
    let j = skip_space(s, i);
    if j >= s.len() {
        Some(Seq::empty())
    } else {
        match scan(s, j) {
            None => None,
            Some((l, k)) => if j < k <= s.len() && i <= j {
                match lex_from(s, k) {
                    Some(rest) => Some(seq![(l, pos_at(s, j))] + rest),
                    None => None,
                }
            } else {
                None
            },
        }
    }
}

/// Whether the token vector `r` is the lexeme sequence `ls`, position for
/// position.
pub open spec fn tokens_denote(r: Seq<(Token, Position)>, ls: Seq<(Lexeme, Position)>) -> bool {
    &&& r.len() == ls.len()
    &&& forall|k: int| 0 <= k < r.len() ==> denotes(#[trigger] r[k].0, ls[k].0) && r[k].1 == ls[k].1
}

/// All tokens of `input` up to the end, which is not included.
pub fn tokenize(input: &str) -> (r: Result<Vec<(Token, Position)>, CompileError>)
    requires
        input@.len() < usize::MAX,
    ensures
        match lex_from(input@, 0) {
            Some(ls) => r matches Ok(ts) && tokens_denote(ts@, ls),
            None => r matches Err(e) && e.kind == ErrorKind::Lex,
        },
{
    let ghost s = input@;
    let mut lexer = Lexer::new(input);
    let mut tokens: Vec<(Token, Position)> = Vec::new();
    let ghost mut done: Seq<(Lexeme, Position)> = Seq::empty();
    assert(done + Seq::<(Lexeme, Position)>::empty() =~= done);
    loop
        invariant
            lexer.wf(),
            lexer.text() == s,
            s == input@,
            0 <= lexer.index() <= s.len(),
            tokens_denote(tokens@, done),
            lex_from(s, 0) == match lex_from(s, lexer.index()) {
                Some(rest) => Some(done + rest),
                None => None::<Seq<(Lexeme, Position)>>,
            },
        decreases s.len() - lexer.index(),
    {
        proof {
            lemma_run_bounds(s, lexer.index());
        }
        let ghost i = lexer.index();
        let (token, pos) = match lexer.next_token() {
            Ok(tp) => tp,
            Err(e) => return Err(e),
        };
        if matches!(token, Token::EOF) {
            assert(done + Seq::<(Lexeme, Position)>::empty() =~= done);
            return Ok(tokens);
        }
        proof {
            let j = skip_space(s, i);
            let (l, k) = scan(s, j)->Some_0;
            let rest = lex_from(s, k);
            if let Some(rs) = rest {
                assert(done + (seq![(l, pos_at(s, j))] + rs) =~= (done + seq![(l, pos_at(s, j))]) + rs);
            }
            done = done + seq![(l, pos_at(s, j))];
        }
        tokens.push((token, pos));
    }
}

/// The one-token program `s` after the blanks: its token at line 1, column
/// 1, and nothing after it but the end.
pub open spec fn lexes_to_one(s: Seq<char>, l: Lexeme) -> bool {
    lex_from(s, 0) == Some(seq![(l, Position { line: 1, column: 1 })])
}

/// The punctuation and operator tokens, by their text.
pub open spec fn punct_token(s: Seq<char>) -> Option<Token> {
    if s == seq!['('] {
        Some(Token::LeftParen)
    } else if s == seq![')'] {
        Some(Token::RightParen)
    } else if s == seq![':'] {
        Some(Token::Colon)
    } else if s == seq![','] {
        Some(Token::Comma)
    } else if s == seq!['='] {
        Some(Token::Equals)
    } else if s == seq!['+'] {
        Some(Token::Plus)
    } else if s == seq!['-'] {
        Some(Token::Minus)
    } else if s == seq!['*'] {
        Some(Token::Asterisk)
    } else if s == seq!['/'] {
        Some(Token::Slash)
    } else if s == seq!['=', '='] {
        Some(Token::Equality)
    } else if s == seq!['!', '='] {
        Some(Token::NotEqual)
    } else if s == seq!['<'] {
        Some(Token::LessThan)
    } else if s == seq!['<', '='] {
        Some(Token::LessThanOrEqual)
    } else if s == seq!['>'] {
        Some(Token::GreaterThan)
    } else if s == seq!['>', '='] {
        Some(Token::GreaterThanOrEqual)
    } else if s == seq!['{'] {
        Some(Token::LeftBrace)
    } else if s == seq!['}'] {
        Some(Token::RightBrace)
    } else if s == seq![';'] {
        Some(Token::Semicolon)
    } else {
        None
    }
}

/// A character that the lexer reads as a blank, punctuation, an operator
/// or a quote before it asks whether it starts a word.
pub open spec fn is_special(c: char) -> bool {
    is_space(c) || c == '(' || c == ')' || c == ':' || c == ',' || c == '=' || c == '>' || c
        == '<' || c == '!' || c == '+' || c == '-' || c == '*' || c == '/' || c == '"' || c == '{'
        || c == '}' || c == ';'
}

/// A one-token program in terms of `next_token`'s contract: the first call
/// finds the token at 1:1, and the input is used up after it, so the
/// second call gives `EOF`.
pub proof fn lemma_one_token_then_end(s: Seq<char>, l: Lexeme)
    requires
        lexes_to_one(s, l),
    ensures
        ({
            let j = skip_space(s, 0);
            &&& j < s.len()
            &&& scan(s, j) matches Some((l2, k)) && l2 == l && skip_space(s, k) >= s.len()
            &&& pos_at(s, j) == Position { line: 1, column: 1 }
        }),
{
    let j = skip_space(s, 0);
    let one = seq![(l, Position { line: 1, column: 1 })];
    lemma_run_bounds(s, 0);
    if j >= s.len() {
        assert(lex_from(s, 0) == Some(Seq::<(Lexeme, Position)>::empty()));
        assert(one.len() == 1);
    } else {
        match scan(s, j) {
            None => {
                assert(lex_from(s, 0) is None);
            },
            Some((l2, k)) => {
                if j < k <= s.len() {
                    match lex_from(s, k) {
                        None => {
                            assert(lex_from(s, 0) is None);
                        },
                        Some(rest) => {
                            assert(lex_from(s, 0) == Some(seq![(l2, pos_at(s, j))] + rest));
                            assert((seq![(l2, pos_at(s, j))] + rest).len() == one.len());
                            assert((seq![(l2, pos_at(s, j))] + rest)[0] == one[0]);
                            assert(rest.len() == 0);
                            lemma_run_bounds(s, k);
                            if skip_space(s, k) < s.len() {
                                match scan(s, skip_space(s, k)) {
                                    Some((l3, k3)) => {
                                        if skip_space(s, k) < k3 <= s.len() {
                                            match lex_from(s, k3) {
                                                Some(r3) => {
                                                    assert(rest == seq![(l3, pos_at(s, skip_space(s, k)))] + r3);
                                                },
                                                None => {},
                                            }
                                        }
                                    },
                                    None => {},
                                }
                            }
                        },
                    }
                } else {
                    assert(lex_from(s, 0) is None);
                }
            },
        }
    }
}

proof fn lemma_lex_end(s: Seq<char>)
    ensures
        lex_from(s, s.len() as int) == Some(Seq::<(Lexeme, Position)>::empty()),
{
}

/// Each punctuation or operator token, alone, lexes to itself at 1:1.
pub proof fn lemma_lex_punct(s: Seq<char>)
    requires
        punct_token(s) is Some,
    ensures
        lexes_to_one(s, Lexeme::Tok(punct_token(s)->Some_0)),
{
    lemma_lex_end(s);
    let l = Lexeme::Tok(punct_token(s)->Some_0);
    assert(seq![(l, pos_at(s, 0))] + Seq::<(Lexeme, Position)>::empty() =~= seq![(l, Position { line: 1, column: 1 })]);
}

proof fn lemma_runs_to_end(s: Seq<char>, i: int)
    requires
        0 <= i <= s.len(),
    ensures
        (forall|k: int| i <= k < s.len() ==> word_char(#[trigger] s[k])) ==> word_end(s, i) == s.len(),
        (forall|k: int| i <= k < s.len() ==> is_digit(#[trigger] s[k])) ==> digits_end(s, i) == s.len(),
        (forall|k: int| i <= k < s.len() ==> #[trigger] s[k] != '"') ==> quote_end(s, i) == s.len(),
    decreases s.len() - i,
{
    if i < s.len() {
        lemma_runs_to_end(s, i + 1);
    }
}

/// A word alone lexes to the keyword or builtin it spells, or else to the
/// identifier it names.
pub proof fn lemma_lex_word(w: Seq<char>)
    requires
        w.len() > 0,
        word_start(w[0]),
        !is_digit(w[0]),
        forall|k: int| 0 <= k < w.len() ==> word_char(#[trigger] w[k]) && !is_special(w[k]),
    ensures
        lexes_to_one(w, word_lexeme(w)),
{
    assert(!is_special(w[0]));
    lemma_runs_to_end(w, 0);
    lemma_lex_end(w);
    assert(w.subrange(0, w.len() as int) =~= w);
    let l = word_lexeme(w);
    assert(seq![(l, pos_at(w, 0))] + Seq::<(Lexeme, Position)>::empty() =~= seq![(l, Position { line: 1, column: 1 })]);
}

/// A run of digits alone lexes to the integer it denotes, where that fits
/// in 64 bits.
pub proof fn lemma_lex_number(d: Seq<char>)
    requires
        d.len() > 0,
        forall|k: int| 0 <= k < d.len() ==> is_digit(#[trigger] d[k]),
        digits_value(d) <= i64::MAX,
    ensures
        lexes_to_one(d, Lexeme::Tok(Token::NumberLiteral(digits_value(d) as i64))),
{
    assert(is_digit(d[0]));
    lemma_runs_to_end(d, 0);
    lemma_lex_end(d);
    assert(d.subrange(0, d.len() as int) =~= d);
    let l = Lexeme::Tok(Token::NumberLiteral(digits_value(d) as i64));
    assert(seq![(l, pos_at(d, 0))] + Seq::<(Lexeme, Position)>::empty() =~= seq![(l, Position { line: 1, column: 1 })]);
}

/// A quoted text without quotes inside lexes to a string literal with that
/// text.
pub proof fn lemma_lex_string(c: Seq<char>)
    requires
        forall|k: int| 0 <= k < c.len() ==> #[trigger] c[k] != '"',
    ensures
        lexes_to_one(seq!['"'] + c + seq!['"'], Lexeme::Text(c)),
{
    let s = seq!['"'] + c + seq!['"'];
    assert(s.subrange(1, s.len() - 1) =~= c);
    assert forall|k: int| 1 <= k < s.len() - 1 implies #[trigger] s[k] != '"' by {
        assert(s[k] == c[k - 1]);
    }
    lemma_quote_end(s, 1);
    lemma_lex_end(s);
    let l = Lexeme::Text(c);
    assert(seq![(l, pos_at(s, 0))] + Seq::<(Lexeme, Position)>::empty() =~= seq![(l, Position { line: 1, column: 1 })]);
}

proof fn lemma_quote_end(s: Seq<char>, i: int)
    requires
        1 <= i < s.len(),
        s[s.len() - 1] == '"',
        forall|k: int| i <= k < s.len() - 1 ==> #[trigger] s[k] != '"',
    ensures
        quote_end(s, i) == s.len() - 1,
    decreases s.len() - i,
{
    if i < s.len() - 1 {
        lemma_quote_end(s, i + 1);
    }
}

fn is_blank(c: char) -> (r: bool)
    ensures
        r == is_space(c),
{
    c == ' ' || c == '\t' || c == '\r' || c == '\n'
}

fn is_decimal_digit(c: char) -> (r: bool)
    ensures
        r == is_digit(c),
{
    '0' <= c && c <= '9'
}

} // verus!
