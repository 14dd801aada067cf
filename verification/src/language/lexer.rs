use vstd::prelude::*;
use super::token::{TokenKind, TokenType, Token, SpecToken, SpecTokenType, tokens_view};
use super::error::{Error, ErrorKind, error_at};
use super::text::{char_is_whitespace, char_is_alphabetic, char_is_alphanumeric, is_whitespace, is_alphabetic,
    is_alphanumeric, str_to_chars, push_char, is_digit_char, decimal_value, digit_value, text, str_eq};

verus! {

/// A position of the lexer in its input: the index of the next character
/// and the line and column (from 1) at which that character stands.
pub struct LexPos {
    pub pos: int,
    pub line: int,
    pub col: int,
}

/// An error of the lexer: the line and column it reports and the position
/// at which the lexer stands once it has stopped.
pub struct LexErr {
    pub line: int,
    pub col: int,
    pub after: LexPos,
    pub msg: Seq<char>,
}

/// An error with message `msg` reported at `p`, where the lexer stops.
pub open spec fn err_here(p: LexPos, msg: Seq<char>) -> LexErr {
    LexErr { line: p.line, col: p.col, after: p, msg }
}

/// A well-formed position within `input`.
pub open spec fn pos_wf(input: Seq<char>, p: LexPos) -> bool {
    &&& 0 <= p.pos <= input.len()
    &&& 1 <= p.line <= p.pos + 1
    &&& 1 <= p.col <= p.pos + 1
}

/// The position after the character at `p`: a newline starts the next line
/// at column 1, any other character moves one column right.
pub open spec fn lex_advance(input: Seq<char>, p: LexPos) -> LexPos {
    if input[p.pos] == '\n' {
        LexPos { pos: p.pos + 1, line: p.line + 1, col: 1 }
    } else {
        LexPos { pos: p.pos + 1, line: p.line, col: p.col + 1 }
    }
}

/// The character at `p`, if any.
pub open spec fn char_at(input: Seq<char>, p: LexPos) -> Option<char> {
    if 0 <= p.pos < input.len() {
        Some(input[p.pos])
    } else {
        None
    }
}

/// Whether the character at `p` exists and is `c`.
pub open spec fn next_is(input: Seq<char>, p: LexPos, c: char) -> bool {
    0 <= p.pos < input.len() && input[p.pos] == c
}

/// Skips white space.
pub open spec fn spec_skip_ws(input: Seq<char>, p: LexPos) -> LexPos
    decreases input.len() - p.pos,
{
    if 0 <= p.pos < input.len() && char_is_whitespace(input[p.pos]) {
        spec_skip_ws(input, lex_advance(input, p))
    } else {
        p
    }
}

/// A character that may continue an identifier.
pub open spec fn is_ident_char(c: char) -> bool {
    char_is_alphanumeric(c) || c == '_' || c == '{' || c == '}'
}

/// Reads the longest run of identifier characters at `p`.
pub open spec fn spec_read_ident(input: Seq<char>, p: LexPos) -> (Seq<char>, LexPos)
    decreases input.len() - p.pos,
{
    if 0 <= p.pos < input.len() && is_ident_char(input[p.pos]) {
        let (s, q) = spec_read_ident(input, lex_advance(input, p));
        (seq![input[p.pos]] + s, q)
    } else {
        (Seq::empty(), p)
    }
}

/// The character that an escape `\c` stands for.
pub open spec fn escaped(c: char) -> char {
    if c == 'n' {
        '\n'
    } else if c == 'r' {
        '\r'
    } else if c == 't' {
        '\t'
    } else {
        c
    }
}

/// Reads the rest of a string literal after its opening quote, up to and
/// including the closing quote. An error carries the position at which the
/// lexer stops: the end of the input.
pub open spec fn spec_string_body(input: Seq<char>, p: LexPos) -> Result<(Seq<char>, LexPos), LexErr>
    decreases input.len() - p.pos,
{
    if !(0 <= p.pos < input.len()) {
        Err(err_here(p, "Строка не закрыта"@))
    } else if input[p.pos] == '"' {
        Ok((Seq::empty(), lex_advance(input, p)))
    } else if input[p.pos] == '\\' {
        let q = lex_advance(input, p);
        if !(q.pos < input.len()) {
            Err(err_here(q, "Неожиданный конец файла после символа '\\' в строке"@))
        } else {
            match spec_string_body(input, lex_advance(input, q)) {
                Ok((s, r)) => Ok((seq![escaped(input[q.pos])] + s, r)),
                Err(e) => Err(e),
            }
        }
    } else {
        match spec_string_body(input, lex_advance(input, p)) {
            Ok((s, r)) => Ok((seq![input[p.pos]] + s, r)),
            Err(e) => Err(e),
        }
    }
}

/// Reads a string literal: skips the character at `p` (the opening quote)
/// and reads the body.
pub open spec fn spec_read_string(input: Seq<char>, p: LexPos) -> Result<(Seq<char>, LexPos), LexErr> {
    if 0 <= p.pos < input.len() {
        spec_string_body(input, lex_advance(input, p))
    } else {
        spec_string_body(input, p)
    }
}

/// Reads the text of a line comment, up to (not including) the next newline.
pub open spec fn spec_line_comment(input: Seq<char>, p: LexPos) -> (Seq<char>, LexPos)
    decreases input.len() - p.pos,
{
    if 0 <= p.pos < input.len() && input[p.pos] != '\n' {
        let (s, q) = spec_line_comment(input, lex_advance(input, p));
        (seq![input[p.pos]] + s, q)
    } else {
        (Seq::empty(), p)
    }
}

/// Reads the text of a block comment up to and including its closing `*/`.
pub open spec fn spec_block_comment(input: Seq<char>, p: LexPos) -> Result<(Seq<char>, LexPos), LexErr>
    decreases input.len() - p.pos,
{
    if 0 <= p.pos && p.pos + 1 < input.len() && input[p.pos] == '*' && input[p.pos + 1] == '/' {
        Ok((Seq::empty(), lex_advance(input, lex_advance(input, p))))
    } else if 0 <= p.pos < input.len() {
        match spec_block_comment(input, lex_advance(input, p)) {
            Ok((s, q)) => Ok((seq![input[p.pos]] + s, q)),
            Err(e) => Err(e),
        }
    } else {
        Err(err_here(p, "Многострочный комментарий не закрыт"@))
    }
}

/// Reads a comment whose first `/` has been read: `/` starts a line
/// comment, `*` a block comment, anything else is an error.
pub open spec fn spec_read_comment(input: Seq<char>, p: LexPos) -> Result<(Seq<char>, LexPos), LexErr> {
    if next_is(input, p, '/') {
        Ok(spec_line_comment(input, lex_advance(input, p)))
    } else if next_is(input, p, '*') {
        spec_block_comment(input, lex_advance(input, p))
    } else {
        if 0 <= p.pos < input.len() {
            Err(err_here(p, "Неверный символ после '/'"@))
        } else {
            Err(err_here(p, "Неожиданный конец файла после '/'"@))
        }
    }
}

/// Reads the longest run of decimal digits at `p`.
pub open spec fn spec_read_digits(input: Seq<char>, p: LexPos) -> (Seq<char>, LexPos)
    decreases input.len() - p.pos,
{
    if 0 <= p.pos < input.len() && is_digit_char(input[p.pos]) {
        let (s, q) = spec_read_digits(input, lex_advance(input, p));
        (seq![input[p.pos]] + s, q)
    } else {
        (Seq::empty(), p)
    }
}

/// Reads a number: a nonempty run of digits whose value fits in an `i64`.
pub open spec fn spec_read_number(input: Seq<char>, p: LexPos) -> Result<(int, LexPos), LexErr> {
    let (d, q) = spec_read_digits(input, p);
    if d.len() > 0 && decimal_value(d) <= i64::MAX {
        Ok((decimal_value(d), q))
    } else {
        Err(err_here(q, "Не удалось преобразовать строку в число: "@ + d))
    }
}

/// The token kind of an identifier-like word: a keyword, an HTTP method or
/// an identifier.
pub open spec fn keyword_kind(id: Seq<char>) -> SpecTokenType {
    if id == "route"@ {
        TokenKind::Route
    } else if id == "val"@ {
        TokenKind::Val
    } else if id == "if"@ {
        TokenKind::If
    } else if id == "else"@ {
        TokenKind::Else
    } else if id == "tls"@ {
        TokenKind::Tls
    } else if id == "enabled"@ {
        TokenKind::Enabled
    } else if id == "cert_path"@ {
        TokenKind::CertPath
    } else if id == "key_path"@ {
        TokenKind::KeyPath
    } else if id == "global_error_handler"@ {
        TokenKind::GlobalErrorHandler
    } else if id == "onError"@ {
        TokenKind::OnError
    } else if id == "config"@ {
        TokenKind::Config
    } else if id == "type"@ {
        TokenKind::TypeName
    } else if id == "host"@ {
        TokenKind::Host
    } else if id == "port"@ {
        TokenKind::Port
    } else if id == "import"@ {
        TokenKind::Import
    } else if id == "as"@ {
        TokenKind::As
    } else if id == "for"@ {
        TokenKind::For
    } else if id == "while"@ {
        TokenKind::While
    } else if id == "in"@ {
        TokenKind::In
    } else if id == "GET"@ || id == "POST"@ || id == "PUT"@ || id == "DELETE"@ || id == "PATCH"@
        || id == "HEAD"@ || id == "OPTIONS"@ {
        TokenKind::HttpMethod(id)
    } else {
        TokenKind::Identifier(id)
    }
}

/// A token of the given kind starting at `p`.
pub open spec fn tok_at(kind: SpecTokenType, p: LexPos) -> SpecToken {
    SpecToken { kind, line: p.line, column: p.col }
}

/// The message for a character that starts no token.
pub open spec fn unknown_msg(c: char) -> Seq<char> {
    "Неизвестный символ: '"@ + seq![c] + "'"@
}

/// A one- or two-character operator at `p`: `second` is the kind when the
/// next character is `c2`, `first` otherwise.
pub open spec fn one_or_two(input: Seq<char>, p: LexPos, c2: char, second: SpecTokenType, first: SpecTokenType) -> Result<(SpecToken, LexPos), LexErr> {
    let q = lex_advance(input, p);
    if next_is(input, q, c2) {
        Ok((tok_at(second, p), lex_advance(input, q)))
    } else {
        Ok((tok_at(first, p), q))
    }
}

/// A two-character operator at `p` whose second character is `c2`; a lone
/// first character is an error reported at `p`.
pub open spec fn exactly_two(input: Seq<char>, p: LexPos, c2: char, kind: SpecTokenType, msg: Seq<char>) -> Result<(SpecToken, LexPos), LexErr> {
    let q = lex_advance(input, p);
    if next_is(input, q, c2) {
        Ok((tok_at(kind, p), lex_advance(input, q)))
    } else {
        Err(LexErr { line: p.line, col: p.col, after: q, msg })
    }
}

/// The next token after the white space at `p0`, with the position after it.
pub open spec fn spec_next_token(input: Seq<char>, p0: LexPos) -> Result<(SpecToken, LexPos), LexErr> {
    let p = spec_skip_ws(input, p0);
    if !(0 <= p.pos < input.len()) {
        Ok((tok_at(TokenKind::EOF, p), p))
    } else {
        let c = input[p.pos];
        let q = lex_advance(input, p);
        if c == '{' {
            Ok((tok_at(TokenKind::LBrace, p), q))
        } else if c == '}' {
            Ok((tok_at(TokenKind::RBrace, p), q))
        } else if c == '(' {
            Ok((tok_at(TokenKind::LParen, p), q))
        } else if c == ')' {
            Ok((tok_at(TokenKind::RParen, p), q))
        } else if c == '[' {
            Ok((tok_at(TokenKind::LBracket, p), q))
        } else if c == ']' {
            Ok((tok_at(TokenKind::RBracket, p), q))
        } else if c == ';' {
            Ok((tok_at(TokenKind::Semicolon, p), q))
        } else if c == '.' {
            Ok((tok_at(TokenKind::Dot, p), q))
        } else if c == ',' {
            Ok((tok_at(TokenKind::Comma, p), q))
        } else if c == '=' {
            one_or_two(input, p, '=', TokenKind::DoubleEquals, TokenKind::Equals)
        } else if c == '"' {
            match spec_read_string(input, p) {
                Ok((s, r)) => Ok((tok_at(TokenKind::String(s), p), r)),
                Err(e) => Err(e),
            }
        } else if is_digit_char(c) {
            match spec_read_number(input, p) {
                Ok((n, r)) => Ok((tok_at(TokenKind::Number(n as i64), p), r)),
                Err(e) => Err(e),
            }
        } else if c == '/' {
            if !(q.pos < input.len()) {
                Ok((tok_at(TokenKind::Divide, p), q))
            } else if input[q.pos] == '=' {
                Ok((tok_at(TokenKind::DivideEqual, p), lex_advance(input, q)))
            } else {
                match spec_read_comment(input, q) {
                    Ok((s, r)) => Ok((tok_at(TokenKind::Comment(s), p), r)),
                    Err(e) => Err(e),
                }
            }
        } else if c == '?' {
            Ok((tok_at(TokenKind::TryOperator, p), q))
        } else if c == '!' {
            if next_is(input, q, '!') {
                Ok((tok_at(TokenKind::UnwrapOperator, p), lex_advance(input, q)))
            } else if next_is(input, q, '=') {
                Ok((tok_at(TokenKind::NotEquals, p), lex_advance(input, q)))
            } else {
                Err(LexErr { line: p.line, col: p.col, after: q, msg: unknown_msg(c) })
            }
        } else if c == '+' {
            one_or_two(input, p, '=', TokenKind::PlusEqual, TokenKind::Concatenation)
        } else if c == ':' {
            exactly_two(input, p, ':', TokenKind::DoubleColon, unknown_msg(c))
        } else if c == '&' {
            exactly_two(input, p, '&', TokenKind::LogicalAnd, "Неизвестный символ: '&', ожидается '&&'"@)
        } else if c == '|' {
            exactly_two(input, p, '|', TokenKind::LogicalOr, "Неизвестный символ: '|', ожидается '||'"@)
        } else if c == '*' {
            one_or_two(input, p, '=', TokenKind::MultiplyEqual, TokenKind::Multiply)
        } else if c == '-' {
            one_or_two(input, p, '=', TokenKind::SubstructEqual, TokenKind::Substruct)
        } else if c == '^' {
            one_or_two(input, p, '=', TokenKind::PowerEqual, TokenKind::Power)
        } else if char_is_alphabetic(c) {
            let (id, r) = spec_read_ident(input, p);
            Ok((tok_at(keyword_kind(id), p), r))
        } else {
            Err(err_here(p, unknown_msg(c)))
        }
    }
}

/// All tokens from `p` on, comments left out, ending with the end-of-input
/// token, with the position at which the lexer then stands.
pub open spec fn spec_tokenize(input: Seq<char>, p: LexPos) -> Result<(Seq<SpecToken>, LexPos), LexErr>
    decreases input.len() - p.pos,
{
    match spec_next_token(input, p) {
        Err(e) => Err(e),
        Ok((t, q)) => {
            if t.kind is EOF {
                Ok((seq![t], q))
            } else if q.pos <= p.pos || q.pos > input.len() {
                Ok((Seq::empty(), q))
            } else {
                match spec_tokenize(input, q) {
                    Err(e) => Err(e),
                    Ok((ts, r)) => {
                        if t.kind is Comment {
                            Ok((ts, r))
                        } else {
                            Ok((seq![t] + ts, r))
                        }
                    },
                }
            }
        },
    }
}

/// The lexer of the route definition language: its input as characters and
/// the position of the next character.
pub struct Lexer {
    pub(crate) input: Vec<char>,
    pub(crate) position: usize,
    pub(crate) line: usize,
    pub(crate) column: usize,
}

impl View for Lexer {
    type V = LexPos;

    closed spec fn view(&self) -> LexPos {
        LexPos { pos: self.position as int, line: self.line as int, col: self.column as int }
    }
}

/// Whether `c` may continue an identifier.
fn is_ident_char_exec(c: char) -> (r: bool)
    ensures
        r == is_ident_char(c),
{
    is_alphanumeric(c) || c == '_' || c == '{' || c == '}'
}

impl Lexer {
    /// The characters the lexer reads.
    pub closed spec fn chars(&self) -> Seq<char> {
        self.input@
    }

    /// The lexer's position is well formed and its counters cannot overflow.
    pub closed spec fn wf(&self) -> bool {
        &&& pos_wf(self.input@, self@)
        &&& self.input@.len() < usize::MAX
    }

    /// A lexer at the start of `input`: line 1, column 1.
    pub fn new(input: &str) -> (r: Lexer)
        requires
            input@.len() < usize::MAX,
        ensures
            r.wf(),
            r.chars() == input@,
            r@ == (LexPos { pos: 0, line: 1, col: 1 }),
    {
        Lexer { input: str_to_chars(input), position: 0, line: 1, column: 1 }
    }

    /// The next character, if any, without moving.
    pub fn peek(&self) -> (r: Option<char>)
        ensures
            r == char_at(self.chars(), self@),
    {
        if self.position < self.input.len() {
            Some(self.input[self.position])
        } else {
            None
        }
    }

    /// The character after the next one, if any, without moving.
    pub fn peek_next(&self) -> (r: Option<char>)
        ensures
            r == (if self@.pos + 1 < self.chars().len() {
                Some(self.chars()[self@.pos + 1])
            } else {
                None
            }),
    {
        if self.position < self.input.len() && self.position + 1 < self.input.len() {
            Some(self.input[self.position + 1])
        } else {
            None
        }
    }

    /// Reads the next character, if any, and moves past it.
    pub fn consume(&mut self) -> (r: Option<char>)
        requires
            old(self).wf(),
        ensures
            final(self).wf(),
            final(self).chars() == old(self).chars(),
            r == char_at(old(self).chars(), old(self)@),
            final(self)@ == (if r is Some {
                lex_advance(old(self).chars(), old(self)@)
            } else {
                old(self)@
            }),
    {
        if self.position < self.input.len() {
            let ch = self.input[self.position];
            self.position = self.position + 1;
            if ch == '\n' {
                self.line = self.line + 1;
                self.column = 1;
            } else {
                self.column = self.column + 1;
            }
            Some(ch)
        } else {
            None
        }
    }

    /// Skips white space.
    pub fn skip_whitespace(&mut self)
        requires
            old(self).wf(),
        ensures
            final(self).wf(),
            final(self).chars() == old(self).chars(),
            final(self)@ == spec_skip_ws(old(self).chars(), old(self)@),
    {
        let ghost start = self@;
        while self.position < self.input.len() && is_whitespace(self.input[self.position])
            invariant
                self.wf(),
                self.chars() == old(self).chars(),
                spec_skip_ws(self.chars(), start) == spec_skip_ws(self.chars(), self@),
                start == old(self)@,
            decreases self.input.len() - self.position,
        {
            self.consume();
        }
    }

    /// Reads the longest run of identifier characters (alphanumeric, `_`,
    /// braces).
    pub fn read_identifier(&mut self) -> (r: String)
        requires
            old(self).wf(),
        ensures
            final(self).wf(),
            final(self).chars() == old(self).chars(),
            (r@, final(self)@) == spec_read_ident(old(self).chars(), old(self)@),
    {
        let ghost start = self@;
        let mut identifier = String::new();
        while self.position < self.input.len() && is_ident_char_exec(self.input[self.position])
            invariant
                self.wf(),
                self.chars() == old(self).chars(),
                start == old(self)@,
                ({
                    let (s0, q0) = spec_read_ident(self.chars(), start);
                    let (s1, q1) = spec_read_ident(self.chars(), self@);
                    s0 == identifier@ + s1 && q0 == q1
                }),
            decreases self.input.len() - self.position,
        {
            let ch = self.input[self.position];
            push_char(&mut identifier, ch);
            self.consume();
            proof {
                assert(identifier@ == (identifier@.drop_last()) + seq![ch]);
            }
        }
        identifier
    }
}

} // verus!

verus! {

/// An error of the lexer that reports `e`: its message, line and column.
pub open spec fn reports(err: Error, e: LexErr) -> bool {
    &&& err.kind == ErrorKind::Lexer
    &&& err.message@ == e.msg
    &&& err.line == Some(e.line as usize)
    &&& err.column == Some(e.col as usize)
}

/// `r` with `pre` put in front of the text it reads.
pub open spec fn prepend_ok(pre: Seq<char>, r: Result<(Seq<char>, LexPos), LexErr>) -> Result<(Seq<char>, LexPos), LexErr> {
    match r {
        Ok((s, q)) => Ok((pre + s, q)),
        Err(e) => Err(e),
    }
}

/// Putting `b` then `a` in front is putting `a + b` in front.
proof fn lemma_prepend_assoc(a: Seq<char>, b: Seq<char>, r: Result<(Seq<char>, LexPos), LexErr>)
    ensures
        prepend_ok(a, prepend_ok(b, r)) == prepend_ok(a + b, r),
{
    match r {
        Ok((s, q)) => {
            assert(a + (b + s) =~= (a + b) + s);
        },
        Err(_) => {},
    }
}

/// Putting nothing in front changes nothing.
proof fn lemma_prepend_empty(a: Seq<char>, q: LexPos)
    ensures
        prepend_ok(a, Ok((Seq::<char>::empty(), q))) == Ok::<(Seq<char>, LexPos), LexErr>((a, q)),
{
    assert(a + Seq::<char>::empty() =~= a);
}

/// The character an escape `\c` stands for.
fn escape_char(c: char) -> (r: char)
    ensures
        r == escaped(c),
{
    if c == 'n' {
        '\n'
    } else if c == 'r' {
        '\r'
    } else if c == 't' {
        '\t'
    } else {
        c
    }
}

/// An error of the lexer at the given position.
fn lexer_error(message: &str, line: usize, column: usize) -> (e: Error)
    ensures
        e.kind == ErrorKind::Lexer,
        e.message@ == message@,
        e.line == Some(line),
        e.column == Some(column),
{
    error_at(ErrorKind::Lexer, text(message), line, column)
}

impl Lexer {
    /// Reads a string literal: skips the opening quote, then reads up to the
    /// closing quote, resolving the escapes `\n`, `\r`, `\t` (any other
    /// escaped character stands for itself). A backslash at the end of the
    /// input, or a literal with no closing quote, is an error.
    pub fn read_string(&mut self) -> (r: Result<String, Error>)
        requires
            old(self).wf(),
        ensures
            final(self).wf(),
            final(self).chars() == old(self).chars(),
            match spec_read_string(old(self).chars(), old(self)@) {
                Ok((s, q)) => r matches Ok(v) && v@ == s && final(self)@ == q,
                Err(e) => r matches Err(err) && reports(err, e) && final(self)@ == e.after,
            },
    {
        self.consume();
        let ghost start = self@;
        let mut string = String::new();
        loop
            invariant
                self.wf(),
                self.chars() == old(self).chars(),
                spec_read_string(old(self).chars(), old(self)@) == spec_string_body(self.chars(), start),
                spec_string_body(self.chars(), start) == prepend_ok(string@, spec_string_body(self.chars(), self@)),
            decreases self.chars().len() - self@.pos,
        {
            match self.peek() {
                None => {
                    return Err(lexer_error("Строка не закрыта", self.line, self.column));
                },
                Some(ch) => {
                    if ch == '"' {
                        self.consume();
                        proof {
                            lemma_prepend_empty(string@, self@);
                        }
                        return Ok(string);
                    } else if ch == '\\' {
                        self.consume();
                        match self.peek() {
                            Some(next_ch) => {
                                let ghost before = string@;
                                let ghost mid = self@;
                                push_char(&mut string, escape_char(next_ch));
                                self.consume();
                                proof {
                                    lemma_prepend_assoc(before, seq![escaped(next_ch)], spec_string_body(self.chars(), self@));
                                }
                            },
                            None => {
                                return Err(lexer_error(
                                    "Неожиданный конец файла после символа '\\' в строке",
                                    self.line,
                                    self.column,
                                ));
                            },
                        }
                    } else {
                        let ghost before = string@;
                        push_char(&mut string, ch);
                        self.consume();
                        proof {
                            lemma_prepend_assoc(before, seq![ch], spec_string_body(self.chars(), self@));
                        }
                    }
                },
            }
        }
    }

    /// Reads a comment whose first `/` has been read: a second `/` starts a
    /// comment that runs to the end of the line, `*` one that runs to the
    /// next `*/`. Any other character, an unclosed block comment or the end
    /// of the input is an error.
    pub fn read_comment(&mut self) -> (r: Result<String, Error>)
        requires
            old(self).wf(),
        ensures
            final(self).wf(),
            final(self).chars() == old(self).chars(),
            match spec_read_comment(old(self).chars(), old(self)@) {
                Ok((s, q)) => r matches Ok(v) && v@ == s && final(self)@ == q,
                Err(e) => r matches Err(err) && reports(err, e) && final(self)@ == e.after,
            },
    {
        let mut comment = String::new();
        match self.peek() {
            Some(next_ch) => {
                if next_ch == '/' {
                    self.consume();
                    let ghost start = self@;
                    while self.position < self.input.len() && self.input[self.position] != '\n'
                        invariant
                            self.wf(),
                            self.chars() == old(self).chars(),
                            start == lex_advance(self.chars(), old(self)@),
                            ({
                                let (s0, q0) = spec_line_comment(self.chars(), start);
                                let (s1, q1) = spec_line_comment(self.chars(), self@);
                                s0 == comment@ + s1 && q0 == q1
                            }),
                        decreases self.chars().len() - self@.pos,
                    {
                        let ch = self.input[self.position];
                        let ghost before = comment@;
                        push_char(&mut comment, ch);
                        self.consume();
                        assert(comment@ == before + seq![ch]);
                    }
                    Ok(comment)
                } else if next_ch == '*' {
                    self.consume();
                    let ghost start = self@;
                    loop
                        invariant
                            self.wf(),
                            self.chars() == old(self).chars(),
                            start == lex_advance(self.chars(), old(self)@),
                            spec_read_comment(old(self).chars(), old(self)@) == spec_block_comment(self.chars(), start),
                            spec_block_comment(self.chars(), start) == prepend_ok(comment@, spec_block_comment(self.chars(), self@)),
                        decreases self.chars().len() - self@.pos,
                    {
                        let ghost cur = self@;
                        let closing = match (self.peek(), self.peek_next()) {
                            (Some(a), Some(b)) => a == '*' && b == '/',
                            _ => false,
                        };
                        if closing {
                            self.consume();
                            self.consume();
                            proof {
                                assert(spec_block_comment(self.chars(), cur)
                                    == Ok::<(Seq<char>, LexPos), LexErr>((Seq::<char>::empty(), self@)));
                                lemma_prepend_empty(comment@, self@);
                            }
                            return Ok(comment);
                        } else {
                            match self.consume() {
                                Some(ch) => {
                                    let ghost before = comment@;
                                    push_char(&mut comment, ch);
                                    proof {
                                        assert(spec_block_comment(self.chars(), cur)
                                            == prepend_ok(seq![ch], spec_block_comment(self.chars(), self@)));
                                        lemma_prepend_assoc(before, seq![ch], spec_block_comment(self.chars(), self@));
                                        assert(comment@ == before + seq![ch]);
                                    }
                                },
                                None => {
                                    proof {
                                        assert(spec_block_comment(self.chars(), cur) == Err::<(Seq<char>, LexPos), LexErr>(err_here(cur, "Многострочный комментарий не закрыт"@)));
                                    }
                                    return Err(lexer_error("Многострочный комментарий не закрыт", self.line, self.column));
                                },
                            }
                        }
                    }
                } else {
                    Err(lexer_error("Неверный символ после '/'", self.line, self.column))
                }
            },
            None => Err(lexer_error("Неожиданный конец файла после '/'", self.line, self.column)),
        }
    }

    /// Reads a run of decimal digits and its value; an empty run, or one
    /// whose value does not fit in an `i64`, is an error reported where the
    /// run ends.
    fn read_number(&mut self) -> (r: Result<i64, Error>)
        requires
            old(self).wf(),
        ensures
            final(self).wf(),
            final(self).chars() == old(self).chars(),
            match spec_read_number(old(self).chars(), old(self)@) {
                Ok((n, q)) => r matches Ok(v) && v == n && final(self)@ == q,
                Err(e) => r matches Err(err) && reports(err, e) && final(self)@ == e.after,
            },
    {
        let ghost start = self@;
        let mut number = String::new();
        let ghost mut digits: Seq<char> = Seq::empty();
        let mut value: i64 = 0;
        let mut overflow = false;
        let mut count: usize = 0;
        while self.position < self.input.len() && is_digit_exec(self.input[self.position])
            invariant
                self.wf(),
                self.chars() == old(self).chars(),
                start == old(self)@,
                count == digits.len(),
                number@ == digits,
                ({
                    let (s0, q0) = spec_read_digits(self.chars(), start);
                    let (s1, q1) = spec_read_digits(self.chars(), self@);
                    s0 == digits + s1 && q0 == q1
                }),
                decimal_value(digits) >= 0,
                !overflow ==> value == decimal_value(digits),
                overflow ==> decimal_value(digits) > i64::MAX,
                count <= self@.pos,
            decreases self.chars().len() - self@.pos,
        {
            let ch = self.input[self.position];
            let d = digit_exec(ch);
            if !overflow {
                match value.checked_mul(10) {
                    Some(v10) => match v10.checked_add(d) {
                        Some(v) => {
                            value = v;
                        },
                        None => {
                            overflow = true;
                        },
                    },
                    None => {
                        overflow = true;
                    },
                }
            }
            proof {
                let nd = digits.push(ch);
                assert(nd.drop_last() == digits);
            }
            self.consume();
            push_char(&mut number, ch);
            proof {
                digits = digits.push(ch);
            }
            count = count + 1;
        }
        if count > 0 && !overflow {
            Ok(value)
        } else {
            let mut m = text("Не удалось преобразовать строку в число: ");
            m.append(number.as_str());
            Err(lexer_error_owned(m, self.line, self.column))
        }
    }
}

/// Whether `c` is an ASCII decimal digit.
fn is_digit_exec(c: char) -> (r: bool)
    ensures
        r == is_digit_char(c),
{
    c >= '0' && c <= '9'
}

/// The value of an ASCII decimal digit.
fn digit_exec(c: char) -> (r: i64)
    requires
        is_digit_char(c),
    ensures
        r == digit_value(c),
        0 <= r <= 9,
{
    (c as u32 - '0' as u32) as i64
}


/// The token kind of an identifier-like word (see `keyword_kind`).
fn keyword_token(ident: String) -> (r: TokenType)
    ensures
        r@ == keyword_kind(ident@),
{
    proof {
        reveal_strlit("route");
        reveal_strlit("val");
        reveal_strlit("if");
        reveal_strlit("else");
        reveal_strlit("tls");
        reveal_strlit("enabled");
        reveal_strlit("cert_path");
        reveal_strlit("key_path");
        reveal_strlit("global_error_handler");
        reveal_strlit("onError");
        reveal_strlit("config");
        reveal_strlit("type");
        reveal_strlit("host");
        reveal_strlit("port");
        reveal_strlit("import");
        reveal_strlit("as");
        reveal_strlit("for");
        reveal_strlit("while");
        reveal_strlit("in");
        reveal_strlit("GET");
        reveal_strlit("POST");
        reveal_strlit("PUT");
        reveal_strlit("DELETE");
        reveal_strlit("PATCH");
        reveal_strlit("HEAD");
        reveal_strlit("OPTIONS");
    }
    let w = ident.as_str();
    if str_eq(w, "route") {
        TokenKind::Route
    } else if str_eq(w, "val") {
        TokenKind::Val
    } else if str_eq(w, "if") {
        TokenKind::If
    } else if str_eq(w, "else") {
        TokenKind::Else
    } else if str_eq(w, "tls") {
        TokenKind::Tls
    } else if str_eq(w, "enabled") {
        TokenKind::Enabled
    } else if str_eq(w, "cert_path") {
        TokenKind::CertPath
    } else if str_eq(w, "key_path") {
        TokenKind::KeyPath
    } else if str_eq(w, "global_error_handler") {
        TokenKind::GlobalErrorHandler
    } else if str_eq(w, "onError") {
        TokenKind::OnError
    } else if str_eq(w, "config") {
        TokenKind::Config
    } else if str_eq(w, "type") {
        TokenKind::TypeName
    } else if str_eq(w, "host") {
        TokenKind::Host
    } else if str_eq(w, "port") {
        TokenKind::Port
    } else if str_eq(w, "import") {
        TokenKind::Import
    } else if str_eq(w, "as") {
        TokenKind::As
    } else if str_eq(w, "for") {
        TokenKind::For
    } else if str_eq(w, "while") {
        TokenKind::While
    } else if str_eq(w, "in") {
        TokenKind::In
    } else if str_eq(w, "GET") || str_eq(w, "POST") || str_eq(w, "PUT") || str_eq(w, "DELETE")
        || str_eq(w, "PATCH") || str_eq(w, "HEAD") || str_eq(w, "OPTIONS") {
        TokenKind::HttpMethod(ident)
    } else {
        TokenKind::Identifier(ident)
    }
}

/// The message for a character that starts no token.
fn unknown_char_message(ch: char) -> (r: String)
    ensures
        r@ == "Неизвестный символ: '"@ + seq![ch] + "'"@,
{
    let mut m = text("Неизвестный символ: '");
    push_char(&mut m, ch);
    m.append("'");
    m
}

impl Lexer {
    /// A token of the given kind at the given line and column.
    fn token(kind: TokenType, line: usize, column: usize) -> (t: Token)
        ensures
            t.token_type == kind,
            t.line == line,
            t.column == column,
    {
        Token { token_type: kind, line, column }
    }

    /// After a one-character operator has been read: if the next character
    /// is `c2`, reads it too and gives `second`, else gives `first`.
    fn one_or_two(&mut self, c2: char, second: TokenType, first: TokenType, line: usize, column: usize) -> (r: Token)
        requires
            old(self).wf(),
        ensures
            final(self).wf(),
            final(self).chars() == old(self).chars(),
            if next_is(old(self).chars(), old(self)@, c2) {
                r@ == (SpecToken { kind: second@, line: line as int, column: column as int })
                    && final(self)@ == lex_advance(old(self).chars(), old(self)@)
            } else {
                r@ == (SpecToken { kind: first@, line: line as int, column: column as int })
                    && final(self)@ == old(self)@
            },
    {
        match self.peek() {
            Some(c) => {
                if c == c2 {
                    self.consume();
                    return Self::token(second, line, column);
                }
            },
            None => {},
        }
        Self::token(first, line, column)
    }

    /// After the first character of a two-character operator has been read:
    /// reads `c2` and gives `kind`; any other character is an error reported
    /// at the given line and column.
    fn exactly_two(&mut self, c2: char, kind: TokenType, message: String, line: usize, column: usize) -> (r: Result<Token, Error>)
        requires
            old(self).wf(),
        ensures
            final(self).wf(),
            final(self).chars() == old(self).chars(),
            if next_is(old(self).chars(), old(self)@, c2) {
                r matches Ok(t) && t@ == (SpecToken { kind: kind@, line: line as int, column: column as int })
                    && final(self)@ == lex_advance(old(self).chars(), old(self)@)
            } else {
                r matches Err(e) && e.kind == ErrorKind::Lexer && e.line == Some(line) && e.column == Some(column)
                    && e.message@ == message@ && final(self)@ == old(self)@
            },
    {
        match self.peek() {
            Some(c) => {
                if c == c2 {
                    self.consume();
                    return Ok(Self::token(kind, line, column));
                }
            },
            None => {},
        }
        Err(lexer_error_owned(message, line, column))
    }

    /// Reads the next token, skipping white space first. At the end of the
    /// input the token is `EOF` (and reading it again gives `EOF` again).
    /// Comments are tokens of their own.
    #[verifier::rlimit(50)]
    pub fn next_token(&mut self) -> (r: Result<Token, Error>)
        requires
            old(self).wf(),
        ensures
            final(self).wf(),
            final(self).chars() == old(self).chars(),
            match spec_next_token(old(self).chars(), old(self)@) {
                Ok((t, q)) => r matches Ok(tok) && tok@ == t && final(self)@ == q,
                Err(e) => r matches Err(err) && reports(err, e) && final(self)@ == e.after,
            },
    {
        self.skip_whitespace();
        let line = self.line;
        let column = self.column;
        let ghost p = self@;
        match self.peek() {
            None => Ok(Self::token(TokenKind::EOF, line, column)),
            Some(ch) => {
                if ch == '{' {
                    self.consume();
                    Ok(Self::token(TokenKind::LBrace, line, column))
                } else if ch == '}' {
                    self.consume();
                    Ok(Self::token(TokenKind::RBrace, line, column))
                } else if ch == '(' {
                    self.consume();
                    Ok(Self::token(TokenKind::LParen, line, column))
                } else if ch == ')' {
                    self.consume();
                    Ok(Self::token(TokenKind::RParen, line, column))
                } else if ch == '[' {
                    self.consume();
                    Ok(Self::token(TokenKind::LBracket, line, column))
                } else if ch == ']' {
                    self.consume();
                    Ok(Self::token(TokenKind::RBracket, line, column))
                } else if ch == ';' {
                    self.consume();
                    Ok(Self::token(TokenKind::Semicolon, line, column))
                } else if ch == '.' {
                    self.consume();
                    Ok(Self::token(TokenKind::Dot, line, column))
                } else if ch == ',' {
                    self.consume();
                    Ok(Self::token(TokenKind::Comma, line, column))
                } else if ch == '=' {
                    self.consume();
                    Ok(self.one_or_two('=', TokenKind::DoubleEquals, TokenKind::Equals, line, column))
                } else if ch == '"' {
                    match self.read_string() {
                        Ok(s) => Ok(Self::token(TokenKind::String(s), line, column)),
                        Err(e) => Err(e),
                    }
                } else if is_digit_exec(ch) {
                    match self.read_number() {
                        Ok(n) => Ok(Self::token(TokenKind::Number(n), line, column)),
                        Err(e) => Err(e),
                    }
                } else if ch == '/' {
                    self.consume();
                    match self.peek() {
                        None => Ok(Self::token(TokenKind::Divide, line, column)),
                        Some(c) => {
                            if c == '=' {
                                self.consume();
                                Ok(Self::token(TokenKind::DivideEqual, line, column))
                            } else {
                                match self.read_comment() {
                                    Ok(comment) => Ok(Self::token(TokenKind::Comment(comment), line, column)),
                                    Err(e) => Err(e),
                                }
                            }
                        },
                    }
                } else if ch == '?' {
                    self.consume();
                    Ok(Self::token(TokenKind::TryOperator, line, column))
                } else if ch == '!' {
                    self.consume();
                    match self.peek() {
                        Some(c) => {
                            if c == '!' {
                                self.consume();
                                return Ok(Self::token(TokenKind::UnwrapOperator, line, column));
                            } else if c == '=' {
                                self.consume();
                                return Ok(Self::token(TokenKind::NotEquals, line, column));
                            }
                        },
                        None => {},
                    }
                    Err(lexer_error_owned(unknown_char_message(ch), line, column))
                } else if ch == '+' {
                    self.consume();
                    Ok(self.one_or_two('=', TokenKind::PlusEqual, TokenKind::Concatenation, line, column))
                } else if ch == ':' {
                    self.consume();
                    self.exactly_two(':', TokenKind::DoubleColon, unknown_char_message(ch), line, column)
                } else if ch == '&' {
                    self.consume();
                    self.exactly_two('&', TokenKind::LogicalAnd, text("Неизвестный символ: '&', ожидается '&&'"), line, column)
                } else if ch == '|' {
                    self.consume();
                    self.exactly_two('|', TokenKind::LogicalOr, text("Неизвестный символ: '|', ожидается '||'"), line, column)
                } else if ch == '*' {
                    self.consume();
                    Ok(self.one_or_two('=', TokenKind::MultiplyEqual, TokenKind::Multiply, line, column))
                } else if ch == '-' {
                    self.consume();
                    Ok(self.one_or_two('=', TokenKind::SubstructEqual, TokenKind::Substruct, line, column))
                } else if ch == '^' {
                    self.consume();
                    Ok(self.one_or_two('=', TokenKind::PowerEqual, TokenKind::Power, line, column))
                } else if is_alphabetic(ch) {
                    let ident = self.read_identifier();
                    Ok(Self::token(keyword_token(ident), line, column))
                } else {
                    Err(lexer_error_owned(unknown_char_message(ch), line, column))
                }
            },
        }
    }
}

/// An error of the lexer with the given message at the given position.
fn lexer_error_owned(message: String, line: usize, column: usize) -> (e: Error)
    ensures
        e.kind == ErrorKind::Lexer,
        e.message@ == message@,
        e.line == Some(line),
        e.column == Some(column),
{
    error_at(ErrorKind::Lexer, message, line, column)
}


/// White space skipping moves forward and stays within the input.
proof fn lemma_skip_ws_pos(input: Seq<char>, p: LexPos)
    requires
        0 <= p.pos <= input.len(),
    ensures
        p.pos <= spec_skip_ws(input, p).pos <= input.len(),
    decreases input.len() - p.pos,
{
    if 0 <= p.pos < input.len() && char_is_whitespace(input[p.pos]) {
        lemma_skip_ws_pos(input, lex_advance(input, p));
    }
}

/// Reading an identifier moves forward, past at least one character when
/// the first one may continue an identifier.
proof fn lemma_ident_pos(input: Seq<char>, p: LexPos)
    requires
        0 <= p.pos <= input.len(),
    ensures
        p.pos <= spec_read_ident(input, p).1.pos <= input.len(),
        p.pos < input.len() && is_ident_char(input[p.pos]) ==> p.pos < spec_read_ident(input, p).1.pos,
    decreases input.len() - p.pos,
{
    if 0 <= p.pos < input.len() && is_ident_char(input[p.pos]) {
        lemma_ident_pos(input, lex_advance(input, p));
    }
}

/// Reading digits moves forward, past at least one when there is a digit.
proof fn lemma_digits_pos(input: Seq<char>, p: LexPos)
    requires
        0 <= p.pos <= input.len(),
    ensures
        p.pos <= spec_read_digits(input, p).1.pos <= input.len(),
        p.pos < input.len() && is_digit_char(input[p.pos]) ==> p.pos < spec_read_digits(input, p).1.pos,
    decreases input.len() - p.pos,
{
    if 0 <= p.pos < input.len() && is_digit_char(input[p.pos]) {
        lemma_digits_pos(input, lex_advance(input, p));
    }
}

/// Reading a line comment moves forward within the input.
proof fn lemma_line_comment_pos(input: Seq<char>, p: LexPos)
    requires
        0 <= p.pos <= input.len(),
    ensures
        p.pos <= spec_line_comment(input, p).1.pos <= input.len(),
    decreases input.len() - p.pos,
{
    if 0 <= p.pos < input.len() && input[p.pos] != '\n' {
        lemma_line_comment_pos(input, lex_advance(input, p));
    }
}

/// A block comment that is read moves forward within the input.
proof fn lemma_block_comment_pos(input: Seq<char>, p: LexPos)
    requires
        0 <= p.pos <= input.len(),
    ensures
        spec_block_comment(input, p) matches Ok((_, q)) ==> p.pos < q.pos <= input.len(),
    decreases input.len() - p.pos,
{
    if 0 <= p.pos && p.pos + 1 < input.len() && input[p.pos] == '*' && input[p.pos + 1] == '/' {
    } else if 0 <= p.pos < input.len() {
        lemma_block_comment_pos(input, lex_advance(input, p));
    }
}

/// A string body that is read moves forward within the input.
proof fn lemma_string_body_pos(input: Seq<char>, p: LexPos)
    requires
        0 <= p.pos <= input.len(),
    ensures
        spec_string_body(input, p) matches Ok((_, q)) ==> p.pos < q.pos <= input.len(),
    decreases input.len() - p.pos,
{
    if !(0 <= p.pos < input.len()) {
    } else if input[p.pos] == '"' {
    } else if input[p.pos] == '\\' {
        let q = lex_advance(input, p);
        if q.pos < input.len() {
            lemma_string_body_pos(input, lex_advance(input, q));
        }
    } else {
        lemma_string_body_pos(input, lex_advance(input, p));
    }
}

/// Every token but the end of the input moves the lexer forward, within
/// the input.
proof fn lemma_next_token_advances(input: Seq<char>, p0: LexPos)
    requires
        0 <= p0.pos <= input.len(),
    ensures
        spec_next_token(input, p0) matches Ok((t, q)) ==> (t.kind is EOF || p0.pos < q.pos <= input.len()),
{
    let p = spec_skip_ws(input, p0);
    lemma_skip_ws_pos(input, p0);
    if 0 <= p.pos < input.len() {
        let c = input[p.pos];
        let q = lex_advance(input, p);
        lemma_ident_pos(input, p);
        lemma_digits_pos(input, p);
        if q.pos < input.len() {
            let q2 = lex_advance(input, q);
            lemma_line_comment_pos(input, q2);
            lemma_block_comment_pos(input, q2);
        }
        lemma_string_body_pos(input, q);
    }
}

/// `r` with `pre` put in front of the tokens it reads.
pub open spec fn prepend_tokens(pre: Seq<SpecToken>, r: Result<(Seq<SpecToken>, LexPos), LexErr>) -> Result<(Seq<SpecToken>, LexPos), LexErr> {
    match r {
        Ok((ts, q)) => Ok((pre + ts, q)),
        Err(e) => Err(e),
    }
}

impl Lexer {
    /// Reads all tokens up to and including the end of the input, leaving
    /// comments out. The first error of the lexer ends the reading.
    pub fn tokenize(&mut self) -> (r: Result<Vec<Token>, Error>)
        requires
            old(self).wf(),
        ensures
            final(self).wf(),
            final(self).chars() == old(self).chars(),
            match spec_tokenize(old(self).chars(), old(self)@) {
                Ok((ts, q)) => r matches Ok(v) && tokens_view(v@) == ts && final(self)@ == q,
                Err(e) => r matches Err(err) && reports(err, e) && final(self)@ == e.after,
            },
    {
        let mut tokens: Vec<Token> = Vec::new();
        let ghost start = self@;
        proof {
            assert(tokens_view(tokens@) =~= Seq::<SpecToken>::empty());
            match spec_tokenize(self.chars(), start) {
                Ok((ts, q)) => {
                    assert(Seq::<SpecToken>::empty() + ts =~= ts);
                },
                Err(_) => {},
            }
        }
        loop
            invariant
                self.wf(),
                self.chars() == old(self).chars(),
                start == old(self)@,
                spec_tokenize(self.chars(), start) == prepend_tokens(tokens_view(tokens@), spec_tokenize(self.chars(), self@)),
            decreases self.chars().len() - self@.pos,
        {
            let ghost cur = self@;
            let ghost before = tokens_view(tokens@);
            proof {
                lemma_next_token_advances(self.chars(), cur);
            }
            let tok = self.next_token();
            match tok {
                Err(e) => {
                    return Err(e);
                },
                Ok(t) => {
                    let is_eof = match t.token_type {
                        TokenKind::EOF => true,
                        _ => false,
                    };
                    let is_comment = match t.token_type {
                        TokenKind::Comment(_) => true,
                        _ => false,
                    };
                    if is_eof {
                        let ghost tv = t@;
                        tokens.push(t);
                        proof {
                            assert(tokens_view(tokens@) =~= before + seq![tv]);
                        }
                        return Ok(tokens);
                    }
                    if !is_comment {
                        let ghost tv = t@;
                        tokens.push(t);
                        proof {
                            assert(tokens_view(tokens@) =~= before + seq![tv]);
                            match spec_tokenize(self.chars(), self@) {
                                Ok((ts, q)) => {
                                    assert(before + (seq![tv] + ts) =~= (before + seq![tv]) + ts);
                                },
                                Err(_) => {},
                            }
                        }
                    }
                },
            }
        }
    }
}

/// A successful reading of all tokens from a position within the input
/// ends with the end-of-input token.
pub proof fn lemma_tokenize_ends_with_eof(input: Seq<char>, p: LexPos)
    requires
        0 <= p.pos <= input.len(),
    ensures
        spec_tokenize(input, p) matches Ok((ts, _)) ==> ts.len() > 0 && ts[ts.len() - 1].kind is EOF,
    decreases input.len() - p.pos,
{
    lemma_next_token_advances(input, p);
    match spec_next_token(input, p) {
        Err(_) => {},
        Ok((t, q)) => {
            if t.kind is EOF {
            } else {
                lemma_tokenize_ends_with_eof(input, q);
            }
        },
    }
}

/// What tokenizing gives holds no comment, and no token before the last
/// is the end of input.
pub proof fn lemma_tokenize_no_inner_eof_or_comment(input: Seq<char>, p: LexPos)
    requires
        0 <= p.pos <= input.len(),
    ensures
        spec_tokenize(input, p) matches Ok((ts, _)) ==> forall|i: int| 0 <= i < ts.len() ==>
            !((#[trigger] ts[i]).kind is Comment) && (i < ts.len() - 1 ==> !(ts[i].kind is EOF)),
    decreases input.len() - p.pos,
{
    lemma_next_token_advances(input, p);
    match spec_next_token(input, p) {
        Err(_) => {},
        Ok((t, q)) => {
            if !(t.kind is EOF) && q.pos > p.pos && q.pos <= input.len() {
                lemma_tokenize_no_inner_eof_or_comment(input, q);
                lemma_tokenize_ends_with_eof(input, q);
                match spec_tokenize(input, q) {
                    Err(_) => {},
                    Ok((ts1, _)) => {
                        if !(t.kind is Comment) {
                            let ts = seq![t] + ts1;
                            assert forall|i: int| 0 <= i < ts.len() implies
                                !((#[trigger] ts[i]).kind is Comment) && (i < ts.len() - 1 ==> !(ts[i].kind is EOF)) by {
                                if i > 0 {
                                    assert(ts[i] == ts1[i - 1]);
                                }
                            }
                        }
                    },
                }
            }
        },
    }
}

} // verus!
