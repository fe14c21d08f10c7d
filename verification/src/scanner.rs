use vstd::prelude::*;

use crate::error::CompiletimeError;
use crate::text::{chars_of, string_from_chars};
use crate::token::{keyword, keyword_spec, Literal, LiteralView, Token, TokenType, TokenView, literal_option_view};

verus! {

/// `c` is an ASCII decimal digit.
pub open spec fn is_digit(c: char) -> bool {
    '0' <= c && c <= '9'
}

/// `c` is an ASCII letter or digit.
pub open spec fn is_alnum(c: char) -> bool {
    ('a' <= c && c <= 'z') || ('A' <= c && c <= 'Z') || is_digit(c)
}

/// The first index at or after `i` that holds no digit.
pub open spec fn digits_end(s: Seq<char>, i: int) -> int
    decreases s.len() - i,
{
    if 0 <= i < s.len() && is_digit(s[i]) {
        digits_end(s, i + 1)
    } else {
        i
    }
}

/// The first index at or after `i` that holds no letter or digit.
pub open spec fn alnum_end(s: Seq<char>, i: int) -> int
    decreases s.len() - i,
{
    if 0 <= i < s.len() && is_alnum(s[i]) {
        alnum_end(s, i + 1)
    } else {
        i
    }
}

/// The first index at or after `i` that holds a newline, or the end.
pub open spec fn line_end(s: Seq<char>, i: int) -> int
    decreases s.len() - i,
{
    if 0 <= i < s.len() && s[i] != '\n' {
        line_end(s, i + 1)
    } else {
        i
    }
}

/// The first index at or after `i` that holds a double quote, or the end.
pub open spec fn quote_end(s: Seq<char>, i: int) -> int
    decreases s.len() - i,
{
    if 0 <= i < s.len() && s[i] != '"' {
        quote_end(s, i + 1)
    } else {
        i
    }
}

/// The number of newlines in `s[i..j]`.
pub open spec fn newlines(s: Seq<char>, i: int, j: int) -> nat
    decreases j - i,
{
    if i < j {
        newlines(s, i, j - 1) + (if s[j - 1] == '\n' {
            1nat
        } else {
            0nat
        })
    } else {
        0
    }
}

/// Where a number literal ends, given the index just after its first digit:
/// more digits, then optionally a dot followed by at least one digit and
/// more digits.
pub open spec fn number_end(s: Seq<char>, i: int) -> int {
    let j = digits_end(s, i);
    if j + 1 < s.len() && s[j] == '.' && is_digit(s[j + 1]) {
        digits_end(s, j + 1)
    } else {
        j
    }
}

/// The token of type `t` spelled by `s[from..to]`.
pub open spec fn token_of(
    t: TokenType,
    s: Seq<char>,
    from: int,
    to: int,
    literal: Option<LiteralView>,
    line: nat,
) -> TokenView {
    TokenView { token_type: t, lexeme: s.subrange(from, to), literal, line }
}

/// What scanning at one position does.
pub enum Step {
    /// Adds a token and goes on at the index, on the line.
    Emit(TokenView, int, nat),
    /// Adds nothing and goes on at the index, on the line.
    Skip(int, nat),
    /// Stops with the error.
    Fail(CompiletimeError),
}

pub open spec fn single(s: Seq<char>, i: int, line: nat, t: TokenType) -> Step {
    Step::Emit(token_of(t, s, i, i + 1, None, line), i + 1, line)
}

/// A one-character token, or a two-character one where `=` follows.
pub open spec fn with_equal(
    s: Seq<char>,
    i: int,
    line: nat,
    two: TokenType,
    one: TokenType,
) -> Step {
    if i + 1 < s.len() && s[i + 1] == '=' {
        Step::Emit(token_of(two, s, i, i + 2, None, line), i + 2, line)
    } else {
        single(s, i, line, one)
    }
}

/// The scanning step that starts at index `i` on line `line`.
pub open spec fn step(s: Seq<char>, i: int, line: nat) -> Step {
    let c = s[i];
    if c == '(' {
        single(s, i, line, TokenType::LeftParen)
    } else if c == ')' {
        single(s, i, line, TokenType::RightParen)
    } else if c == '{' {
        single(s, i, line, TokenType::LeftBrace)
    } else if c == '}' {
        single(s, i, line, TokenType::RightBrace)
    } else if c == ',' {
        single(s, i, line, TokenType::Comma)
    } else if c == '.' {
        single(s, i, line, TokenType::Dot)
    } else if c == '-' {
        single(s, i, line, TokenType::Minus)
    } else if c == '+' {
        single(s, i, line, TokenType::Plus)
    } else if c == ';' {
        single(s, i, line, TokenType::Semicolon)
    } else if c == '*' {
        single(s, i, line, TokenType::Star)
    } else if c == '!' {
        with_equal(s, i, line, TokenType::BangEqual, TokenType::Bang)
    } else if c == '=' {
        with_equal(s, i, line, TokenType::EqualEqual, TokenType::Equal)
    } else if c == '<' {
        with_equal(s, i, line, TokenType::LessEqual, TokenType::Less)
    } else if c == '>' {
        with_equal(s, i, line, TokenType::GreaterEqual, TokenType::Greater)
    } else if c == '/' {
        if i + 1 < s.len() && s[i + 1] == '/' {
            Step::Skip(line_end(s, i + 2), line)
        } else {
            single(s, i, line, TokenType::Slash)
        }
    } else if c == ' ' || c == '\r' || c == '\t' {
        Step::Skip(i + 1, line)
    } else if c == '\n' {
        Step::Skip(i + 1, line + 1)
    } else if c == '"' {
        let j = quote_end(s, i + 1);
        let l = line + newlines(s, i + 1, j);
        if j >= s.len() {
            Step::Fail(CompiletimeError::StringError { line: l as usize })
        } else {
            Step::Emit(
                token_of(
                    TokenType::String,
                    s,
                    i,
                    j + 1,
                    Some(LiteralView::Str(s.subrange(i + 1, j))),
                    l,
                ),
                j + 1,
                l,
            )
        }
    } else if is_digit(c) {
        let j = number_end(s, i + 1);
        Step::Emit(
            token_of(
                TokenType::Number,
                s,
                i,
                j,
                Some(LiteralView::Number(s.subrange(i, j))),
                line,
            ),
            j,
            line,
        )
    } else if is_alnum(c) {
        let j = alnum_end(s, i + 1);
        let t = match keyword_spec(s.subrange(i, j)) {
            Some(k) => k,
            None => TokenType::Identifier,
        };
        Step::Emit(token_of(t, s, i, j, None, line), j, line)
    } else {
        Step::Fail(CompiletimeError::TokenError { line: line as usize })
    }
}

/// The end-of-file token on a line.
pub open spec fn eof_token(line: nat) -> TokenView {
    TokenView { token_type: TokenType::Eof, lexeme: Seq::empty(), literal: None, line }
}

/// The tokens of `s[i..]`, scanned from line `line`, closed by an end-of-file
/// token; or the first error.
pub open spec fn scan_from(s: Seq<char>, i: int, line: nat) -> Result<
    Seq<TokenView>,
    CompiletimeError,
>
    decreases s.len() - i,
{
    if i < 0 || i >= s.len() {
        Ok(seq![eof_token(line)])
    } else {
        match step(s, i, line) {
            Step::Emit(t, n, l) => {
                if i < n <= s.len() {
                    match scan_from(s, n, l) {
                        Ok(rest) => Ok(seq![t] + rest),
                        Err(e) => Err(e),
                    }
                } else {
                    Ok(Seq::empty())
                }
            },
            Step::Skip(n, l) => {
                if i < n <= s.len() {
                    scan_from(s, n, l)
                } else {
                    Ok(Seq::empty())
                }
            },
            Step::Fail(e) => Err(e),
        }
    }
}

/// The tokens of a whole source text, or the first error.
pub open spec fn scan(s: Seq<char>) -> Result<Seq<TokenView>, CompiletimeError> {
    scan_from(s, 0, 1)
}

pub open spec fn tokens_view(v: Seq<Token>) -> Seq<TokenView> {
    v.map_values(|t: Token| t@)
}

/// The value of a scanning result.
pub open spec fn scan_result_view(r: Result<Vec<Token>, CompiletimeError>) -> Result<
    Seq<TokenView>,
    CompiletimeError,
> {
    match r {
        Ok(v) => Ok(tokens_view(v@)),
        Err(e) => Err(e),
    }
}

pub open spec fn prepend(
    ts: Seq<TokenView>,
    r: Result<Seq<TokenView>, CompiletimeError>,
) -> Result<Seq<TokenView>, CompiletimeError> {
    match r {
        Ok(rest) => Ok(ts + rest),
        Err(e) => Err(e),
    }
}

/// A successful scan ends with an end-of-file token, and yields at most one
/// token per character plus that one.
pub proof fn lemma_scan_from_shape(s: Seq<char>, i: int, line: nat)
    requires
        0 <= i <= s.len(),
    ensures
        scan_from(s, i, line) matches Ok(ts) ==> {
            &&& ts.len() >= 1
            &&& ts.last().token_type == TokenType::Eof
            &&& ts.len() <= s.len() - i + 1
        },
    decreases s.len() - i,
{
    if i < s.len() {
        lemma_step_advances(s, i, line);
        match step(s, i, line) {
            Step::Emit(t, n, l) => {
                lemma_scan_from_shape(s, n, l);
            },
            Step::Skip(n, l) => {
                lemma_scan_from_shape(s, n, l);
            },
            Step::Fail(_) => {},
        }
    }
}

/// The tokens of a successful scan end with end of file, and there is at
/// most one more of them than characters.
pub proof fn law_scan_ends_with_eof(s: Seq<char>)
    ensures
        scan(s) matches Ok(ts) ==> {
            &&& ts.len() >= 1
            &&& ts.last().token_type == TokenType::Eof
            &&& ts.len() <= s.len() + 1
        },
{
    lemma_scan_from_shape(s, 0, 1);
}

pub proof fn lemma_newlines_bound(s: Seq<char>, i: int, j: int)
    ensures
        i <= j ==> newlines(s, i, j) <= j - i,
    decreases j - i,
{
    if i < j {
        lemma_newlines_bound(s, i, j - 1);
    }
}

pub proof fn lemma_ends(s: Seq<char>, i: int)
    requires
        0 <= i <= s.len(),
    ensures
        i <= digits_end(s, i) <= s.len(),
        i <= alnum_end(s, i) <= s.len(),
        i <= line_end(s, i) <= s.len(),
        i <= quote_end(s, i) <= s.len(),
    decreases s.len() - i,
{
    if i < s.len() {
        lemma_ends(s, i + 1);
    }
}

/// Every step moves forward and stays within the text; a line grows by no
/// more than the characters the step covers.
pub proof fn lemma_step_advances(s: Seq<char>, i: int, line: nat)
    requires
        0 <= i < s.len(),
    ensures
        match step(s, i, line) {
            Step::Emit(_, n, l) => i < n <= s.len() && line <= l && l <= line + (n - i),
            Step::Skip(n, l) => i < n <= s.len() && line <= l && l <= line + (n - i),
            Step::Fail(_) => true,
        },
{
    lemma_ends(s, i + 1);
    if i + 2 <= s.len() {
        lemma_ends(s, i + 2);
    }
    let j = digits_end(s, i + 1);
    if j + 1 < s.len() {
        lemma_ends(s, j + 1);
    }
    lemma_newlines_bound(s, i + 1, quote_end(s, i + 1));
}

/// Scans Lox source text into tokens.
pub struct Scanner {
    chars: Vec<char>,
    tokens: Vec<Token>,
    start: usize,
    current: usize,
    line: usize,
}

fn is_digit_char(c: char) -> (b: bool)
    ensures
        b == is_digit(c),
{
    c >= '0' && c <= '9'
}

fn is_alnum_char(c: char) -> (b: bool)
    ensures
        b == is_alnum(c),
{
    (c >= 'a' && c <= 'z') || (c >= 'A' && c <= 'Z') || is_digit_char(c)
}

impl Scanner {
    /// The characters being scanned.
    pub closed spec fn source(&self) -> Seq<char> {
        self.chars@
    }

    /// Nothing has been scanned yet.
    pub closed spec fn is_fresh(&self) -> bool {
        &&& self.tokens@.len() == 0
        &&& self.current == 0
        &&& self.start == 0
        &&& self.line == 1
    }

    pub fn new(source: &str) -> (s: Scanner)
        ensures
            s.source() == source@,
            s.is_fresh(),
    {
        Scanner { chars: chars_of(source), tokens: Vec::new(), start: 0, current: 0, line: 1 }
    }

    /// Scans the whole source: its tokens closed by an end-of-file token, or
    /// the first scanning error.
    pub fn scan_tokens(self) -> (r: Result<Vec<Token>, CompiletimeError>)
        requires
            self.is_fresh(),
            self.source().len() < usize::MAX,
        ensures
            scan_result_view(r) == scan(self.source()),
    {
        let ghost s = self.chars@;
        let mut this = self;
        assert(tokens_view(this.tokens@) =~= Seq::<TokenView>::empty());
        assert(prepend(tokens_view(this.tokens@), scan_from(s, 0, 1)) =~= scan_from(s, 0, 1));
        while this.current < this.chars.len()
            invariant
                this.chars@ == s,
                s == self.source(),
                s.len() < usize::MAX,
                this.current <= s.len(),
                1 <= this.line <= this.current + 1,
                scan(s) == prepend(
                    tokens_view(this.tokens@),
                    scan_from(s, this.current as int, this.line as nat),
                ),
            decreases s.len() - this.current,
        {
            this.start = this.current;
            let ghost old_tokens = tokens_view(this.tokens@);
            let ghost i = this.current as int;
            let ghost line = this.line as nat;
            proof {
                lemma_step_advances(s, i, line);
            }
            match this.scan_token() {
                Ok(()) => {
                    proof {
                        match step(s, i, line) {
                            Step::Emit(t, n, l) => {
                                assert(tokens_view(this.tokens@) =~= old_tokens.push(t));
                                if scan_from(s, n, l) is Ok {
                                    assert(old_tokens + (seq![t] + scan_from(s, n, l)->Ok_0)
                                        =~= old_tokens.push(t) + scan_from(s, n, l)->Ok_0);
                                }
                            },
                            _ => {},
                        }
                    }
                },
                Err(e) => {
                    assert(scan_from(s, i, line) == Err::<Seq<TokenView>, CompiletimeError>(e));
                    assert(scan(s) == prepend(old_tokens, scan_from(s, i, line)));
                    assert(scan(s) == Err::<Seq<TokenView>, CompiletimeError>(e));
                    return Err(e);
                },
            }
        }
        let line = this.line;
        let ghost before = tokens_view(this.tokens@);
        let eof = Token::new(TokenType::Eof, "", None, line);
        proof {
            reveal_strlit("");
            assert(eof.lexeme@ =~= Seq::<char>::empty());
        }
        this.tokens.push(eof);
        proof {
            assert(this.tokens@.last()@ == eof_token(line as nat));
            assert(tokens_view(this.tokens@) =~= before + seq![eof_token(line as nat)]);
        }
        Ok(this.tokens)
    }

    /// The character at `i`, or NUL past the end.
    fn char_at(&self, i: usize) -> (c: char)
        ensures
            i < self.chars@.len() ==> c == self.chars@[i as int],
            i >= self.chars@.len() ==> c == '\0',
    {
        if i < self.chars.len() {
            self.chars[i]
        } else {
            '\0'
        }
    }

    fn add_token(&mut self, token_type: TokenType, literal: Option<Literal>)
        requires
            old(self).start <= old(self).current <= old(self).chars@.len(),
        ensures
            final(self).chars@ == old(self).chars@,
            final(self).start == old(self).start,
            final(self).current == old(self).current,
            final(self).line == old(self).line,
            final(self).tokens@.len() == old(self).tokens@.len() + 1,
            tokens_view(final(self).tokens@) == tokens_view(old(self).tokens@).push(
                TokenView {
                    token_type,
                    lexeme: old(self).chars@.subrange(
                        old(self).start as int,
                        old(self).current as int,
                    ),
                    literal: literal_option_view(literal),
                    line: old(self).line as nat,
                },
            ),
    {
        let text = string_from_chars(&self.chars, self.start, self.current);
        let ghost before = tokens_view(self.tokens@);
        self.tokens.push(Token { token_type, lexeme: text, literal, line: self.line });
        assert(tokens_view(self.tokens@) =~= before.push(self.tokens@.last()@));
    }

    /// One scanning step from `current`.
    fn scan_token(&mut self) -> (r: Result<(), CompiletimeError>)
        requires
            old(self).start == old(self).current,
            old(self).current < old(self).chars@.len(),
            old(self).chars@.len() < usize::MAX,
            1 <= old(self).line <= old(self).current + 1,
        ensures
            final(self).chars@ == old(self).chars@,
            match step(old(self).chars@, old(self).current as int, old(self).line as nat) {
                Step::Emit(t, n, l) => {
                    &&& r is Ok
                    &&& tokens_view(final(self).tokens@) == tokens_view(old(self).tokens@).push(t)
                    &&& final(self).current == n
                    &&& final(self).line == l
                },
                Step::Skip(n, l) => {
                    &&& r is Ok
                    &&& final(self).tokens@ == old(self).tokens@
                    &&& final(self).current == n
                    &&& final(self).line == l
                },
                Step::Fail(e) => r == Err::<(), CompiletimeError>(e),
            },
    {
        let ghost s = self.chars@;
        let ghost i = self.current as int;
        let ghost line0 = self.line as nat;
        proof {
            lemma_step_advances(s, i, line0);
        }
        let ghost toks = self.tokens@;
        let c = self.chars[self.current];
        self.current = self.current + 1;
        if c == '(' {
            self.add_token(TokenType::LeftParen, None);
        } else if c == ')' {
            self.add_token(TokenType::RightParen, None);
        } else if c == '{' {
            self.add_token(TokenType::LeftBrace, None);
        } else if c == '}' {
            self.add_token(TokenType::RightBrace, None);
        } else if c == ',' {
            self.add_token(TokenType::Comma, None);
        } else if c == '.' {
            self.add_token(TokenType::Dot, None);
        } else if c == '-' {
            self.add_token(TokenType::Minus, None);
        } else if c == '+' {
            self.add_token(TokenType::Plus, None);
        } else if c == ';' {
            self.add_token(TokenType::Semicolon, None);
        } else if c == '*' {
            self.add_token(TokenType::Star, None);
        } else if c == '!' || c == '=' || c == '<' || c == '>' {
            let followed = self.match_next('=');
            let t = if c == '!' {
                if followed {
                    TokenType::BangEqual
                } else {
                    TokenType::Bang
                }
            } else if c == '=' {
                if followed {
                    TokenType::EqualEqual
                } else {
                    TokenType::Equal
                }
            } else if c == '<' {
                if followed {
                    TokenType::LessEqual
                } else {
                    TokenType::Less
                }
            } else {
                if followed {
                    TokenType::GreaterEqual
                } else {
                    TokenType::Greater
                }
            };
            self.add_token(t, None);
        } else if c == '/' {
            if self.match_next('/') {
                while self.char_at(self.current) != '\n' && self.current < self.chars.len()
                    invariant
                        self.chars@ == s,
                        self.tokens@ == toks,
                        self.line == line0,
                        i + 2 <= self.current <= s.len(),
                        line_end(s, self.current as int) == line_end(s, i + 2),
                    decreases s.len() - self.current,
                {
                    self.current = self.current + 1;
                }
            } else {
                self.add_token(TokenType::Slash, None);
            }
        } else if c == ' ' || c == '\r' || c == '\t' {
        } else if c == '\n' {
            self.line = self.line + 1;
        } else if c == '"' {
            return self.string();
        } else if is_digit_char(c) {
            self.number();
        } else if is_alnum_char(c) {
            self.identifier();
        } else {
            return Err(CompiletimeError::TokenError { line: self.line });
        }
        Ok(())
    }

    fn match_next(&mut self, expected: char) -> (b: bool)
        requires
            old(self).current <= old(self).chars@.len(),
        ensures
            final(self).chars@ == old(self).chars@,
            final(self).tokens@ == old(self).tokens@,
            final(self).start == old(self).start,
            final(self).line == old(self).line,
            b == (old(self).current < old(self).chars@.len() && old(self).chars@[old(
                self,
            ).current as int] == expected),
            final(self).current == old(self).current + (if b {
                1int
            } else {
                0int
            }),
    {
        if self.current >= self.chars.len() {
            return false;
        }
        if self.chars[self.current] != expected {
            return false;
        }
        self.current = self.current + 1;
        true
    }

    /// Scans a string literal whose opening quote was just consumed.
    fn string(&mut self) -> (r: Result<(), CompiletimeError>)
        requires
            old(self).current == old(self).start + 1,
            old(self).current <= old(self).chars@.len(),
            old(self).chars@[old(self).start as int] == '"',
            old(self).chars@.len() < usize::MAX,
            1 <= old(self).line <= old(self).current,
        ensures
            final(self).chars@ == old(self).chars@,
            match step(old(self).chars@, old(self).start as int, old(self).line as nat) {
                Step::Emit(t, n, l) => {
                    &&& r is Ok
                    &&& tokens_view(final(self).tokens@) == tokens_view(old(self).tokens@).push(t)
                    &&& final(self).current == n
                    &&& final(self).line == l
                },
                Step::Fail(e) => r == Err::<(), CompiletimeError>(e),
                _ => false,
            },
    {
        let ghost s = self.chars@;
        let ghost i = self.start as int;
        let ghost line0 = self.line as nat;
        let ghost toks = self.tokens@;
        proof {
            lemma_ends(s, i + 1);
        }
        while self.char_at(self.current) != '"' && self.current < self.chars.len()
            invariant
                self.chars@ == s,
                self.tokens@ == toks,
                s.len() < usize::MAX,
                self.start == i,
                i + 1 <= self.current <= s.len(),
                quote_end(s, self.current as int) == quote_end(s, i + 1),
                self.line == line0 + newlines(s, i + 1, self.current as int),
                self.line <= self.current,
            decreases s.len() - self.current,
        {
            if self.chars[self.current] == '\n' {
                self.line = self.line + 1;
            }
            self.current = self.current + 1;
        }
        if self.current >= self.chars.len() {
            return Err(CompiletimeError::StringError { line: self.line });
        }
        self.current = self.current + 1;
        let value = string_from_chars(&self.chars, self.start + 1, self.current - 1);
        self.add_token(TokenType::String, Some(Literal::String(value)));
        Ok(())
    }

    /// Scans a number literal whose first digit was just consumed.
    fn number(&mut self)
        requires
            old(self).current == old(self).start + 1,
            old(self).current <= old(self).chars@.len(),
            is_digit(old(self).chars@[old(self).start as int]),
            old(self).chars@.len() < usize::MAX,
        ensures
            final(self).chars@ == old(self).chars@,
            final(self).line == old(self).line,
            final(self).current == number_end(old(self).chars@, old(self).current as int),
            tokens_view(final(self).tokens@) == tokens_view(old(self).tokens@).push(
                token_of(
                    TokenType::Number,
                    old(self).chars@,
                    old(self).start as int,
                    final(self).current as int,
                    Some(
                        LiteralView::Number(
                            old(self).chars@.subrange(
                                old(self).start as int,
                                final(self).current as int,
                            ),
                        ),
                    ),
                    old(self).line as nat,
                ),
            ),
    {
        let ghost s = self.chars@;
        let ghost i1 = self.current as int;
        let ghost toks = self.tokens@;
        let ghost line0 = self.line;
        let ghost st = self.start;
        proof {
            lemma_ends(s, i1);
        }
        while is_digit_char(self.char_at(self.current))
            invariant
                self.chars@ == s,
                self.tokens@ == toks,
                self.line == line0,
                self.start == st,
                s.len() < usize::MAX,
                i1 <= self.current <= s.len(),
                self.start < self.current,
                digits_end(s, self.current as int) == digits_end(s, i1),
            decreases s.len() - self.current,
        {
            self.current = self.current + 1;
        }
        let ghost j = self.current as int;
        if self.char_at(self.current) == '.' && self.current + 1 < self.chars.len()
            && is_digit_char(self.chars[self.current + 1]) {
            self.current = self.current + 1;
            proof {
                lemma_ends(s, j + 1);
            }
            while is_digit_char(self.char_at(self.current))
                invariant
                    self.chars@ == s,
                    self.tokens@ == toks,
                    self.line == line0,
                    self.start == st,
                    s.len() < usize::MAX,
                    j + 1 <= self.current <= s.len(),
                    self.start < self.current,
                    digits_end(s, self.current as int) == digits_end(s, j + 1),
                decreases s.len() - self.current,
            {
                self.current = self.current + 1;
            }
        }
        let text = string_from_chars(&self.chars, self.start, self.current);
        self.add_token(TokenType::Number, Some(Literal::Number(text)));
    }

    /// Scans an identifier or a keyword whose first character was just
    /// consumed.
    fn identifier(&mut self)
        requires
            old(self).current == old(self).start + 1,
            old(self).current <= old(self).chars@.len(),
            old(self).chars@.len() < usize::MAX,
        ensures
            final(self).chars@ == old(self).chars@,
            final(self).line == old(self).line,
            final(self).current == alnum_end(old(self).chars@, old(self).current as int),
            tokens_view(final(self).tokens@) == tokens_view(old(self).tokens@).push(
                token_of(
                    match keyword_spec(
                        old(self).chars@.subrange(
                            old(self).start as int,
                            final(self).current as int,
                        ),
                    ) {
                        Some(k) => k,
                        None => TokenType::Identifier,
                    },
                    old(self).chars@,
                    old(self).start as int,
                    final(self).current as int,
                    None,
                    old(self).line as nat,
                ),
            ),
    {
        let ghost s = self.chars@;
        let ghost i1 = self.current as int;
        let ghost toks = self.tokens@;
        let ghost line0 = self.line;
        let ghost st = self.start;
        proof {
            lemma_ends(s, i1);
        }
        while is_alnum_char(self.char_at(self.current))
            invariant
                self.chars@ == s,
                self.tokens@ == toks,
                self.line == line0,
                self.start == st,
                s.len() < usize::MAX,
                i1 <= self.current <= s.len(),
                self.start < self.current,
                alnum_end(s, self.current as int) == alnum_end(s, i1),
            decreases s.len() - self.current,
        {
            self.current = self.current + 1;
        }
        let t = match keyword(&self.chars, self.start, self.current) {
            Some(k) => k,
            None => TokenType::Identifier,
        };
        self.add_token(t, None);
    }
}

} // verus!
