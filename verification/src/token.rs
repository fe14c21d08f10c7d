use vstd::prelude::*;

use crate::text::{push_quoted, push_str, quoted};
use crate::value::LoxNumber;

verus! {

/// The kinds of tokens of the Lox language.
#[derive(Clone, Copy, Debug, PartialEq, Eq, Structural)]
pub enum TokenType {
    // Single-character tokens.
    LeftParen,
    RightParen,
    LeftBrace,
    RightBrace,
    Comma,
    Dot,
    Minus,
    Plus,
    Semicolon,
    Slash,
    Star,
    // One or two character tokens.
    Bang,
    BangEqual,
    Equal,
    EqualEqual,
    Greater,
    GreaterEqual,
    Less,
    LessEqual,
    // Literals.
    Identifier,
    String,
    Number,
    // Keywords.
    And,
    Class,
    Else,
    False,
    Fun,
    For,
    If,
    Nil,
    Or,
    Print,
    Return,
    Super,
    This,
    True,
    Var,
    While,
    Eof,
}

/// The name under which a token type is printed: the variant's own name.
pub open spec fn type_name_spec(t: TokenType) -> Seq<char> {
    match t {
        TokenType::LeftParen => "LeftParen"@,
        TokenType::RightParen => "RightParen"@,
        TokenType::LeftBrace => "LeftBrace"@,
        TokenType::RightBrace => "RightBrace"@,
        TokenType::Comma => "Comma"@,
        TokenType::Dot => "Dot"@,
        TokenType::Minus => "Minus"@,
        TokenType::Plus => "Plus"@,
        TokenType::Semicolon => "Semicolon"@,
        TokenType::Slash => "Slash"@,
        TokenType::Star => "Star"@,
        TokenType::Bang => "Bang"@,
        TokenType::BangEqual => "BangEqual"@,
        TokenType::Equal => "Equal"@,
        TokenType::EqualEqual => "EqualEqual"@,
        TokenType::Greater => "Greater"@,
        TokenType::GreaterEqual => "GreaterEqual"@,
        TokenType::Less => "Less"@,
        TokenType::LessEqual => "LessEqual"@,
        TokenType::Identifier => "Identifier"@,
        TokenType::String => "String"@,
        TokenType::Number => "Number"@,
        TokenType::And => "And"@,
        TokenType::Class => "Class"@,
        TokenType::Else => "Else"@,
        TokenType::False => "False"@,
        TokenType::Fun => "Fun"@,
        TokenType::For => "For"@,
        TokenType::If => "If"@,
        TokenType::Nil => "Nil"@,
        TokenType::Or => "Or"@,
        TokenType::Print => "Print"@,
        TokenType::Return => "Return"@,
        TokenType::Super => "Super"@,
        TokenType::This => "This"@,
        TokenType::True => "True"@,
        TokenType::Var => "Var"@,
        TokenType::While => "While"@,
        TokenType::Eof => "Eof"@,
    }
}

impl TokenType {
    /// The printed name of the token type (the variant's name).
    pub fn name(&self) -> (s: String)
        ensures
            s@ == type_name_spec(*self),
    {
        match self {
            TokenType::LeftParen => String::from_str("LeftParen"),
            TokenType::RightParen => String::from_str("RightParen"),
            TokenType::LeftBrace => String::from_str("LeftBrace"),
            TokenType::RightBrace => String::from_str("RightBrace"),
            TokenType::Comma => String::from_str("Comma"),
            TokenType::Dot => String::from_str("Dot"),
            TokenType::Minus => String::from_str("Minus"),
            TokenType::Plus => String::from_str("Plus"),
            TokenType::Semicolon => String::from_str("Semicolon"),
            TokenType::Slash => String::from_str("Slash"),
            TokenType::Star => String::from_str("Star"),
            TokenType::Bang => String::from_str("Bang"),
            TokenType::BangEqual => String::from_str("BangEqual"),
            TokenType::Equal => String::from_str("Equal"),
            TokenType::EqualEqual => String::from_str("EqualEqual"),
            TokenType::Greater => String::from_str("Greater"),
            TokenType::GreaterEqual => String::from_str("GreaterEqual"),
            TokenType::Less => String::from_str("Less"),
            TokenType::LessEqual => String::from_str("LessEqual"),
            TokenType::Identifier => String::from_str("Identifier"),
            TokenType::String => String::from_str("String"),
            TokenType::Number => String::from_str("Number"),
            TokenType::And => String::from_str("And"),
            TokenType::Class => String::from_str("Class"),
            TokenType::Else => String::from_str("Else"),
            TokenType::False => String::from_str("False"),
            TokenType::Fun => String::from_str("Fun"),
            TokenType::For => String::from_str("For"),
            TokenType::If => String::from_str("If"),
            TokenType::Nil => String::from_str("Nil"),
            TokenType::Or => String::from_str("Or"),
            TokenType::Print => String::from_str("Print"),
            TokenType::Return => String::from_str("Return"),
            TokenType::Super => String::from_str("Super"),
            TokenType::This => String::from_str("This"),
            TokenType::True => String::from_str("True"),
            TokenType::Var => String::from_str("Var"),
            TokenType::While => String::from_str("While"),
            TokenType::Eof => String::from_str("Eof"),
        }
    }
}

/// The reserved words of Lox and the token type each one scans to.
pub open spec fn keyword_spec(s: Seq<char>) -> Option<TokenType> {
    if s == seq!['a', 'n', 'd'] {
        Some(TokenType::And)
    } else if s == seq!['c', 'l', 'a', 's', 's'] {
        Some(TokenType::Class)
    } else if s == seq!['e', 'l', 's', 'e'] {
        Some(TokenType::Else)
    } else if s == seq!['f', 'a', 'l', 's', 'e'] {
        Some(TokenType::False)
    } else if s == seq!['f', 'o', 'r'] {
        Some(TokenType::For)
    } else if s == seq!['f', 'u', 'n'] {
        Some(TokenType::Fun)
    } else if s == seq!['i', 'f'] {
        Some(TokenType::If)
    } else if s == seq!['n', 'i', 'l'] {
        Some(TokenType::Nil)
    } else if s == seq!['o', 'r'] {
        Some(TokenType::Or)
    } else if s == seq!['p', 'r', 'i', 'n', 't'] {
        Some(TokenType::Print)
    } else if s == seq!['r', 'e', 't', 'u', 'r', 'n'] {
        Some(TokenType::Return)
    } else if s == seq!['s', 'u', 'p', 'e', 'r'] {
        Some(TokenType::Super)
    } else if s == seq!['t', 'h', 'i', 's'] {
        Some(TokenType::This)
    } else if s == seq!['t', 'r', 'u', 'e'] {
        Some(TokenType::True)
    } else if s == seq!['v', 'a', 'r'] {
        Some(TokenType::Var)
    } else if s == seq!['w', 'h', 'i', 'l', 'e'] {
        Some(TokenType::While)
    } else {
        None
    }
}

/// Whether `chars[from..to]` spells the word `w`.
fn spells(chars: &Vec<char>, from: usize, to: usize, w: &[char]) -> (b: bool)
    requires
        from <= to <= chars@.len(),
    ensures
        b == (chars@.subrange(from as int, to as int) == w@),
{
    if to - from != w.len() {
        return false;
    }
    let mut i: usize = 0;
    while i < w.len()
        invariant
            from <= to <= chars@.len(),
            to - from == w@.len(),
            i <= w@.len(),
            forall|j: int| 0 <= j < i ==> chars@[from + j] == w@[j],
        decreases w@.len() - i,
    {
        if chars[from + i] != w[i] {
            assert(chars@.subrange(from as int, to as int)[i as int] != w@[i as int]);
            return false;
        }
        i = i + 1;
    }
    assert(chars@.subrange(from as int, to as int) =~= w@);
    true
}

/// Looks up the reserved word spelled by `chars[from..to]`.
pub fn keyword(chars: &Vec<char>, from: usize, to: usize) -> (r: Option<TokenType>)
    requires
        from <= to <= chars@.len(),
    ensures
        r == keyword_spec(chars@.subrange(from as int, to as int)),
{
    let ghost s = chars@.subrange(from as int, to as int);
    if spells(chars, from, to, &['a', 'n', 'd']) {
        return Some(TokenType::And);
    }
    if spells(chars, from, to, &['c', 'l', 'a', 's', 's']) {
        return Some(TokenType::Class);
    }
    if spells(chars, from, to, &['e', 'l', 's', 'e']) {
        return Some(TokenType::Else);
    }
    if spells(chars, from, to, &['f', 'a', 'l', 's', 'e']) {
        return Some(TokenType::False);
    }
    if spells(chars, from, to, &['f', 'o', 'r']) {
        return Some(TokenType::For);
    }
    if spells(chars, from, to, &['f', 'u', 'n']) {
        return Some(TokenType::Fun);
    }
    if spells(chars, from, to, &['i', 'f']) {
        return Some(TokenType::If);
    }
    if spells(chars, from, to, &['n', 'i', 'l']) {
        return Some(TokenType::Nil);
    }
    if spells(chars, from, to, &['o', 'r']) {
        return Some(TokenType::Or);
    }
    if spells(chars, from, to, &['p', 'r', 'i', 'n', 't']) {
        return Some(TokenType::Print);
    }
    if spells(chars, from, to, &['r', 'e', 't', 'u', 'r', 'n']) {
        return Some(TokenType::Return);
    }
    if spells(chars, from, to, &['s', 'u', 'p', 'e', 'r']) {
        return Some(TokenType::Super);
    }
    if spells(chars, from, to, &['t', 'h', 'i', 's']) {
        return Some(TokenType::This);
    }
    if spells(chars, from, to, &['t', 'r', 'u', 'e']) {
        return Some(TokenType::True);
    }
    if spells(chars, from, to, &['v', 'a', 'r']) {
        return Some(TokenType::Var);
    }
    if spells(chars, from, to, &['w', 'h', 'i', 'l', 'e']) {
        return Some(TokenType::While);
    }
    None
}

/// A literal value carried by a token or an expression. A number is kept as
/// the decimal text it was written with; its numeric value is given by the
/// number type the interpreter runs with.
#[derive(Debug)]
pub enum Literal {
    Number(String),
    String(String),
    Bool(bool),
    Nil,
}

impl Literal {
    /// A copy of the literal.
    pub fn duplicate(&self) -> (r: Literal)
        ensures
            r == *self,
    {
        match self {
            Literal::Number(s) => Literal::Number(s.clone()),
            Literal::String(s) => Literal::String(s.clone()),
            Literal::Bool(b) => Literal::Bool(*b),
            Literal::Nil => Literal::Nil,
        }
    }

    /// The literal of a boolean.
    pub fn from_bool(value: bool) -> (r: Literal)
        ensures
            r == Literal::Bool(value),
    {
        Literal::Bool(value)
    }
}

/// The mathematical value of a literal.
pub enum LiteralView {
    Number(Seq<char>),
    Str(Seq<char>),
    Bool(bool),
    Nil,
}

/// Whether two literals are equal: numbers as the number type `N` compares
/// the numbers their texts read as, strings and booleans by value, `nil`
/// with `nil`; literals of different kinds are unequal.
pub open spec fn literal_equal<N: LoxNumber>(a: LiteralView, b: LiteralView) -> bool {
    match (a, b) {
        (LiteralView::Number(x), LiteralView::Number(y)) => N::literal_spec(x).equals_spec(
            N::literal_spec(y),
        ),
        (LiteralView::Str(x), LiteralView::Str(y)) => x == y,
        (LiteralView::Bool(x), LiteralView::Bool(y)) => x == y,
        (LiteralView::Nil, LiteralView::Nil) => true,
        _ => false,
    }
}

impl Literal {
    /// Whether this literal equals `other`, as `literal_equal` says.
    pub fn equals<N: LoxNumber>(&self, other: &Literal) -> (r: bool)
        ensures
            r == literal_equal::<N>(self@, other@),
    {
        match (self, other) {
            (Literal::Number(x), Literal::Number(y)) => N::from_literal(x.as_str()).equals(
                N::from_literal(y.as_str()),
            ),
            (Literal::String(x), Literal::String(y)) => *x == *y,
            (Literal::Bool(x), Literal::Bool(y)) => *x == *y,
            (Literal::Nil, Literal::Nil) => true,
            _ => false,
        }
    }
}

impl View for Literal {
    type V = LiteralView;

    open spec fn view(&self) -> LiteralView {
        match self {
            Literal::Number(s) => LiteralView::Number(s@),
            Literal::String(s) => LiteralView::Str(s@),
            Literal::Bool(b) => LiteralView::Bool(*b),
            Literal::Nil => LiteralView::Nil,
        }
    }
}

pub open spec fn literal_option_view(l: Option<Literal>) -> Option<LiteralView> {
    match l {
        Some(l) => Some(l@),
        None => None,
    }
}

/// The mathematical value of a token.
pub struct TokenView {
    pub token_type: TokenType,
    pub lexeme: Seq<char>,
    pub literal: Option<LiteralView>,
    pub line: nat,
}

/// Whether two literals are the same.
pub fn same_literal(a: &Option<Literal>, b: &Option<Literal>) -> (r: bool)
    ensures
        r == (literal_option_view(*a) == literal_option_view(*b)),
{
    match (a, b) {
        (None, None) => true,
        (Some(Literal::Number(x)), Some(Literal::Number(y))) => *x == *y,
        (Some(Literal::String(x)), Some(Literal::String(y))) => *x == *y,
        (Some(Literal::Bool(x)), Some(Literal::Bool(y))) => *x == *y,
        (Some(Literal::Nil), Some(Literal::Nil)) => true,
        _ => false,
    }
}

/// Whether two tokens are the same: type, lexeme, literal and line.
pub fn same_token(a: &Token, b: &Token) -> (r: bool)
    ensures
        r == (a@ == b@),
{
    a.token_type == b.token_type && a.lexeme == b.lexeme && same_literal(&a.literal, &b.literal)
        && a.line == b.line
}

impl View for Token {
    type V = TokenView;

    open spec fn view(&self) -> TokenView {
        TokenView {
            token_type: self.token_type,
            lexeme: self.lexeme@,
            literal: literal_option_view(self.literal),
            line: self.line as nat,
        }
    }
}

/// A lexical token: its type, the text it was scanned from, the literal value
/// it carries, and the line it ends on.
#[derive(Debug)]
pub struct Token {
    pub token_type: TokenType,
    pub lexeme: String,
    pub literal: Option<Literal>,
    pub line: usize,
}

impl Token {
    pub fn new(token_type: TokenType, lexeme: &str, literal: Option<Literal>, line: usize) -> (t:
        Token)
        ensures
            t.token_type == token_type,
            t.lexeme@ == lexeme@,
            t.literal == literal,
            t.line == line,
    {
        Token { token_type, lexeme: String::from_str(lexeme), literal, line }
    }

    /// A copy of the token.
    pub fn duplicate(&self) -> (r: Token)
        ensures
            r == *self,
    {
        let literal = match &self.literal {
            Some(l) => Some(l.duplicate()),
            None => None,
        };
        Token {
            token_type: self.token_type,
            lexeme: self.lexeme.clone(),
            literal,
            line: self.line,
        }
    }
}

/// How an optional literal shows in a token's text, where that does not
/// depend on the number type: `None`, `Some(String("..."))`, `Some(Bool(..))`,
/// `Some(Nil)`.
pub open spec fn literal_debug_spec<N: LoxNumber>(l: Option<LiteralView>) -> Option<Seq<char>> {
    match l {
        None => Some("None"@),
        Some(LiteralView::Str(s)) => Some("Some(String("@ + quoted(s) + "))"@),
        Some(LiteralView::Bool(b)) => Some(
            if b {
                "Some(Bool(true))"@
            } else {
                "Some(Bool(false))"@
            },
        ),
        Some(LiteralView::Nil) => Some("Some(Nil)"@),
        Some(LiteralView::Number(t)) => Some(
            "Some(Number("@ + N::literal_spec(t).debug_text_spec() + "))"@,
        ),
    }
}

impl Token {
    /// The token as text: its type, its lexeme and its literal in debugging
    /// form, separated by spaces. A number literal shows as the number type
    /// `N` shows it.
    pub fn to_string<N: LoxNumber>(&self) -> (s: String)
        ensures
            literal_debug_spec::<N>(self@.literal) matches Some(d) ==> s@ == type_name_spec(
                self.token_type,
            ) + " "@ + self@.lexeme + " "@ + d,
    {
        let mut s = self.token_type.name();
        push_str(&mut s, " ");
        push_str(&mut s, self.lexeme.as_str());
        push_str(&mut s, " ");
        match &self.literal {
            None => push_str(&mut s, "None"),
            Some(Literal::String(v)) => {
                push_str(&mut s, "Some(String(");
                push_quoted(&mut s, v);
                push_str(&mut s, "))");
                proof {
                    assert(s@ =~= type_name_spec(self.token_type) + " "@ + self@.lexeme + " "@ + (
                    "Some(String("@ + quoted(v@) + "))"@));
                }
            },
            Some(Literal::Bool(b)) => {
                if *b {
                    push_str(&mut s, "Some(Bool(true))");
                } else {
                    push_str(&mut s, "Some(Bool(false))");
                }
            },
            Some(Literal::Nil) => push_str(&mut s, "Some(Nil)"),
            Some(Literal::Number(text)) => {
                push_str(&mut s, "Some(Number(");
                let n = N::from_literal(text.as_str());
                let t = n.debug_text();
                push_str(&mut s, t.as_str());
                push_str(&mut s, "))");
                proof {
                    assert(s@ =~= type_name_spec(self.token_type) + " "@ + self@.lexeme + " "@ + (
                    "Some(Number("@ + N::literal_spec(text@).debug_text_spec() + "))"@));
                }
            },
        }
        s
    }
}

} // verus!
