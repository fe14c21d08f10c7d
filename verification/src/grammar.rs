use vstd::prelude::*;

use crate::error::CompiletimeError;
use crate::expression::ExprView;
use crate::stmt::StmtView;
use crate::token::{LiteralView, TokenType, TokenView};

verus! {

// What parsing a list of tokens gives, stated as functions from where
// parsing stands to where it stands afterwards and what it read. Each
// function reads one construct of the grammar, in the order the parser
// reads it; a recursive call on a position the tokens before it leave is
// guarded by the fact that parsing only moves forward.

/// A syntax error: the line and lexeme of the token it was found at, and
/// its message.
pub struct SyntaxError {
    pub line: nat,
    pub message: Seq<char>,
    pub lexeme: Seq<char>,
}

/// Where parsing stands: the position of the next token, the next id to
/// hand out, and the errors recorded so far (`None` for an error that is not
/// a syntax error).
#[verifier::ext_equal]
pub struct ParseState {
    pub pos: int,
    pub id: int,
    pub errors: Seq<Option<SyntaxError>>,
}

/// The syntax error a compile-time error stands for, where it is one.
pub open spec fn error_view(e: CompiletimeError) -> Option<SyntaxError> {
    match e {
        CompiletimeError::ParseError { line, message, lexeme } => Some(
            SyntaxError { line: line as nat, message: message@, lexeme: lexeme@ },
        ),
        _ => None,
    }
}

/// Whether the next token is `t`; the end of file is never matched.
pub open spec fn next_is(ts: Seq<TokenView>, pos: int, t: TokenType) -> bool {
    0 <= pos < ts.len() - 1 && ts[pos].token_type != TokenType::Eof && ts[pos].token_type == t
}

/// Whether the next token is one of `types`; the end of file is never
/// matched.
pub open spec fn next_in(ts: Seq<TokenView>, pos: int, types: Seq<TokenType>) -> bool {
    0 <= pos < ts.len() - 1 && ts[pos].token_type != TokenType::Eof && types.contains(
        ts[pos].token_type,
    )
}

/// Whether the next token is the end of file.
pub open spec fn ended_at(ts: Seq<TokenView>, pos: int) -> bool {
    ts[pos].token_type == TokenType::Eof
}

/// A syntax error with message `message` at the token at `pos`.
pub open spec fn error_at(ts: Seq<TokenView>, pos: int, message: Seq<char>) -> SyntaxError {
    SyntaxError { line: ts[pos].line, message, lexeme: ts[pos].lexeme }
}

/// One token further.
pub open spec fn advance(s: ParseState) -> ParseState {
    ParseState { pos: s.pos + 1, id: s.id, errors: s.errors }
}

/// The next id handed out.
pub open spec fn take_id(s: ParseState) -> ParseState {
    ParseState { pos: s.pos, id: s.id + 1, errors: s.errors }
}

/// With the error `e` recorded.
pub open spec fn record(s: ParseState, e: SyntaxError) -> ParseState {
    ParseState { pos: s.pos, id: s.id, errors: s.errors.push(Some(e)) }
}

/// Moved to position `pos`.
pub open spec fn moved(s: ParseState, pos: int) -> ParseState {
    ParseState { pos, id: s.id, errors: s.errors }
}

/// Parsing went from `s` to `s2` forward, within the tokens.
pub open spec fn onward(ts: Seq<TokenView>, s: ParseState, s2: ParseState) -> bool {
    s.pos <= s2.pos <= ts.len()
}

/// The outcome of a step that cannot happen: parsing went backward.
pub open spec fn stuck<T>(s: ParseState) -> (ParseState, Result<T, SyntaxError>) {
    (s, Err(SyntaxError { line: 0, message: Seq::empty(), lexeme: Seq::empty() }))
}

/// The token types that start a statement; after an error, parsing skips
/// to one of them or past a `;`.
pub open spec fn starts_statement(t: TokenType) -> bool {
    t == TokenType::Class || t == TokenType::Fun || t == TokenType::Var || t == TokenType::For
        || t == TokenType::If || t == TokenType::While || t == TokenType::Print || t
        == TokenType::Return
}

/// Where parsing goes on after a syntax error at `pos`: one token further,
/// then up to just after a `;` or to a token that starts a statement.
pub open spec fn synchronized(ts: Seq<TokenView>, pos: int) -> int {
    if 0 <= pos < ts.len() - 1 && !ended_at(ts, pos) {
        skip_to_statement(ts, pos + 1)
    } else {
        pos
    }
}

/// Skips tokens from `pos` up to just after a `;`, to a token that starts a
/// statement, or to the end of file.
pub open spec fn skip_to_statement(ts: Seq<TokenView>, pos: int) -> int
    decreases ts.len() - pos,
{
    if !(0 < pos < ts.len() - 1) || ended_at(ts, pos) {
        pos
    } else if ts[pos - 1].token_type == TokenType::Semicolon {
        pos
    } else if starts_statement(ts[pos].token_type) {
        pos
    } else {
        skip_to_statement(ts, pos + 1)
    }
}

/// The operators of the binary level `depth`: 5 `or`, 4 `and`, 3 equality,
/// 2 comparison, 1 terms, 0 factors.
pub open spec fn binary_operators(depth: nat) -> Seq<TokenType> {
    if depth == 0 {
        seq![TokenType::Slash, TokenType::Star]
    } else if depth == 1 {
        seq![TokenType::Minus, TokenType::Plus]
    } else if depth == 2 {
        seq![TokenType::Greater, TokenType::GreaterEqual, TokenType::Less, TokenType::LessEqual]
    } else if depth == 3 {
        seq![TokenType::BangEqual, TokenType::EqualEqual]
    } else if depth == 4 {
        seq![TokenType::And]
    } else {
        seq![TokenType::Or]
    }
}

/// For one operator, the next token is among the operators exactly where
/// it is that operator.
pub proof fn lemma_next_in_single(ts: Seq<TokenView>, pos: int, t: TokenType)
    ensures
        next_in(ts, pos, seq![t]) == next_is(ts, pos, t),
{
    if next_in(ts, pos, seq![t]) {
        let i = choose|i: int| 0 <= i < seq![t].len() && seq![t][i] == ts[pos].token_type;
        assert(seq![t][i] == t);
    }
    if next_is(ts, pos, t) {
        assert(seq![t][0] == t);
    }
}

/// Two operands joined by an operator of level `depth`: `and` and `or` are
/// logical, the others binary.
pub open spec fn joined(depth: nat, left: ExprView, operator: TokenView, right: ExprView) -> ExprView {
    if depth >= 4 {
        ExprView::Logical { left: Box::new(left), operator, right: Box::new(right) }
    } else {
        ExprView::Binary { left: Box::new(left), operator, right: Box::new(right) }
    }
}

/// The statement a `for` loop stands for: a `while` loop over the body
/// followed by the increment, with `true` for a missing condition, inside a
/// block after the initializer where there is one.
pub open spec fn for_loop(
    initializer: Option<StmtView>,
    condition: Option<ExprView>,
    increment: Option<ExprView>,
    body: StmtView,
) -> StmtView {
    let inner = match increment {
        Some(e) => StmtView::Block { statements: seq![body, StmtView::Expression { expression: e }] },
        None => body,
    };
    let test = match condition {
        Some(c) => c,
        None => ExprView::Literal { value: LiteralView::Bool(true) },
    };
    let w = StmtView::While { condition: test, body: Box::new(inner) };
    match initializer {
        Some(i) => StmtView::Block { statements: seq![i, w] },
        None => w,
    }
}

/// Where parsing starts: at the first token, with id 0 and no errors.
pub open spec fn parse_start() -> ParseState {
    ParseState { pos: 0, id: 0, errors: Seq::empty() }
}

/// What parsing a whole token list gives: where parsing ends, with the
/// errors it recorded, and the declarations it read.
pub open spec fn parse_program(ts: Seq<TokenView>) -> (ParseState, Seq<StmtView>) {
    p_program(ts, parse_start(), Seq::empty())
}

// ----- expressions -----

/// An expression.
pub open spec fn p_expression(ts: Seq<TokenView>, s: ParseState) -> (
    ParseState,
    Result<ExprView, SyntaxError>,
)
    decreases ts.len() - s.pos, 46int,
{
    p_assignment(ts, s)
}

/// An assignment to a variable or a property, or an `or` expression.
pub open spec fn p_assignment(ts: Seq<TokenView>, s: ParseState) -> (
    ParseState,
    Result<ExprView, SyntaxError>,
)
    decreases ts.len() - s.pos, 45int,
{
    match p_binary(ts, s, 5) {
        (s1, Err(e)) => (s1, Err(e)),
        (s1, Ok(target)) => if !next_is(ts, s1.pos, TokenType::Equal) {
            (s1, Ok(target))
        } else if !onward(ts, s, s1) {
            stuck(s1)
        } else {
            let equals = ts[s1.pos];
            match p_assignment(ts, advance(s1)) {
                (s2, Err(e)) => (s2, Err(e)),
                (s2, Ok(value)) => match target {
                    ExprView::Variable { name, .. } => (
                        take_id(s2),
                        Ok(ExprView::Assign { id: s2.id as usize, name, value: Box::new(value) }),
                    ),
                    ExprView::Get { object, name } => (
                        s2,
                        Ok(ExprView::SetProperty { object, name, value: Box::new(value) }),
                    ),
                    _ => (
                        s2,
                        Err(
                            SyntaxError {
                                line: equals.line,
                                message: "Invalid assignment target"@,
                                lexeme: equals.lexeme,
                            },
                        ),
                    ),
                },
            }
        },
    }
}

/// Operands of the binary level `depth` joined, from the left, by its
/// operators.
pub open spec fn p_binary(ts: Seq<TokenView>, s: ParseState, depth: nat) -> (
    ParseState,
    Result<ExprView, SyntaxError>,
)
    decreases ts.len() - s.pos, 31 + 2 * depth,
{
    let (s1, r) = if depth == 0 {
        p_unary(ts, s)
    } else {
        p_binary(ts, s, (depth - 1) as nat)
    };
    match r {
        Err(e) => (s1, Err(e)),
        Ok(left) => if onward(ts, s, s1) {
            p_binary_rest(ts, s1, depth, left)
        } else {
            stuck(s1)
        },
    }
}

/// The rest of a binary level after its operand `left`: while an operator
/// of the level follows, the next operand, joined to what was read.
pub open spec fn p_binary_rest(ts: Seq<TokenView>, s: ParseState, depth: nat, left: ExprView) -> (
    ParseState,
    Result<ExprView, SyntaxError>,
)
    decreases ts.len() - s.pos, 30 + 2 * depth,
{
    if !next_in(ts, s.pos, binary_operators(depth)) {
        (s, Ok(left))
    } else {
        let operator = ts[s.pos];
        let s0 = advance(s);
        let (s1, r) = if depth == 0 {
            p_unary(ts, s0)
        } else {
            p_binary(ts, s0, (depth - 1) as nat)
        };
        match r {
            Err(e) => (s1, Err(e)),
            Ok(right) => if onward(ts, s0, s1) {
                p_binary_rest(ts, s1, depth, joined(depth, left, operator, right))
            } else {
                stuck(s1)
            },
        }
    }
}

/// `!` or `-` before a unary expression, or a call.
pub open spec fn p_unary(ts: Seq<TokenView>, s: ParseState) -> (
    ParseState,
    Result<ExprView, SyntaxError>,
)
    decreases ts.len() - s.pos, 28int,
{
    if next_in(ts, s.pos, seq![TokenType::Bang, TokenType::Minus]) {
        match p_unary(ts, advance(s)) {
            (s1, Ok(right)) => (
                s1,
                Ok(ExprView::Unary { operator: ts[s.pos], right: Box::new(right) }),
            ),
            (s1, Err(e)) => (s1, Err(e)),
        }
    } else {
        p_call(ts, s)
    }
}

/// A primary expression followed by calls and property accesses.
pub open spec fn p_call(ts: Seq<TokenView>, s: ParseState) -> (
    ParseState,
    Result<ExprView, SyntaxError>,
)
    decreases ts.len() - s.pos, 27int,
{
    match p_primary(ts, s) {
        (s1, Err(e)) => (s1, Err(e)),
        (s1, Ok(e)) => if onward(ts, s, s1) {
            p_call_rest(ts, s1, e)
        } else {
            stuck(s1)
        },
    }
}

/// The calls and property accesses after `callee`.
pub open spec fn p_call_rest(ts: Seq<TokenView>, s: ParseState, callee: ExprView) -> (
    ParseState,
    Result<ExprView, SyntaxError>,
)
    decreases ts.len() - s.pos, 26int,
{
    if next_is(ts, s.pos, TokenType::LeftParen) {
        match p_finish_call(ts, advance(s), callee) {
            (s1, Err(e)) => (s1, Err(e)),
            (s1, Ok(e)) => if onward(ts, advance(s), s1) {
                p_call_rest(ts, s1, e)
            } else {
                stuck(s1)
            },
        }
    } else if next_is(ts, s.pos, TokenType::Dot) {
        if next_is(ts, s.pos + 1, TokenType::Identifier) {
            p_call_rest(
                ts,
                advance(advance(s)),
                ExprView::Get { object: Box::new(callee), name: ts[s.pos + 1] },
            )
        } else {
            (advance(s), Err(error_at(ts, s.pos + 1, "Expect property name after '.'."@)))
        }
    } else {
        (s, Ok(callee))
    }
}

/// The arguments of a call of `callee`, after its `(`, and its `)`.
pub open spec fn p_finish_call(ts: Seq<TokenView>, s: ParseState, callee: ExprView) -> (
    ParseState,
    Result<ExprView, SyntaxError>,
)
    decreases ts.len() - s.pos, 49int,
{
    let (s1, r) = if !next_is(ts, s.pos, TokenType::RightParen) {
        p_arguments(ts, s, Seq::empty())
    } else {
        (s, Ok(Seq::empty()))
    };
    match r {
        Err(e) => (s1, Err(e)),
        Ok(arguments) => if next_is(ts, s1.pos, TokenType::RightParen) {
            (
                advance(s1),
                Ok(ExprView::Call { callee: Box::new(callee), paren: ts[s1.pos], arguments }),
            )
        } else {
            (s1, Err(error_at(ts, s1.pos, "Expect ')' after arguments."@)))
        },
    }
}

/// Arguments separated by commas, after the arguments `before`. From the
/// 256th on, each records an error and is still read.
pub open spec fn p_arguments(ts: Seq<TokenView>, s: ParseState, before: Seq<ExprView>) -> (
    ParseState,
    Result<Seq<ExprView>, SyntaxError>,
)
    decreases ts.len() - s.pos, 48int,
{
    let s0 = if before.len() >= 255 {
        record(s, error_at(ts, s.pos, "Can't have more than 255 arguments."@))
    } else {
        s
    };
    match p_expression(ts, s0) {
        (s1, Err(e)) => (s1, Err(e)),
        (s1, Ok(a)) => if !next_is(ts, s1.pos, TokenType::Comma) {
            (s1, Ok(before.push(a)))
        } else if onward(ts, s, s1) {
            p_arguments(ts, advance(s1), before.push(a))
        } else {
            stuck(s1)
        },
    }
}

/// A literal, `super` and a method name, `this`, a variable, or an
/// expression in parentheses.
pub open spec fn p_primary(ts: Seq<TokenView>, s: ParseState) -> (
    ParseState,
    Result<ExprView, SyntaxError>,
)
    decreases ts.len() - s.pos, 25int,
{
    let t = ts[s.pos];
    if next_is(ts, s.pos, TokenType::False) {
        (advance(s), Ok(ExprView::Literal { value: LiteralView::Bool(false) }))
    } else if next_is(ts, s.pos, TokenType::True) {
        (advance(s), Ok(ExprView::Literal { value: LiteralView::Bool(true) }))
    } else if next_is(ts, s.pos, TokenType::Nil) {
        (advance(s), Ok(ExprView::Literal { value: LiteralView::Nil }))
    } else if next_in(ts, s.pos, seq![TokenType::Number, TokenType::String]) {
        (
            advance(s),
            Ok(
                ExprView::Literal {
                    value: match t.literal {
                        Some(l) => l,
                        None => LiteralView::Nil,
                    },
                },
            ),
        )
    } else if next_is(ts, s.pos, TokenType::Super) {
        if !next_is(ts, s.pos + 1, TokenType::Dot) {
            (advance(s), Err(error_at(ts, s.pos + 1, "Expect '.' after 'super'."@)))
        } else if !next_is(ts, s.pos + 2, TokenType::Identifier) {
            (
                advance(advance(s)),
                Err(error_at(ts, s.pos + 2, "Expect superclass method name."@)),
            )
        } else {
            (
                take_id(advance(advance(advance(s)))),
                Ok(ExprView::Super { id: s.id as usize, keyword: t, method: ts[s.pos + 2] }),
            )
        }
    } else if next_is(ts, s.pos, TokenType::This) {
        (take_id(advance(s)), Ok(ExprView::This { id: s.id as usize, keyword: t }))
    } else if next_is(ts, s.pos, TokenType::Identifier) {
        (take_id(advance(s)), Ok(ExprView::Variable { id: s.id as usize, name: t }))
    } else if next_is(ts, s.pos, TokenType::LeftParen) {
        match p_expression(ts, advance(s)) {
            (s1, Err(e)) => (s1, Err(e)),
            (s1, Ok(e)) => if next_is(ts, s1.pos, TokenType::RightParen) {
                (advance(s1), Ok(ExprView::Grouping { expression: Box::new(e) }))
            } else {
                (s1, Err(error_at(ts, s1.pos, "Expect ')' after expression"@)))
            },
        }
    } else {
        (s, Err(error_at(ts, s.pos, "Unknown token"@)))
    }
}

// ----- statements -----

/// A declaration: a class, a function, a variable or a statement. Where it
/// has a syntax error, the error is recorded, parsing skips ahead as
/// `synchronized` says, and the declaration is left out.
pub open spec fn p_declaration(ts: Seq<TokenView>, s: ParseState) -> (ParseState, Option<StmtView>)
    decreases ts.len() - s.pos, 57int,
{
    let (s1, r) = if next_is(ts, s.pos, TokenType::Class) {
        p_class(ts, advance(s))
    } else if next_is(ts, s.pos, TokenType::Fun) {
        p_function(ts, advance(s), true)
    } else if next_is(ts, s.pos, TokenType::Var) {
        p_var(ts, advance(s))
    } else {
        p_statement(ts, s)
    };
    match r {
        Ok(st) => (s1, Some(st)),
        Err(e) => (moved(record(s1, e), synchronized(ts, s1.pos)), None),
    }
}

/// A class declaration after `class`: its name, an optional `<` and
/// superclass name (a variable with the next id), and its methods in
/// braces.
pub open spec fn p_class(ts: Seq<TokenView>, s: ParseState) -> (
    ParseState,
    Result<StmtView, SyntaxError>,
)
    decreases ts.len() - s.pos, 56int,
{
    if !next_is(ts, s.pos, TokenType::Identifier) {
        (s, Err(error_at(ts, s.pos, "Expect class name."@)))
    } else {
        let name = ts[s.pos];
        let s1 = advance(s);
        let (s2, r) = if next_is(ts, s1.pos, TokenType::Less) {
            if next_is(ts, s1.pos + 1, TokenType::Identifier) {
                (
                    take_id(advance(advance(s1))),
                    Ok(Some(ExprView::Variable { id: s1.id as usize, name: ts[s1.pos + 1] })),
                )
            } else {
                (advance(s1), Err(error_at(ts, s1.pos + 1, "Expect superclass name."@)))
            }
        } else {
            (s1, Ok(None))
        };
        match r {
            Err(e) => (s2, Err(e)),
            Ok(super_class) => if !next_is(ts, s2.pos, TokenType::LeftBrace) {
                (s2, Err(error_at(ts, s2.pos, "Expect '{' before class body."@)))
            } else {
                p_class_body(ts, advance(s2), name, super_class)
            },
        }
    }
}

/// The methods of the class `name` after its `{`, and its `}`.
pub open spec fn p_class_body(
    ts: Seq<TokenView>,
    s: ParseState,
    name: TokenView,
    super_class: Option<ExprView>,
) -> (ParseState, Result<StmtView, SyntaxError>)
    decreases ts.len() - s.pos, 56int,
{
    match p_methods(ts, s, Seq::empty()) {
        (s1, Err(e)) => (s1, Err(e)),
        (s1, Ok(methods)) => if next_is(ts, s1.pos, TokenType::RightBrace) {
            (advance(s1), Ok(StmtView::Class { name, super_class, methods }))
        } else {
            (s1, Err(error_at(ts, s1.pos, "Expect '}' after class body."@)))
        },
    }
}

/// Methods, after the methods `before`, up to a `}` or the end of file.
pub open spec fn p_methods(ts: Seq<TokenView>, s: ParseState, before: Seq<StmtView>) -> (
    ParseState,
    Result<Seq<StmtView>, SyntaxError>,
)
    decreases ts.len() - s.pos, 55int,
{
    if next_is(ts, s.pos, TokenType::RightBrace) || ended_at(ts, s.pos) {
        (s, Ok(before))
    } else {
        match p_function(ts, s, false) {
            (s1, Err(e)) => (s1, Err(e)),
            (s1, Ok(m)) => if s.pos < s1.pos <= ts.len() {
                p_methods(ts, s1, before.push(m))
            } else {
                stuck(s1)
            },
        }
    }
}

/// A function (after `fun`) or a method: its name, its parameters in
/// parentheses and its body in braces.
pub open spec fn p_function(ts: Seq<TokenView>, s: ParseState, is_function: bool) -> (
    ParseState,
    Result<StmtView, SyntaxError>,
)
    decreases ts.len() - s.pos, 54int,
{
    if !next_is(ts, s.pos, TokenType::Identifier) {
        (
            s,
            Err(
                error_at(
                    ts,
                    s.pos,
                    if is_function {
                        "Expect function name."@
                    } else {
                        "Expect method name."@
                    },
                ),
            ),
        )
    } else if !next_is(ts, s.pos + 1, TokenType::LeftParen) {
        (
            advance(s),
            Err(
                error_at(
                    ts,
                    s.pos + 1,
                    if is_function {
                        "Expect '(' after function name."@
                    } else {
                        "Expect '(' after method name."@
                    },
                ),
            ),
        )
    } else {
        p_function_rest(ts, advance(advance(s)), ts[s.pos], is_function)
    }
}

/// The parameters of the function or method `name` after its `(`, its `)`,
/// and its body in braces.
pub open spec fn p_function_rest(
    ts: Seq<TokenView>,
    s: ParseState,
    name: TokenView,
    is_function: bool,
) -> (ParseState, Result<StmtView, SyntaxError>)
    decreases ts.len() - s.pos, 54int,
{
    let (s2, r) = if !next_is(ts, s.pos, TokenType::RightParen) {
        p_params(ts, s, Seq::empty())
    } else {
        (s, Ok(Seq::empty()))
    };
    match r {
        Err(e) => (s2, Err(e)),
        Ok(params) => if !next_is(ts, s2.pos, TokenType::RightParen) {
            (s2, Err(error_at(ts, s2.pos, "Expect ')' after parameters."@)))
        } else if !next_is(ts, s2.pos + 1, TokenType::LeftBrace) {
            (
                advance(s2),
                Err(
                    error_at(
                        ts,
                        s2.pos + 1,
                        if is_function {
                            "Expect '{' before function body."@
                        } else {
                            "Expect '{' before method body."@
                        },
                    ),
                ),
            )
        } else if !onward(ts, s, s2) {
            stuck(s2)
        } else {
            match p_block(ts, advance(advance(s2))) {
                (s3, Err(e)) => (s3, Err(e)),
                (s3, Ok(body)) => (s3, Ok(StmtView::Function { name, params, body })),
            }
        },
    }
}

/// Parameter names separated by commas, after the parameters `before`.
/// From the 256th on, each records an error and is still read.
pub open spec fn p_params(ts: Seq<TokenView>, s: ParseState, before: Seq<TokenView>) -> (
    ParseState,
    Result<Seq<TokenView>, SyntaxError>,
)
    decreases ts.len() - s.pos, 53int,
{
    let s0 = if before.len() >= 255 {
        record(s, error_at(ts, s.pos, "Can't have more than 255 parameters."@))
    } else {
        s
    };
    if !next_is(ts, s0.pos, TokenType::Identifier) {
        (s0, Err(error_at(ts, s0.pos, "Expect parameter name."@)))
    } else if next_is(ts, s0.pos + 1, TokenType::Comma) {
        p_params(ts, advance(advance(s0)), before.push(ts[s0.pos]))
    } else {
        (advance(s0), Ok(before.push(ts[s0.pos])))
    }
}

/// A variable declaration after `var`: its name, an optional `=` and
/// initializer, and `;`.
pub open spec fn p_var(ts: Seq<TokenView>, s: ParseState) -> (
    ParseState,
    Result<StmtView, SyntaxError>,
)
    decreases ts.len() - s.pos, 52int,
{
    if !next_is(ts, s.pos, TokenType::Identifier) {
        (s, Err(error_at(ts, s.pos, "Expect variable name."@)))
    } else {
        let name = ts[s.pos];
        let (s1, r) = if next_is(ts, s.pos + 1, TokenType::Equal) {
            match p_expression(ts, advance(advance(s))) {
                (s1, Ok(e)) => (s1, Ok(Some(e))),
                (s1, Err(e)) => (s1, Err(e)),
            }
        } else {
            (advance(s), Ok(None))
        };
        match r {
            Err(e) => (s1, Err(e)),
            Ok(initializer) => if next_is(ts, s1.pos, TokenType::Semicolon) {
                (advance(s1), Ok(StmtView::Var { name, initializer }))
            } else {
                (s1, Err(error_at(ts, s1.pos, "Expect ';' after variable declaration"@)))
            },
        }
    }
}

/// A statement: `for`, `if`, `print`, `return`, `while`, a block, or an
/// expression statement.
pub open spec fn p_statement(ts: Seq<TokenView>, s: ParseState) -> (
    ParseState,
    Result<StmtView, SyntaxError>,
)
    decreases ts.len() - s.pos, 51int,
{
    if next_is(ts, s.pos, TokenType::For) {
        p_for(ts, advance(s))
    } else if next_is(ts, s.pos, TokenType::If) {
        p_if(ts, advance(s))
    } else if next_is(ts, s.pos, TokenType::Print) {
        p_print(ts, advance(s))
    } else if next_is(ts, s.pos, TokenType::Return) {
        p_return(ts, advance(s))
    } else if next_is(ts, s.pos, TokenType::While) {
        p_while(ts, advance(s))
    } else if next_is(ts, s.pos, TokenType::LeftBrace) {
        match p_block(ts, advance(s)) {
            (s1, Ok(statements)) => (s1, Ok(StmtView::Block { statements })),
            (s1, Err(e)) => (s1, Err(e)),
        }
    } else {
        p_expression_statement(ts, s)
    }
}

/// A `return` statement after its keyword: an optional value and `;`.
pub open spec fn p_return(ts: Seq<TokenView>, s: ParseState) -> (
    ParseState,
    Result<StmtView, SyntaxError>,
)
    decreases ts.len() - s.pos, 50int,
{
    let keyword = ts[s.pos - 1];
    let (s1, r) = if !next_is(ts, s.pos, TokenType::Semicolon) {
        match p_expression(ts, s) {
            (s1, Ok(e)) => (s1, Ok(Some(e))),
            (s1, Err(e)) => (s1, Err(e)),
        }
    } else {
        (s, Ok(None))
    };
    match r {
        Err(e) => (s1, Err(e)),
        Ok(value) => if next_is(ts, s1.pos, TokenType::Semicolon) {
            (advance(s1), Ok(StmtView::Return { keyword, value }))
        } else {
            (s1, Err(error_at(ts, s1.pos, "Expect ';' after return value."@)))
        },
    }
}

/// A `while` loop after its keyword: the condition in parentheses and the
/// body.
pub open spec fn p_while(ts: Seq<TokenView>, s: ParseState) -> (
    ParseState,
    Result<StmtView, SyntaxError>,
)
    decreases ts.len() - s.pos, 50int,
{
    if !next_is(ts, s.pos, TokenType::LeftParen) {
        (s, Err(error_at(ts, s.pos, "Expect '(' after 'while'"@)))
    } else {
        match p_expression(ts, advance(s)) {
            (s1, Err(e)) => (s1, Err(e)),
            (s1, Ok(condition)) => if !next_is(ts, s1.pos, TokenType::RightParen) {
                (s1, Err(error_at(ts, s1.pos, "Expect ')' after 'while'"@)))
            } else if !onward(ts, s, s1) {
                stuck(s1)
            } else {
                match p_statement(ts, advance(s1)) {
                    (s2, Err(e)) => (s2, Err(e)),
                    (s2, Ok(body)) => (s2, Ok(StmtView::While { condition, body: Box::new(body) })),
                }
            },
        }
    }
}

/// A `print` statement after its keyword: the value and `;`.
pub open spec fn p_print(ts: Seq<TokenView>, s: ParseState) -> (
    ParseState,
    Result<StmtView, SyntaxError>,
)
    decreases ts.len() - s.pos, 50int,
{
    match p_expression(ts, s) {
        (s1, Err(e)) => (s1, Err(e)),
        (s1, Ok(expression)) => if next_is(ts, s1.pos, TokenType::Semicolon) {
            (advance(s1), Ok(StmtView::Print { expression }))
        } else {
            (s1, Err(error_at(ts, s1.pos, "Expect ';' after value"@)))
        },
    }
}

/// A `for` loop after its keyword: in parentheses an initializer (none, a
/// variable declaration or an expression statement), an optional condition
/// and `;`, an optional increment; then the body. It stands for the
/// statement `for_loop` gives.
pub open spec fn p_for(ts: Seq<TokenView>, s: ParseState) -> (
    ParseState,
    Result<StmtView, SyntaxError>,
)
    decreases ts.len() - s.pos, 50int,
{
    if !next_is(ts, s.pos, TokenType::LeftParen) {
        (s, Err(error_at(ts, s.pos, "Expect '(' after 'for'"@)))
    } else {
        let s1 = advance(s);
        let (s2, r) = if next_is(ts, s1.pos, TokenType::Semicolon) {
            (advance(s1), Ok(None))
        } else if next_is(ts, s1.pos, TokenType::Var) {
            match p_var(ts, advance(s1)) {
                (s2, Ok(i)) => (s2, Ok(Some(i))),
                (s2, Err(e)) => (s2, Err(e)),
            }
        } else {
            match p_expression_statement(ts, s1) {
                (s2, Ok(i)) => (s2, Ok(Some(i))),
                (s2, Err(e)) => (s2, Err(e)),
            }
        };
        match r {
            Err(e) => (s2, Err(e)),
            Ok(initializer) => if onward(ts, s1, s2) {
                p_for_condition(ts, s2, initializer)
            } else {
                stuck(s2)
            },
        }
    }
}

/// The rest of a `for` loop after its initializer: an optional condition
/// and `;`, then as `p_for_increment` says.
pub open spec fn p_for_condition(ts: Seq<TokenView>, s: ParseState, initializer: Option<StmtView>) -> (
    ParseState,
    Result<StmtView, SyntaxError>,
)
    decreases ts.len() - s.pos, 50int,
{
    let (s1, r) = if !next_is(ts, s.pos, TokenType::Semicolon) {
        match p_expression(ts, s) {
            (s1, Ok(c)) => (s1, Ok(Some(c))),
            (s1, Err(e)) => (s1, Err(e)),
        }
    } else {
        (s, Ok(None))
    };
    match r {
        Err(e) => (s1, Err(e)),
        Ok(condition) => if !next_is(ts, s1.pos, TokenType::Semicolon) {
            (s1, Err(error_at(ts, s1.pos, "Expect ';' after loop condition"@)))
        } else if !onward(ts, s, s1) {
            stuck(s1)
        } else {
            p_for_increment(ts, advance(s1), initializer, condition)
        },
    }
}

/// The rest of a `for` loop after its condition and `;`: an optional
/// increment, `)` and the body.
pub open spec fn p_for_increment(
    ts: Seq<TokenView>,
    s: ParseState,
    initializer: Option<StmtView>,
    condition: Option<ExprView>,
) -> (ParseState, Result<StmtView, SyntaxError>)
    decreases ts.len() - s.pos, 50int,
{
    let (s1, r) = if !next_is(ts, s.pos, TokenType::RightParen) {
        match p_expression(ts, s) {
            (s1, Ok(c)) => (s1, Ok(Some(c))),
            (s1, Err(e)) => (s1, Err(e)),
        }
    } else {
        (s, Ok(None))
    };
    match r {
        Err(e) => (s1, Err(e)),
        Ok(increment) => if !next_is(ts, s1.pos, TokenType::RightParen) {
            (s1, Err(error_at(ts, s1.pos, "Expect ')' after for clauses"@)))
        } else if !onward(ts, s, s1) {
            stuck(s1)
        } else {
            match p_statement(ts, advance(s1)) {
                (s2, Err(e)) => (s2, Err(e)),
                (s2, Ok(body)) => (s2, Ok(for_loop(initializer, condition, increment, body))),
            }
        },
    }
}

/// An `if` statement after its keyword: the condition in parentheses, the
/// then branch, and an optional `else` and else branch.
pub open spec fn p_if(ts: Seq<TokenView>, s: ParseState) -> (
    ParseState,
    Result<StmtView, SyntaxError>,
)
    decreases ts.len() - s.pos, 50int,
{
    if !next_is(ts, s.pos, TokenType::LeftParen) {
        (s, Err(error_at(ts, s.pos, "Expect '(' after 'if'"@)))
    } else {
        match p_expression(ts, advance(s)) {
            (s1, Err(e)) => (s1, Err(e)),
            (s1, Ok(condition)) => if !next_is(ts, s1.pos, TokenType::RightParen) {
                (s1, Err(error_at(ts, s1.pos, "Expect ')' after if condition"@)))
            } else if !onward(ts, s, s1) {
                stuck(s1)
            } else {
                match p_statement(ts, advance(s1)) {
                    (s2, Err(e)) => (s2, Err(e)),
                    (s2, Ok(then_branch)) => if !next_is(ts, s2.pos, TokenType::Else) {
                        (
                            s2,
                            Ok(
                                StmtView::If {
                                    condition,
                                    then_branch: Box::new(then_branch),
                                    else_branch: None,
                                },
                            ),
                        )
                    } else if !onward(ts, s, s2) {
                        stuck(s2)
                    } else {
                        match p_statement(ts, advance(s2)) {
                            (s3, Err(e)) => (s3, Err(e)),
                            (s3, Ok(b)) => (
                                s3,
                                Ok(
                                    StmtView::If {
                                        condition,
                                        then_branch: Box::new(then_branch),
                                        else_branch: Some(Box::new(b)),
                                    },
                                ),
                            ),
                        }
                    },
                }
            },
        }
    }
}

/// The declarations of a block after its `{`, and its `}`.
pub open spec fn p_block(ts: Seq<TokenView>, s: ParseState) -> (
    ParseState,
    Result<Seq<StmtView>, SyntaxError>,
)
    decreases ts.len() - s.pos, 59int,
{
    let (s1, statements) = p_block_items(ts, s, Seq::empty());
    if next_is(ts, s1.pos, TokenType::RightBrace) {
        (advance(s1), Ok(statements))
    } else {
        (s1, Err(error_at(ts, s1.pos, "Expect '}' after block"@)))
    }
}

/// Declarations after the declarations `before`, up to a `}` or the end of
/// file; those with a syntax error are left out.
pub open spec fn p_block_items(ts: Seq<TokenView>, s: ParseState, before: Seq<StmtView>) -> (
    ParseState,
    Seq<StmtView>,
)
    decreases ts.len() - s.pos, 58int,
{
    if next_is(ts, s.pos, TokenType::RightBrace) || ended_at(ts, s.pos) {
        (s, before)
    } else {
        let (s1, d) = p_declaration(ts, s);
        let after = match d {
            Some(st) => before.push(st),
            None => before,
        };
        if s.pos < s1.pos <= ts.len() {
            p_block_items(ts, s1, after)
        } else {
            (s1, after)
        }
    }
}

/// An expression statement: the expression and `;`.
pub open spec fn p_expression_statement(ts: Seq<TokenView>, s: ParseState) -> (
    ParseState,
    Result<StmtView, SyntaxError>,
)
    decreases ts.len() - s.pos, 47int,
{
    match p_expression(ts, s) {
        (s1, Err(e)) => (s1, Err(e)),
        (s1, Ok(expression)) => if next_is(ts, s1.pos, TokenType::Semicolon) {
            (advance(s1), Ok(StmtView::Expression { expression }))
        } else {
            (s1, Err(error_at(ts, s1.pos, "Expect ';' after expression"@)))
        },
    }
}

/// A program: declarations after the declarations `before`, up to the end
/// of file; those with a syntax error are left out.
pub open spec fn p_program(ts: Seq<TokenView>, s: ParseState, before: Seq<StmtView>) -> (
    ParseState,
    Seq<StmtView>,
)
    decreases ts.len() - s.pos, 60int,
{
    if ended_at(ts, s.pos) {
        (s, before)
    } else {
        let (s1, d) = p_declaration(ts, s);
        let after = match d {
            Some(st) => before.push(st),
            None => before,
        };
        if s.pos < s1.pos <= ts.len() {
            p_program(ts, s1, after)
        } else {
            (s1, after)
        }
    }
}


// ----- precedence -----

/// How tightly an operator binds, loosest last: 1 for `*` and `/`, 2 for
/// `+` and `-`, 3 for the comparisons, 4 for `==` and `!=`, 5 for `and`, 6
/// for `or`; 0 for any other token type.
pub open spec fn precedence(t: TokenType) -> nat {
    if t == TokenType::Slash || t == TokenType::Star {
        1
    } else if t == TokenType::Minus || t == TokenType::Plus {
        2
    } else if t == TokenType::Greater || t == TokenType::GreaterEqual || t == TokenType::Less || t
        == TokenType::LessEqual {
        3
    } else if t == TokenType::BangEqual || t == TokenType::EqualEqual {
        4
    } else if t == TokenType::And {
        5
    } else if t == TokenType::Or {
        6
    } else {
        0
    }
}

/// The precedence of an expression's outermost operator; 0 where it is not
/// an operation on two operands.
pub open spec fn outer_precedence(e: ExprView) -> nat {
    match e {
        ExprView::Binary { operator, .. } => precedence(operator.token_type),
        ExprView::Logical { operator, .. } => precedence(operator.token_type),
        _ => 0,
    }
}

/// The operations on two operands at the top of an expression nest as
/// precedence says: each operand of a left-associative operator binds at
/// least as tightly as it does, the right one strictly more tightly.
pub open spec fn nests_by_precedence(e: ExprView) -> bool
    decreases e,
{
    match e {
        ExprView::Binary { left, operator, right } => {
            &&& precedence(operator.token_type) > 0
            &&& outer_precedence(*left) <= precedence(operator.token_type)
            &&& outer_precedence(*right) < precedence(operator.token_type)
            &&& nests_by_precedence(*left)
            &&& nests_by_precedence(*right)
        },
        ExprView::Logical { left, operator, right } => {
            &&& precedence(operator.token_type) > 0
            &&& outer_precedence(*left) <= precedence(operator.token_type)
            &&& outer_precedence(*right) < precedence(operator.token_type)
            &&& nests_by_precedence(*left)
            &&& nests_by_precedence(*right)
        },
        _ => true,
    }
}

proof fn lemma_level_operators(depth: nat, t: TokenType)
    requires
        binary_operators(depth).contains(t),
    ensures
        precedence(t) == (if depth >= 5 { 6 } else { depth + 1 }),
{
    let ops = binary_operators(depth);
    let i = choose|i: int| 0 <= i < ops.len() && ops[i] == t;
    if depth == 0 {
        assert(ops =~= seq![TokenType::Slash, TokenType::Star]);
    } else if depth == 1 {
        assert(ops =~= seq![TokenType::Minus, TokenType::Plus]);
    } else if depth == 2 {
        assert(ops =~= seq![
            TokenType::Greater,
            TokenType::GreaterEqual,
            TokenType::Less,
            TokenType::LessEqual,
        ]);
    } else if depth == 3 {
        assert(ops =~= seq![TokenType::BangEqual, TokenType::EqualEqual]);
    } else if depth == 4 {
        assert(ops =~= seq![TokenType::And]);
    } else {
        assert(ops =~= seq![TokenType::Or]);
    }
}

proof fn lemma_call_rest_plain(ts: Seq<TokenView>, s: ParseState, callee: ExprView)
    requires
        outer_precedence(callee) == 0,
        nests_by_precedence(callee),
    ensures
        p_call_rest(ts, s, callee).1 matches Ok(e) ==> outer_precedence(e) == 0
            && nests_by_precedence(e),
    decreases ts.len() - s.pos, 26int,
{
    if next_is(ts, s.pos, TokenType::LeftParen) {
        if let (s1, Ok(e)) = p_finish_call(ts, advance(s), callee) {
            if onward(ts, advance(s), s1) {
                lemma_call_rest_plain(ts, s1, e);
            }
        }
    } else if next_is(ts, s.pos, TokenType::Dot) {
        if next_is(ts, s.pos + 1, TokenType::Identifier) {
            lemma_call_rest_plain(
                ts,
                advance(advance(s)),
                ExprView::Get { object: Box::new(callee), name: ts[s.pos + 1] },
            );
        }
    }
}

/// A unary expression, a call or a primary expression is no operation on
/// two operands at its top.
proof fn lemma_unary_plain(ts: Seq<TokenView>, s: ParseState)
    ensures
        p_unary(ts, s).1 matches Ok(e) ==> outer_precedence(e) == 0 && nests_by_precedence(e),
    decreases ts.len() - s.pos, 28int,
{
    if !next_in(ts, s.pos, seq![TokenType::Bang, TokenType::Minus]) {
        assert(p_unary(ts, s) == p_call(ts, s));
        if let (s1, Ok(e)) = p_primary(ts, s) {
            assert(outer_precedence(e) == 0);
            if onward(ts, s, s1) {
                lemma_call_rest_plain(ts, s1, e);
                assert(p_call(ts, s) == p_call_rest(ts, s1, e));
            }
        }
    }
}

proof fn lemma_binary_rest_nests(ts: Seq<TokenView>, s: ParseState, depth: nat, left: ExprView)
    requires
        depth <= 5,
        nests_by_precedence(left),
        outer_precedence(left) <= depth + 1,
    ensures
        p_binary_rest(ts, s, depth, left).1 matches Ok(e) ==> nests_by_precedence(e)
            && outer_precedence(e) <= depth + 1,
    decreases ts.len() - s.pos, 30 + 2 * depth,
{
    if next_in(ts, s.pos, binary_operators(depth)) {
        let operator = ts[s.pos];
        lemma_level_operators(depth, operator.token_type);
        let s0 = advance(s);
        let (s1, r) = if depth == 0 {
            p_unary(ts, s0)
        } else {
            p_binary(ts, s0, (depth - 1) as nat)
        };
        if depth == 0 {
            lemma_unary_plain(ts, s0);
        } else {
            law_binary_levels_nest(ts, s0, (depth - 1) as nat);
        }
        if let Ok(right) = r {
            if onward(ts, s0, s1) {
                lemma_binary_rest_nests(ts, s1, depth, joined(depth, left, operator, right));
            }
        }
    }
}

/// Parsing respects precedence: what a binary level reads nests by
/// precedence and binds no more loosely than the level, so `a < b + c`
/// reads as `a < (b + c)` and `a - b - c` as `(a - b) - c`; a level joins
/// its operands with its own operators only.
pub proof fn law_binary_levels_nest(ts: Seq<TokenView>, s: ParseState, depth: nat)
    requires
        depth <= 5,
    ensures
        p_binary(ts, s, depth).1 matches Ok(e) ==> nests_by_precedence(e) && outer_precedence(e)
            <= depth + 1,
    decreases ts.len() - s.pos, 31 + 2 * depth,
{
    let (s1, r) = if depth == 0 {
        p_unary(ts, s)
    } else {
        p_binary(ts, s, (depth - 1) as nat)
    };
    if depth == 0 {
        lemma_unary_plain(ts, s);
    } else {
        law_binary_levels_nest(ts, s, (depth - 1) as nat);
    }
    if let Ok(left) = r {
        if onward(ts, s, s1) {
            lemma_binary_rest_nests(ts, s1, depth, left);
        }
    }
}

} // verus!
