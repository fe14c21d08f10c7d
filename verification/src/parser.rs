use vstd::prelude::*;

use crate::error::CompiletimeError;
use crate::expression::{Expr, ExprView, expr_view};
use crate::grammar::{
    ParseState, SyntaxError, advance, binary_operators, ended_at, error_at, error_view,
    lemma_next_in_single, next_in, next_is, p_block, p_block_items, p_class, p_declaration, p_for,
    p_function, p_if, p_methods, p_params, p_print, p_program, p_return, p_statement, p_var,
    p_while, p_expression_statement, synchronized, skip_to_statement, p_class_body,
    p_function_rest, p_for_condition, p_for_increment, for_loop, parse_start, p_arguments,
    p_assignment, p_binary, p_binary_rest, p_call, p_call_rest, p_expression, p_finish_call,
    p_primary, p_unary, record,
};
use crate::stmt::{Stmt, StmtView, stmt_view, tokens_seq_view};
use crate::token::{Literal, Token, TokenType, TokenView};

verus! {

broadcast use vstd::std_specs::vec::group_vec_axioms;

/// The ids an expression carries, in the order the parser hands them out.
pub open spec fn expr_ids(e: ExprView) -> Seq<usize>
    decreases e, 1nat,
{
    match e {
        ExprView::Unary { right, .. } => expr_ids(*right),
        ExprView::Assign { id, value, .. } => expr_ids(*value).push(id),
        ExprView::Binary { left, right, .. } => expr_ids(*left) + expr_ids(*right),
        ExprView::Grouping { expression } => expr_ids(*expression),
        ExprView::Literal { .. } => Seq::empty(),
        ExprView::Variable { id, .. } => seq![id],
        ExprView::Logical { left, right, .. } => expr_ids(*left) + expr_ids(*right),
        ExprView::Call { callee, arguments, .. } => expr_ids(*callee) + args_ids(arguments),
        ExprView::Get { object, .. } => expr_ids(*object),
        ExprView::SetProperty { object, value, .. } => expr_ids(*object) + expr_ids(*value),
        ExprView::This { id, .. } => seq![id],
        ExprView::Super { id, .. } => seq![id],
    }
}

/// The ids that a list of expressions carries.
pub open spec fn args_ids(s: Seq<ExprView>) -> Seq<usize>
    decreases s, 0nat,
{
    if s.len() == 0 {
        Seq::empty()
    } else {
        args_ids(s.drop_last()) + expr_ids(s.last())
    }
}

pub open spec fn option_expr_ids(e: Option<ExprView>) -> Seq<usize> {
    match e {
        Some(e) => expr_ids(e),
        None => Seq::empty(),
    }
}

pub open spec fn opt_expr_ids(e: Option<Expr>) -> Seq<usize> {
    match e {
        Some(e) => expr_ids(e@),
        None => Seq::empty(),
    }
}

pub open spec fn opt_stmt_ids(s: Option<Stmt>) -> Seq<usize> {
    match s {
        Some(s) => stmt_ids(s@),
        None => Seq::empty(),
    }
}

pub open spec fn opt_box_stmt_ids(s: Option<Box<Stmt>>) -> Seq<usize> {
    match s {
        Some(s) => stmt_ids(stmt_view(*s)),
        None => Seq::empty(),
    }
}

/// The ids that a statement's expressions carry.
pub open spec fn stmt_ids(s: StmtView) -> Seq<usize>
    decreases s, 1nat,
{
    match s {
        StmtView::Expression { expression } => expr_ids(expression),
        StmtView::Print { expression } => expr_ids(expression),
        StmtView::Var { initializer, .. } => option_expr_ids(initializer),
        StmtView::Block { statements } => stmts_ids(statements),
        StmtView::If { condition, then_branch, else_branch } => expr_ids(condition) + stmt_ids(
            *then_branch,
        ) + match else_branch {
            Some(b) => stmt_ids(*b),
            None => Seq::empty(),
        },
        StmtView::While { condition, body } => expr_ids(condition) + stmt_ids(*body),
        StmtView::Function { body, .. } => stmts_ids(body),
        StmtView::Return { value, .. } => option_expr_ids(value),
        StmtView::Class { super_class, methods, .. } => option_expr_ids(super_class) + stmts_ids(
            methods,
        ),
    }
}

/// The ids that a list of statements carries.
pub open spec fn stmts_ids(s: Seq<StmtView>) -> Seq<usize>
    decreases s, 0nat,
{
    if s.len() == 0 {
        Seq::empty()
    } else {
        stmts_ids(s.drop_last()) + stmt_ids(s.last())
    }
}

/// `ids` holds no id twice, and each lies in `[lo, hi)`.
pub open spec fn fresh_ids(ids: Seq<usize>, lo: int, hi: int) -> bool {
    &&& forall|i: int, j: int| 0 <= i < j < ids.len() ==> ids[i] != ids[j]
    &&& forall|i: int| 0 <= i < ids.len() ==> lo <= #[trigger] ids[i] < hi
}

pub proof fn lemma_fresh_concat(a: Seq<usize>, b: Seq<usize>, lo: int, mid: int, hi: int)
    requires
        lo <= mid <= hi,
        fresh_ids(a, lo, mid),
        fresh_ids(b, mid, hi),
    ensures
        fresh_ids(a + b, lo, hi),
        fresh_ids(b + a, lo, hi),
{
    assert forall|i: int, j: int| 0 <= i < j < (a + b).len() implies (a + b)[i] != (a
        + b)[j] by {
        if j < a.len() {
        } else if i >= a.len() {
            assert((a + b)[i] == b[i - a.len()]);
            assert((a + b)[j] == b[j - a.len()]);
        } else {
            assert((a + b)[j] == b[j - a.len()]);
        }
    }
    assert forall|i: int, j: int| 0 <= i < j < (b + a).len() implies (b + a)[i] != (b
        + a)[j] by {
        if j < b.len() {
        } else if i >= b.len() {
            assert((b + a)[i] == a[i - b.len()]);
            assert((b + a)[j] == a[j - b.len()]);
        } else {
            assert((b + a)[j] == a[j - b.len()]);
        }
    }
    assert forall|i: int| 0 <= i < (a + b).len() implies lo <= #[trigger] (a + b)[i] < hi by {
        if i >= a.len() {
            assert((a + b)[i] == b[i - a.len()]);
        } else {
            assert((a + b)[i] == a[i]);
        }
    }
    assert forall|i: int| 0 <= i < (b + a).len() implies lo <= #[trigger] (b + a)[i] < hi by {
        if i >= b.len() {
            assert((b + a)[i] == a[i - b.len()]);
        } else {
            assert((b + a)[i] == b[i]);
        }
    }
}

pub proof fn lemma_fresh_widen(a: Seq<usize>, lo: int, hi: int, lo2: int, hi2: int)
    requires
        fresh_ids(a, lo, hi),
        lo2 <= lo,
        hi <= hi2,
    ensures
        fresh_ids(a, lo2, hi2),
{
}

pub proof fn lemma_fresh_empty(lo: int, hi: int)
    ensures
        fresh_ids(Seq::<usize>::empty(), lo, hi),
{
}

pub proof fn lemma_fresh_push(a: Seq<usize>, id: usize, lo: int, hi: int)
    requires
        fresh_ids(a, lo, id as int),
        lo <= id < hi,
    ensures
        fresh_ids(a.push(id), lo, hi),
{
    lemma_fresh_concat(a, seq![id], lo, id as int, hi);
    assert(a + seq![id] =~= a.push(id));
}

/// The value of an optional statement.
pub open spec fn opt_stmt_view(s: Option<Stmt>) -> Option<StmtView> {
    match s {
        Some(s) => Some(s@),
        None => None,
    }
}

/// The value of an optional expression.
pub open spec fn opt_expr_view(e: Option<Expr>) -> Option<ExprView> {
    match e {
        Some(e) => Some(e@),
        None => None,
    }
}

/// A parse result read as the grammar's: the same expression, or an error
/// that is the same syntax error.
pub open spec fn expr_outcome(r: Result<Expr, CompiletimeError>, expected: Result<ExprView, SyntaxError>) -> bool {
    match (r, expected) {
        (Ok(e), Ok(v)) => e@ == v,
        (Err(e), Err(v)) => error_view(e) == Some(v),
        _ => false,
    }
}

/// A parse result read as the grammar's: the same statement, or an error
/// that is the same syntax error.
pub open spec fn stmt_outcome(r: Result<Stmt, CompiletimeError>, expected: Result<StmtView, SyntaxError>) -> bool {
    match (r, expected) {
        (Ok(st), Ok(v)) => st@ == v,
        (Err(e), Err(v)) => error_view(e) == Some(v),
        _ => false,
    }
}

/// A parse result read as the grammar's: the same statements, or an error
/// that is the same syntax error.
pub open spec fn stmts_outcome(r: Result<Vec<Stmt>, CompiletimeError>, expected: Result<Seq<StmtView>, SyntaxError>) -> bool {
    match (r, expected) {
        (Ok(v), Ok(w)) => stmts_view(v@) == w,
        (Err(e), Err(w)) => error_view(e) == Some(w),
        _ => false,
    }
}

/// A declaration read as the grammar's: the same statement, or none.
pub open spec fn decl_outcome(r: Option<Stmt>, expected: Option<StmtView>) -> bool {
    match (r, expected) {
        (Some(st), Some(v)) => st@ == v,
        (None, None) => true,
        _ => false,
    }
}

/// A list of tokens a parser can read: it ends with an end-of-file token.
pub open spec fn parsable(tokens: Seq<Token>) -> bool {
    tokens.len() > 0 && tokens.last().token_type == TokenType::Eof
}

/// A recursive-descent parser for Lox. Errors in a declaration are recorded,
/// the parser skips to the next statement and goes on.
pub struct Parser {
    tokens: Vec<Token>,
    current: usize,
    next_id: usize,
    errors: Vec<CompiletimeError>,
}

impl Parser {
    pub closed spec fn tokens(&self) -> Seq<Token> {
        self.tokens@
    }

    /// The tokens' values.
    pub closed spec fn token_views(&self) -> Seq<TokenView> {
        tokens_seq_view(self.tokens@)
    }

    /// Where parsing stands, as the grammar reads it.
    pub closed spec fn state(&self) -> ParseState {
        ParseState {
            pos: self.current as int,
            id: self.next_id as int,
            errors: self.errors@.map_values(|e: CompiletimeError| error_view(e)),
        }
    }

    /// The id the parser hands out next.
    pub closed spec fn next_id_spec(&self) -> usize {
        self.next_id
    }

    /// The position of the next token to read.
    pub closed spec fn position(&self) -> usize {
        self.current
    }

    /// The errors recorded so far.
    pub closed spec fn errors_spec(&self) -> Seq<CompiletimeError> {
        self.errors@
    }

    /// Parsing can go on: the tokens end with end of file, the position is
    /// within them, and enough ids are left for every token.
    pub closed spec fn wf(&self) -> bool {
        &&& parsable(self.tokens@)
        &&& self.current < self.tokens@.len()
        &&& self.next_id + (self.tokens@.len() - self.current) <= usize::MAX
    }

    /// What any parsing step keeps: the tokens stay, the position and the
    /// next id only grow, and by no more ids than tokens read.
    pub closed spec fn advanced(old: Parser, new: Parser) -> bool {
        &&& new.tokens@ == old.tokens@
        &&& new.wf()
        &&& old.current <= new.current
        &&& old.next_id <= new.next_id
        &&& new.next_id - old.next_id <= new.current - old.current
    }

    pub closed spec fn at_end(&self) -> bool {
        self.tokens@[self.current as int].token_type == TokenType::Eof
    }

    /// A parser for `tokens`, handing out ids from 0.
    pub fn new(tokens: Vec<Token>) -> (p: Parser)
        ensures
            p.tokens() == tokens@,
            p.next_id_spec() == 0,
            p.position() == 0,
            p.errors_spec().len() == 0,
            p.state() == parse_start(),
            p.token_views() == tokens_seq_view(tokens@),
    {
        let p = Parser { tokens, current: 0, next_id: 0, errors: Vec::new() };
        proof {
            assert(p.state() =~= parse_start());
        }
        p
    }

    /// A parser for `tokens`, handing out ids from `first_id`, so that
    /// programs parsed one after another get distinct ids.
    pub fn with_first_id(tokens: Vec<Token>, first_id: usize) -> (p: Parser)
        ensures
            p.tokens() == tokens@,
            p.next_id_spec() == first_id,
            p.position() == 0,
            p.errors_spec().len() == 0,
    {
        Parser { tokens, current: 0, next_id: first_id, errors: Vec::new() }
    }

    /// The id the parser hands out next.
    pub fn next_id(&self) -> (r: usize)
        ensures
            r == self.next_id_spec(),
    {
        self.next_id
    }

    /// The errors recorded while parsing.
    pub fn errors(&self) -> (r: &Vec<CompiletimeError>)
        ensures
            r@ == self.errors_spec(),
    {
        &self.errors
    }

    /// Takes the errors recorded so far.
    pub fn take_errors(&mut self) -> (r: Vec<CompiletimeError>)
        ensures
            r@ == old(self).errors_spec(),
            r@.map_values(|e: CompiletimeError| error_view(e)) == old(self).state().errors,
            final(self).errors_spec().len() == 0,
            final(self).tokens() == old(self).tokens(),
            final(self).position() == old(self).position(),
            final(self).next_id_spec() == old(self).next_id_spec(),
    {
        let mut errors: Vec<CompiletimeError> = Vec::new();
        std::mem::swap(&mut errors, &mut self.errors);
        errors
    }

    /// Parses the whole token list into statements. A declaration with a
    /// syntax error is left out; its error is recorded in `errors`. The ids
    /// of the statements are pairwise distinct and lie between the parser's
    /// first id and its next id.
    pub fn parse(&mut self) -> (r: Result<Vec<Stmt>, CompiletimeError>)
        requires
            parsable(old(self).tokens()),
            old(self).position() == 0,
            old(self).next_id_spec() + old(self).tokens().len() <= usize::MAX,
        ensures
            r is Ok,
            final(self).tokens() == old(self).tokens(),
            old(self).next_id_spec() <= final(self).next_id_spec() <= old(
                self,
            ).next_id_spec() + old(self).tokens().len(),
            old(self).errors_spec().len() <= final(self).errors_spec().len(),
            r matches Ok(v) ==> fresh_ids(
                stmts_ids(stmts_view(v@)),
                old(self).next_id_spec() as int,
                final(self).next_id_spec() as int,
            ),
            final(self).state() == p_program(old(self).token_views(), old(self).state(), Seq::empty()).0,
            r matches Ok(v) && stmts_view(v@) == p_program(
                old(self).token_views(),
                old(self).state(),
                Seq::empty(),
            ).1,
    {
        let mut statements: Vec<Stmt> = Vec::new();
        let ghost first = self.next_id as int;
        let ghost len = self.tokens@.len();
        proof {
            assert(stmts_view(statements@) =~= Seq::<StmtView>::empty());
            lemma_fresh_empty(first, first);
        }
        let ghost ts = old(self).token_views();
        let ghost s0 = old(self).state();
        while !self.is_at_end()
            invariant_except_break
                p_program(ts, s0, Seq::empty()) == p_program(ts, self.state(), stmts_view(statements@)),
            invariant
                ts == self.token_views(),
                s0 == old(self).state(),
                self.wf(),
                self.tokens@.len() == len,
                self.tokens@ == old(self).tokens@,
                first <= self.next_id,
                self.next_id - first <= self.current,
                old(self).errors@.len() <= self.errors@.len(),
                fresh_ids(stmts_ids(stmts_view(statements@)), first, self.next_id as int),
            ensures
                self.wf(),
                self.tokens@ == old(self).tokens@,
                first <= self.next_id,
                self.next_id - first <= self.current,
                old(self).errors@.len() <= self.errors@.len(),
                fresh_ids(stmts_ids(stmts_view(statements@)), first, self.next_id as int),
                p_program(ts, s0, Seq::empty()) == (self.state(), stmts_view(statements@)),
            decreases len - self.current,
        {
            let before = self.current;
            let ghost id_before = self.next_id as int;
            let ghost sv = stmts_view(statements@);
            match self.declaration() {
                Some(stmt) => {
                    statements.push(stmt);
                    proof {
                        assert(stmts_view(statements@).drop_last() =~= sv);
                        assert(stmts_view(statements@) =~= sv.push(statements@.last()@));
                        lemma_fresh_widen(stmts_ids(sv), first, id_before, first, id_before);
                        lemma_fresh_concat(
                            stmts_ids(sv),
                            stmt_ids(statements@.last()@),
                            first,
                            id_before,
                            self.next_id as int,
                        );
                    }
                },
                None => {
                    proof {
                        lemma_fresh_widen(
                            stmts_ids(sv),
                            first,
                            id_before,
                            first,
                            self.next_id as int,
                        );
                    }
                },
            }
            if self.current == before {
                break;
            }
        }
        Ok(statements)
    }

    // ----- declarations and statements -----

    fn declaration(&mut self) -> (r: Option<Stmt>)
        requires
            old(self).wf(),
        ensures
            Self::advanced(*old(self), *final(self)),
            old(self).errors@.len() <= final(self).errors@.len(),
            final(self).current > old(self).current || final(self).at_end(),
            r matches Some(s) ==> fresh_ids(
                stmt_ids(s@),
                old(self).next_id as int,
                final(self).next_id as int,
            ),
            r is None ==> final(self).errors@.len() > old(self).errors@.len(),
            final(self).state() == p_declaration(old(self).token_views(), old(self).state()).0,
            decl_outcome(r, p_declaration(old(self).token_views(), old(self).state()).1),
        decreases old(self).tokens@.len() - old(self).current, 30nat,
    {
        let res = if self.match_one(TokenType::Class) {
            self.class_declaration()
        } else if self.match_one(TokenType::Fun) {
            self.function(true)
        } else if self.match_one(TokenType::Var) {
            self.var_declaration()
        } else {
            self.statement()
        };
        match res {
            Ok(stmt) => Some(stmt),
            Err(e) => {
                self.errors.push(e);
                self.synchronize();
                None
            },
        }
    }

    #[verifier::spinoff_prover]
    #[verifier::rlimit(40)]
    fn class_declaration(&mut self) -> (r: Result<Stmt, CompiletimeError>)
        requires
            old(self).wf(),
        ensures
            Self::advanced(*old(self), *final(self)),
            old(self).errors@.len() <= final(self).errors@.len(),
            r matches Ok(s) ==> fresh_ids(
                stmt_ids(s@),
                old(self).next_id as int,
                final(self).next_id as int,
            ),
            r matches Ok(s) ==> s is Class,
            final(self).state() == p_class(old(self).token_views(), old(self).state()).0,
            stmt_outcome(r, p_class(old(self).token_views(), old(self).state()).1),
        decreases old(self).tokens@.len() - old(self).current, 29nat,
    {
        let ghost id0 = self.next_id as int;
        let name = self.consume(TokenType::Identifier, "Expect class name.")?;
        let super_class = if self.match_one(TokenType::Less) {
            let sname = self.consume(TokenType::Identifier, "Expect superclass name.")?;
            let id = self.fresh_id();
            Some(Expr::Variable { id, name: sname })
        } else {
            None
        };
        let ghost id1 = self.next_id as int;
        proof {
            if super_class is Some {
                assert(opt_expr_ids(super_class) =~= seq![(id1 - 1) as usize]);
            } else {
                lemma_fresh_empty(id0, id1);
            }
        }
        self.consume(TokenType::LeftBrace, "Expect '{' before class body.")?;
        let mut methods: Vec<Stmt> = Vec::new();
        let ghost ts = old(self).token_views();
        let ghost sm = self.state();
        let ghost sup_v = match &super_class {
            Some(e) => Some(e@),
            None => None,
        };
        proof {
            assert(stmts_view(methods@) =~= Seq::<StmtView>::empty());
            assert(p_class(ts, old(self).state()) == p_class_body(ts, sm, name@, sup_v));
        }
        while !self.check(TokenType::RightBrace) && !self.is_at_end()
            invariant
                ts == self.token_views(),
                p_class(ts, old(self).state()) == p_class_body(ts, sm, name@, sup_v),
                p_methods(ts, sm, Seq::empty()) == p_methods(ts, self.state(), stmts_view(methods@)),
                Self::advanced(*old(self), *self),
                self.current > old(self).current,
                old(self).errors@.len() <= self.errors@.len(),
                id1 <= self.next_id,
                fresh_ids(stmts_ids(stmts_view(methods@)), id1, self.next_id as int),
            decreases self.tokens@.len() - self.current,
        {
            let ghost id_before = self.next_id as int;
            let ghost sv = stmts_view(methods@);
            let ghost cur_before = self.current;
            let m = self.function(false)?;
            methods.push(m);
            proof {
                assert(stmts_view(methods@).drop_last() =~= sv);
                assert(stmts_view(methods@) =~= sv.push(methods@.last()@));
                lemma_fresh_concat(
                    stmts_ids(sv),
                    stmt_ids(methods@.last()@),
                    id1,
                    id_before,
                    self.next_id as int,
                );
            }
        }
        self.consume(TokenType::RightBrace, "Expect '}' after class body.")?;
        let ghost sc = super_class;
        let r = Stmt::Class { name, super_class, methods };
        proof {
            assert(option_expr_ids(stmt_view(r)->super_class) =~= opt_expr_ids(sc));
            assert(stmt_view(r)->methods =~= stmts_view(methods@));
            lemma_fresh_concat(
                opt_expr_ids(sc),
                stmts_ids(stmts_view(methods@)),
                id0,
                id1,
                self.next_id as int,
            );
        }
        Ok(r)
    }

    /// A function declaration or a method, after `fun` where it is one.
    #[verifier::spinoff_prover]
    #[verifier::rlimit(40)]
    fn function(&mut self, is_function: bool) -> (r: Result<Stmt, CompiletimeError>)
        requires
            old(self).wf(),
        ensures
            Self::advanced(*old(self), *final(self)),
            old(self).errors@.len() <= final(self).errors@.len(),
            r is Ok ==> final(self).current > old(self).current,
            r matches Ok(s) ==> fresh_ids(
                stmt_ids(s@),
                old(self).next_id as int,
                final(self).next_id as int,
            ),
            r matches Ok(s) ==> s is Function,
            final(self).state() == p_function(old(self).token_views(), old(self).state(), is_function).0,
            stmt_outcome(r, p_function(old(self).token_views(), old(self).state(), is_function).1),
        decreases old(self).tokens@.len() - old(self).current, 28nat,
    {
        let name = if is_function {
            self.consume(TokenType::Identifier, "Expect function name.")?
        } else {
            self.consume(TokenType::Identifier, "Expect method name.")?
        };
        if is_function {
            self.consume(TokenType::LeftParen, "Expect '(' after function name.")?;
        } else {
            self.consume(TokenType::LeftParen, "Expect '(' after method name.")?;
        }
        let mut params: Vec<Token> = Vec::new();
        let ghost ts = old(self).token_views();
        let ghost sp = self.state();
        proof {
            assert(tokens_seq_view(params@) =~= Seq::<TokenView>::empty());
            assert(p_function(ts, old(self).state(), is_function) == p_function_rest(
                ts,
                sp,
                name@,
                is_function,
            ));
        }
        if !self.check(TokenType::RightParen) {
            loop
                invariant_except_break
                    p_params(ts, sp, Seq::empty()) == p_params(
                        ts,
                        self.state(),
                        tokens_seq_view(params@),
                    ),
                invariant
                    Self::advanced(*old(self), *self),
                    self.next_id == old(self).next_id,
                    self.current > old(self).current,
                    old(self).errors@.len() <= self.errors@.len(),
                    ts == self.token_views(),
                    !next_is(ts, sp.pos, TokenType::RightParen),
                    p_function(ts, old(self).state(), is_function) == p_function_rest(
                        ts,
                        sp,
                        name@,
                        is_function,
                    ),
                ensures
                    Self::advanced(*old(self), *self),
                    self.next_id == old(self).next_id,
                    self.current > old(self).current,
                    old(self).errors@.len() <= self.errors@.len(),
                    p_params(ts, sp, Seq::empty()) == (
                        self.state(),
                        Ok::<Seq<TokenView>, SyntaxError>(tokens_seq_view(params@)),
                    ),
                decreases self.tokens@.len() - self.current,
            {
                let ghost s_before = self.state();
                let ghost before = tokens_seq_view(params@);
                if params.len() >= 255 {
                    let e = self.error("Can't have more than 255 parameters.");
                    self.errors.push(e);
                    proof {
                        assert(self.state() =~= record(
                            s_before,
                            error_at(ts, s_before.pos, "Can't have more than 255 parameters."@),
                        ));
                    }
                }
                let p = self.consume(TokenType::Identifier, "Expect parameter name.")?;
                params.push(p);
                proof {
                    assert(tokens_seq_view(params@) =~= before.push(params@.last()@));
                }
                if !self.match_one(TokenType::Comma) {
                    break;
                }
            }
        }
        self.consume(TokenType::RightParen, "Expect ')' after parameters.")?;
        if is_function {
            self.consume(TokenType::LeftBrace, "Expect '{' before function body.")?;
        } else {
            self.consume(TokenType::LeftBrace, "Expect '{' before method body.")?;
        }
        let body = self.block()?;
        let r = Stmt::Function { name, params, body };
        proof {
            assert(stmt_view(r)->Function_body =~= stmts_view(body@));
        }
        Ok(r)
    }

    fn var_declaration(&mut self) -> (r: Result<Stmt, CompiletimeError>)
        requires
            old(self).wf(),
        ensures
            Self::advanced(*old(self), *final(self)),
            old(self).errors@.len() <= final(self).errors@.len(),
            r is Ok ==> final(self).current > old(self).current,
            r matches Ok(s) ==> fresh_ids(
                stmt_ids(s@),
                old(self).next_id as int,
                final(self).next_id as int,
            ),
            r matches Ok(s) ==> s is Var,
            final(self).state() == p_var(old(self).token_views(), old(self).state()).0,
            stmt_outcome(r, p_var(old(self).token_views(), old(self).state()).1),
        decreases old(self).tokens@.len() - old(self).current, 27nat,
    {
        let ghost id0 = self.next_id as int;
        let name = self.consume(TokenType::Identifier, "Expect variable name.")?;
        let initializer = if self.match_one(TokenType::Equal) {
            Some(self.expression()?)
        } else {
            None
        };
        self.consume(TokenType::Semicolon, "Expect ';' after variable declaration")?;
        proof {
            if initializer is None {
                lemma_fresh_empty(id0, self.next_id as int);
            }
        }
        Ok(Stmt::Var { name, initializer: Box::new(initializer) })
    }

    #[verifier::spinoff_prover]
    #[verifier::rlimit(40)]
    fn statement(&mut self) -> (r: Result<Stmt, CompiletimeError>)
        requires
            old(self).wf(),
        ensures
            Self::advanced(*old(self), *final(self)),
            old(self).errors@.len() <= final(self).errors@.len(),
            r is Ok ==> final(self).current > old(self).current,
            r matches Ok(s) ==> fresh_ids(
                stmt_ids(s@),
                old(self).next_id as int,
                final(self).next_id as int,
            ),
            final(self).state() == p_statement(old(self).token_views(), old(self).state()).0,
            stmt_outcome(r, p_statement(old(self).token_views(), old(self).state()).1),
        decreases old(self).tokens@.len() - old(self).current, 25nat,
    {
        if self.match_one(TokenType::For) {
            self.for_statement()
        } else if self.match_one(TokenType::If) {
            self.if_statement()
        } else if self.match_one(TokenType::Print) {
            self.print_statement()
        } else if self.match_one(TokenType::Return) {
            self.return_statement()
        } else if self.match_one(TokenType::While) {
            self.while_statement()
        } else if self.match_one(TokenType::LeftBrace) {
            let statements = self.block()?;
            let r = Stmt::Block { statements };
            proof {
                assert(stmt_view(r)->statements =~= stmts_view(statements@));
            }
            Ok(r)
        } else {
            self.expression_statement()
        }
    }

    fn return_statement(&mut self) -> (r: Result<Stmt, CompiletimeError>)
        requires
            old(self).wf(),
            old(self).current > 0,
        ensures
            Self::advanced(*old(self), *final(self)),
            old(self).errors@.len() <= final(self).errors@.len(),
            r is Ok ==> final(self).current > old(self).current,
            r matches Ok(s) ==> fresh_ids(
                stmt_ids(s@),
                old(self).next_id as int,
                final(self).next_id as int,
            ),
            r matches Ok(s) ==> s is Return,
            final(self).state() == p_return(old(self).token_views(), old(self).state()).0,
            stmt_outcome(r, p_return(old(self).token_views(), old(self).state()).1),
        decreases old(self).tokens@.len() - old(self).current, 24nat,
    {
        let ghost id0 = self.next_id as int;
        let keyword = self.previous();
        let value = if !self.check(TokenType::Semicolon) {
            Some(Box::new(self.expression()?))
        } else {
            None
        };
        self.consume(TokenType::Semicolon, "Expect ';' after return value.")?;
        proof {
            if value is None {
                lemma_fresh_empty(id0, self.next_id as int);
            }
        }
        Ok(Stmt::Return { keyword, value })
    }

    fn while_statement(&mut self) -> (r: Result<Stmt, CompiletimeError>)
        requires
            old(self).wf(),
        ensures
            Self::advanced(*old(self), *final(self)),
            old(self).errors@.len() <= final(self).errors@.len(),
            r is Ok ==> final(self).current > old(self).current,
            r matches Ok(s) ==> fresh_ids(
                stmt_ids(s@),
                old(self).next_id as int,
                final(self).next_id as int,
            ),
            r matches Ok(s) ==> s is While,
            final(self).state() == p_while(old(self).token_views(), old(self).state()).0,
            stmt_outcome(r, p_while(old(self).token_views(), old(self).state()).1),
        decreases old(self).tokens@.len() - old(self).current, 24nat,
    {
        let ghost id0 = self.next_id as int;
        self.consume(TokenType::LeftParen, "Expect '(' after 'while'")?;
        let condition = self.expression()?;
        let ghost id1 = self.next_id as int;
        self.consume(TokenType::RightParen, "Expect ')' after 'while'")?;
        let body = self.statement()?;
        proof {
            lemma_fresh_concat(
                expr_ids(condition@),
                stmt_ids(body@),
                id0,
                id1,
                self.next_id as int,
            );
        }
        Ok(Stmt::While { condition: condition.into_box(), body: body.into_box() })
    }

    fn print_statement(&mut self) -> (r: Result<Stmt, CompiletimeError>)
        requires
            old(self).wf(),
        ensures
            Self::advanced(*old(self), *final(self)),
            old(self).errors@.len() <= final(self).errors@.len(),
            r is Ok ==> final(self).current > old(self).current,
            r matches Ok(s) ==> fresh_ids(
                stmt_ids(s@),
                old(self).next_id as int,
                final(self).next_id as int,
            ),
            r matches Ok(s) ==> s is Print,
            final(self).state() == p_print(old(self).token_views(), old(self).state()).0,
            stmt_outcome(r, p_print(old(self).token_views(), old(self).state()).1),
        decreases old(self).tokens@.len() - old(self).current, 24nat,
    {
        let value = self.expression()?;
        self.consume(TokenType::Semicolon, "Expect ';' after value")?;
        Ok(Stmt::Print { expression: value.into_box() })
    }

    #[verifier::spinoff_prover]
    #[verifier::rlimit(60)]
    fn for_statement(&mut self) -> (r: Result<Stmt, CompiletimeError>)
        requires
            old(self).wf(),
        ensures
            Self::advanced(*old(self), *final(self)),
            old(self).errors@.len() <= final(self).errors@.len(),
            r is Ok ==> final(self).current > old(self).current,
            r matches Ok(s) ==> fresh_ids(
                stmt_ids(s@),
                old(self).next_id as int,
                final(self).next_id as int,
            ),
            final(self).state() == p_for(old(self).token_views(), old(self).state()).0,
            stmt_outcome(r, p_for(old(self).token_views(), old(self).state()).1),
        decreases old(self).tokens@.len() - old(self).current, 24nat,
    {
        let ghost id0 = self.next_id as int;
        let ghost ts = old(self).token_views();
        let ghost s0 = old(self).state();
        self.consume(TokenType::LeftParen, "Expect '(' after 'for'")?;
        let ghost s1 = self.state();
        let initializer = if self.match_one(TokenType::Semicolon) {
            None
        } else if self.match_one(TokenType::Var) {
            Some(self.var_declaration()?)
        } else {
            Some(self.expression_statement()?)
        };
        let ghost id1 = self.next_id as int;
        let ghost init_v = opt_stmt_view(initializer);
        let ghost s2 = self.state();
        assert(p_for(ts, s0) == p_for_condition(ts, s2, init_v));
        let condition = if !self.check(TokenType::Semicolon) {
            Some(self.expression()?)
        } else {
            None
        };
        let ghost id2 = self.next_id as int;
        let ghost cond_v = opt_expr_view(condition);
        self.consume(TokenType::Semicolon, "Expect ';' after loop condition")?;
        let ghost s4 = self.state();
        assert(p_for_condition(ts, s2, init_v) == p_for_increment(ts, s4, init_v, cond_v));
        let increment = if !self.check(TokenType::RightParen) {
            Some(self.expression()?)
        } else {
            None
        };
        let ghost id3 = self.next_id as int;
        let ghost incr_v = opt_expr_view(increment);
        self.consume(TokenType::RightParen, "Expect ')' after for clauses")?;
        let ghost s6 = self.state();
        let mut body = self.statement()?;
        let ghost id4 = self.next_id as int;
        assert(p_for_increment(ts, s4, init_v, cond_v) == (
            self.state(),
            Ok::<StmtView, SyntaxError>(for_loop(init_v, cond_v, incr_v, body@)),
        ));
        let ghost b = body@;
        let ghost init_ids = opt_stmt_ids(initializer);
        let ghost cond_ids = opt_expr_ids(condition);
        let ghost incr_ids = opt_expr_ids(increment);
        proof {
            if initializer is None {
                lemma_fresh_empty(id0, id1);
            }
            if condition is None {
                lemma_fresh_empty(id1, id2);
            }
            if increment is None {
                lemma_fresh_empty(id2, id3);
            }
            lemma_fresh_concat(incr_ids, stmt_ids(b), id2, id3, id4);
            lemma_fresh_concat(cond_ids, stmt_ids(b) + incr_ids, id1, id2, id4);
            lemma_fresh_concat(init_ids, cond_ids + (stmt_ids(b) + incr_ids), id0, id1, id4);
        }
        let r = Self::desugar_for(initializer, condition, increment, body);
        Ok(r)
    }

    /// The statement a `for` loop stands for, as `for_loop` says; the ids
    /// of its parts in the order they were read.
    fn desugar_for(
        initializer: Option<Stmt>,
        condition: Option<Expr>,
        increment: Option<Expr>,
        body: Stmt,
    ) -> (r: Stmt)
        ensures
            r@ == for_loop(
                opt_stmt_view(initializer),
                opt_expr_view(condition),
                opt_expr_view(increment),
                body@,
            ),
            stmt_ids(r@) == opt_stmt_ids(initializer) + (opt_expr_ids(condition) + (stmt_ids(body@)
                + opt_expr_ids(increment))),
    {
        let mut body = body;
        let ghost b = body@;
        let ghost init_ids = opt_stmt_ids(initializer);
        let ghost cond_ids = opt_expr_ids(condition);
        let ghost incr_ids = opt_expr_ids(increment);
        let ghost init_v = opt_stmt_view(initializer);
        let ghost cond_v = opt_expr_view(condition);
        let ghost incr_v = opt_expr_view(increment);
        match increment {
            Some(increment) => {
                let inc = Stmt::Expression { expression: increment.into_box() };
                let mut statements: Vec<Stmt> = Vec::new();
                statements.push(body);
                statements.push(inc);
                body = Stmt::Block { statements };
                proof {
                    let sv = stmts_view(statements@);
                    assert(stmt_view(body)->statements =~= sv);
                    assert(sv.drop_last().drop_last() =~= Seq::<StmtView>::empty());
                    assert(sv.drop_last().last() == b);
                    assert(stmts_ids(Seq::<StmtView>::empty()) =~= Seq::<usize>::empty());
                    assert(stmts_ids(sv.drop_last()) == stmts_ids(sv.drop_last().drop_last())
                        + stmt_ids(sv.drop_last().last()));
                    assert(stmts_ids(sv) == stmts_ids(sv.drop_last()) + stmt_ids(sv.last()));
                    assert(stmts_ids(sv.drop_last()) =~= stmt_ids(b));
                    assert(stmt_ids(body@) =~= stmt_ids(b) + incr_ids);
                    assert(sv =~= seq![b, StmtView::Expression { expression: incr_v->0 }]);
                }
            },
            None => {
                proof {
                    assert(stmt_ids(body@) =~= stmt_ids(b) + incr_ids);
                }
            },
        }
        let condition = match condition {
            Some(c) => c,
            None => Expr::Literal { value: Literal::from_bool(true) },
        };
        proof {
            assert(expr_ids(condition@) =~= cond_ids);
        }
        let ghost wb = body@;
        body = Stmt::While { condition: condition.into_box(), body: body.into_box() };
        proof {
            assert(stmt_ids(body@) =~= cond_ids + (stmt_ids(b) + incr_ids));
        }
        let ghost w = body@;
        match initializer {
            Some(initializer) => {
                let ghost iv = initializer@;
                let mut statements: Vec<Stmt> = Vec::new();
                statements.push(initializer);
                statements.push(body);
                body = Stmt::Block { statements };
                proof {
                    let sv = stmts_view(statements@);
                    assert(stmt_view(body)->statements =~= sv);
                    assert(sv.drop_last().drop_last() =~= Seq::<StmtView>::empty());
                    assert(sv.drop_last().last() == iv);
                    assert(stmts_ids(Seq::<StmtView>::empty()) =~= Seq::<usize>::empty());
                    assert(stmts_ids(sv.drop_last()) == stmts_ids(sv.drop_last().drop_last())
                        + stmt_ids(sv.drop_last().last()));
                    assert(stmts_ids(sv) == stmts_ids(sv.drop_last()) + stmt_ids(sv.last()));
                    assert(stmts_ids(sv.drop_last()) =~= stmt_ids(iv));
                    assert(stmt_ids(body@) =~= init_ids + (cond_ids + (stmt_ids(b) + incr_ids)));
                    assert(sv =~= seq![iv, w]);
                }
            },
            None => {
                proof {
                    assert(stmt_ids(body@) =~= init_ids + (cond_ids + (stmt_ids(b) + incr_ids)));
                }
            },
        }
        body
    }

    #[verifier::spinoff_prover]
    #[verifier::rlimit(40)]
    fn if_statement(&mut self) -> (r: Result<Stmt, CompiletimeError>)
        requires
            old(self).wf(),
        ensures
            Self::advanced(*old(self), *final(self)),
            old(self).errors@.len() <= final(self).errors@.len(),
            r is Ok ==> final(self).current > old(self).current,
            r matches Ok(s) ==> fresh_ids(
                stmt_ids(s@),
                old(self).next_id as int,
                final(self).next_id as int,
            ),
            r matches Ok(s) ==> s is If,
            final(self).state() == p_if(old(self).token_views(), old(self).state()).0,
            stmt_outcome(r, p_if(old(self).token_views(), old(self).state()).1),
        decreases old(self).tokens@.len() - old(self).current, 24nat,
    {
        let ghost id0 = self.next_id as int;
        self.consume(TokenType::LeftParen, "Expect '(' after 'if'")?;
        let condition = self.expression()?;
        let ghost id1 = self.next_id as int;
        self.consume(TokenType::RightParen, "Expect ')' after if condition")?;
        let then_branch = self.statement()?;
        let ghost id2 = self.next_id as int;
        let else_branch = if self.match_one(TokenType::Else) {
            Some(self.statement()?.into_box())
        } else {
            None
        };
        let ghost else_ids = opt_box_stmt_ids(else_branch);
        proof {
            if else_branch is None {
                lemma_fresh_empty(id2, self.next_id as int);
            }
            lemma_fresh_concat(expr_ids(condition@), stmt_ids(then_branch@), id0, id1, id2);
            lemma_fresh_concat(
                expr_ids(condition@) + stmt_ids(then_branch@),
                else_ids,
                id0,
                id2,
                self.next_id as int,
            );
        }
        Ok(
            Stmt::If {
                condition: condition.into_box(),
                then_branch: then_branch.into_box(),
                else_branch,
            },
        )
    }

    /// The statements of a block, after its `{`, and its closing `}`.
    fn block(&mut self) -> (r: Result<Vec<Stmt>, CompiletimeError>)
        requires
            old(self).wf(),
        ensures
            Self::advanced(*old(self), *final(self)),
            old(self).errors@.len() <= final(self).errors@.len(),
            r is Ok ==> final(self).current > old(self).current,
            r matches Ok(v) ==> fresh_ids(
                stmts_ids(stmts_view(v@)),
                old(self).next_id as int,
                final(self).next_id as int,
            ),
            final(self).state() == p_block(old(self).token_views(), old(self).state()).0,
            stmts_outcome(r, p_block(old(self).token_views(), old(self).state()).1),
        decreases old(self).tokens@.len() - old(self).current, 35nat,
    {
        let mut statements: Vec<Stmt> = Vec::new();
        let ghost id0 = self.next_id as int;
        proof {
            assert(stmts_view(statements@) =~= Seq::<StmtView>::empty());
        }
        let ghost ts = old(self).token_views();
        let ghost sb = old(self).state();
        while !self.check(TokenType::RightBrace) && !self.is_at_end()
            invariant_except_break
                p_block_items(ts, sb, Seq::empty()) == p_block_items(
                    ts,
                    self.state(),
                    stmts_view(statements@),
                ),
            invariant
                Self::advanced(*old(self), *self),
                id0 == old(self).next_id,
                old(self).errors@.len() <= self.errors@.len(),
                fresh_ids(stmts_ids(stmts_view(statements@)), id0, self.next_id as int),
                ts == self.token_views(),
                sb == old(self).state(),
            ensures
                Self::advanced(*old(self), *self),
                old(self).errors@.len() <= self.errors@.len(),
                fresh_ids(stmts_ids(stmts_view(statements@)), id0, self.next_id as int),
                p_block_items(ts, sb, Seq::empty()) == (self.state(), stmts_view(statements@)),
            decreases self.tokens@.len() - self.current,
        {
            let ghost id_before = self.next_id as int;
            let ghost sv = stmts_view(statements@);
            let before = self.current;
            match self.declaration() {
                Some(stmt) => {
                    statements.push(stmt);
                    proof {
                        assert(stmts_view(statements@).drop_last() =~= sv);
                        assert(stmts_view(statements@) =~= sv.push(statements@.last()@));
                        lemma_fresh_concat(
                            stmts_ids(sv),
                            stmt_ids(statements@.last()@),
                            id0,
                            id_before,
                            self.next_id as int,
                        );
                    }
                },
                None => {},
            }
            if self.current == before {
                break;
            }
        }
        self.consume(TokenType::RightBrace, "Expect '}' after block")?;
        Ok(statements)
    }

    fn expression_statement(&mut self) -> (r: Result<Stmt, CompiletimeError>)
        requires
            old(self).wf(),
        ensures
            Self::advanced(*old(self), *final(self)),
            old(self).errors@.len() <= final(self).errors@.len(),
            r is Ok ==> final(self).current > old(self).current,
            r matches Ok(s) ==> fresh_ids(
                stmt_ids(s@),
                old(self).next_id as int,
                final(self).next_id as int,
            ),
            r matches Ok(s) ==> s is Expression,
            final(self).state() == p_expression_statement(old(self).token_views(), old(self).state()).0,
            stmt_outcome(r, p_expression_statement(old(self).token_views(), old(self).state()).1),
        decreases old(self).tokens@.len() - old(self).current, 23nat,
    {
        let expr = self.expression()?;
        self.consume(TokenType::Semicolon, "Expect ';' after expression")?;
        Ok(Stmt::Expression { expression: expr.into_box() })
    }

    // ----- expressions -----

    fn expression(&mut self) -> (r: Result<Expr, CompiletimeError>)
        requires
            old(self).wf(),
        ensures
            Self::advanced(*old(self), *final(self)),
            old(self).errors@.len() <= final(self).errors@.len(),
            r is Ok ==> final(self).current > old(self).current,
            r matches Ok(e) ==> fresh_ids(
                expr_ids(e@),
                old(self).next_id as int,
                final(self).next_id as int,
            ),
            final(self).state() == p_expression(old(self).token_views(), old(self).state()).0,
            expr_outcome(r, p_expression(old(self).token_views(), old(self).state()).1),
        decreases old(self).tokens@.len() - old(self).current, 20nat,
    {
        self.assignment()
    }

    fn assignment(&mut self) -> (r: Result<Expr, CompiletimeError>)
        requires
            old(self).wf(),
        ensures
            Self::advanced(*old(self), *final(self)),
            old(self).errors@.len() <= final(self).errors@.len(),
            r is Ok ==> final(self).current > old(self).current,
            r matches Ok(e) ==> fresh_ids(
                expr_ids(e@),
                old(self).next_id as int,
                final(self).next_id as int,
            ),
            final(self).state() == p_assignment(old(self).token_views(), old(self).state()).0,
            expr_outcome(r, p_assignment(old(self).token_views(), old(self).state()).1),
        decreases old(self).tokens@.len() - old(self).current, 19nat,
    {
        let ghost id0 = self.next_id as int;
        let expr = self.or_expr()?;
        if self.match_one(TokenType::Equal) {
            let ghost id1 = self.next_id as int;
            let equals = self.previous();
            let value = self.assignment()?;
            match expr {
                Expr::Variable { name, .. } => {
                    let ghost id2 = self.next_id as int;
                    let id = self.fresh_id();
                    proof {
                        lemma_fresh_widen(expr_ids(value@), id1, id2, id0, id2);
                        lemma_fresh_push(expr_ids(value@), id, id0, self.next_id as int);
                    }
                    Ok(Expr::Assign { id, name, value: value.into_box() })
                },
                Expr::Get { object, name } => {
                    proof {
                        lemma_fresh_concat(
                            expr_ids(object@),
                            expr_ids(value@),
                            id0,
                            id1,
                            self.next_id as int,
                        );
                    }
                    Ok(Expr::SetProperty { object, name, value: value.into_box() })
                },
                _ => Err(
                    CompiletimeError::ParseError {
                        line: equals.line,
                        message: String::from_str("Invalid assignment target"),
                        lexeme: equals.lexeme,
                    },
                ),
            }
        } else {
            Ok(expr)
        }
    }

    fn or_expr(&mut self) -> (r: Result<Expr, CompiletimeError>)
        requires
            old(self).wf(),
        ensures
            Self::advanced(*old(self), *final(self)),
            old(self).errors@.len() <= final(self).errors@.len(),
            r is Ok ==> final(self).current > old(self).current,
            r matches Ok(e) ==> fresh_ids(
                expr_ids(e@),
                old(self).next_id as int,
                final(self).next_id as int,
            ),
            final(self).state() == p_binary(old(self).token_views(), old(self).state(), 5).0,
            expr_outcome(r, p_binary(old(self).token_views(), old(self).state(), 5).1),
        decreases old(self).tokens@.len() - old(self).current, 18nat,
    {
        let ghost id0 = self.next_id as int;
        let mut expr = self.and_expr()?;
        while self.match_one(TokenType::Or)
            invariant
                self.token_views() == old(self).token_views(),
                p_binary(old(self).token_views(), old(self).state(), 5) == p_binary_rest(
                    old(self).token_views(),
                    self.state(),
                    5,
                    expr@,
                ),
                Self::advanced(*old(self), *self),
                self.current > old(self).current,
                old(self).errors@.len() <= self.errors@.len(),
                id0 == old(self).next_id,
                fresh_ids(expr_ids(expr@), id0, self.next_id as int),
            decreases self.tokens@.len() - self.current,
        {
            let ghost id1 = self.next_id as int;
            let ghost s_op = self.state();
            proof {
                lemma_next_in_single(old(self).token_views(), s_op.pos - 1, TokenType::Or);
                assert(binary_operators(5) == seq![TokenType::Or]);
            }
            let operator = self.previous();
            let right = match self.and_expr() {
                Ok(e) => e,
                Err(e) => {
                    proof {
                        let ts = old(self).token_views();
                        let s_head = ParseState { pos: s_op.pos - 1, id: s_op.id, errors: s_op.errors };
                        assert(s_op == advance(s_head));
                        lemma_next_in_single(ts, s_head.pos, TokenType::Or);
                        assert(binary_operators(5) == seq![TokenType::Or]);
                        assert(next_in(ts, s_head.pos, binary_operators(5)));
                        assert(p_binary_rest(ts, s_head, 5, expr@) == p_binary(ts, s_op, 4));
                    }
                    return Err(e);
                },
            };
            proof {
                lemma_fresh_concat(expr_ids(expr@), expr_ids(right@), id0, id1, self.next_id as int);
            }
            expr = Expr::Logical { left: expr.into_box(), operator, right: right.into_box() };
        }
        proof {
            lemma_next_in_single(old(self).token_views(), self.current as int, TokenType::Or);
            assert(binary_operators(5) == seq![TokenType::Or]);
        }
        Ok(expr)
    }

    fn and_expr(&mut self) -> (r: Result<Expr, CompiletimeError>)
        requires
            old(self).wf(),
        ensures
            Self::advanced(*old(self), *final(self)),
            old(self).errors@.len() <= final(self).errors@.len(),
            r is Ok ==> final(self).current > old(self).current,
            r matches Ok(e) ==> fresh_ids(
                expr_ids(e@),
                old(self).next_id as int,
                final(self).next_id as int,
            ),
            final(self).state() == p_binary(old(self).token_views(), old(self).state(), 4).0,
            expr_outcome(r, p_binary(old(self).token_views(), old(self).state(), 4).1),
        decreases old(self).tokens@.len() - old(self).current, 17nat,
    {
        let ghost id0 = self.next_id as int;
        let mut expr = self.equality()?;
        while self.match_one(TokenType::And)
            invariant
                self.token_views() == old(self).token_views(),
                p_binary(old(self).token_views(), old(self).state(), 4) == p_binary_rest(
                    old(self).token_views(),
                    self.state(),
                    4,
                    expr@,
                ),
                Self::advanced(*old(self), *self),
                self.current > old(self).current,
                old(self).errors@.len() <= self.errors@.len(),
                id0 == old(self).next_id,
                fresh_ids(expr_ids(expr@), id0, self.next_id as int),
            decreases self.tokens@.len() - self.current,
        {
            let ghost id1 = self.next_id as int;
            let ghost s_op = self.state();
            proof {
                lemma_next_in_single(old(self).token_views(), s_op.pos - 1, TokenType::And);
                assert(binary_operators(4) == seq![TokenType::And]);
            }
            let operator = self.previous();
            let right = match self.equality() {
                Ok(e) => e,
                Err(e) => {
                    proof {
                        let ts = old(self).token_views();
                        let s_head = ParseState { pos: s_op.pos - 1, id: s_op.id, errors: s_op.errors };
                        assert(s_op == advance(s_head));
                        lemma_next_in_single(ts, s_head.pos, TokenType::And);
                        assert(binary_operators(4) == seq![TokenType::And]);
                        assert(next_in(ts, s_head.pos, binary_operators(4)));
                        assert(p_binary_rest(ts, s_head, 4, expr@) == p_binary(ts, s_op, 3));
                    }
                    return Err(e);
                },
            };
            proof {
                lemma_fresh_concat(expr_ids(expr@), expr_ids(right@), id0, id1, self.next_id as int);
            }
            expr = Expr::Logical { left: expr.into_box(), operator, right: right.into_box() };
        }
        proof {
            lemma_next_in_single(old(self).token_views(), self.current as int, TokenType::And);
            assert(binary_operators(4) == seq![TokenType::And]);
        }
        Ok(expr)
    }

    fn equality(&mut self) -> (r: Result<Expr, CompiletimeError>)
        requires
            old(self).wf(),
        ensures
            Self::advanced(*old(self), *final(self)),
            old(self).errors@.len() <= final(self).errors@.len(),
            r is Ok ==> final(self).current > old(self).current,
            r matches Ok(e) ==> fresh_ids(
                expr_ids(e@),
                old(self).next_id as int,
                final(self).next_id as int,
            ),
            final(self).state() == p_binary(old(self).token_views(), old(self).state(), 3).0,
            expr_outcome(r, p_binary(old(self).token_views(), old(self).state(), 3).1),
        decreases old(self).tokens@.len() - old(self).current, 16nat,
    {
        let ghost id0 = self.next_id as int;
        let mut expr = self.comparison()?;
        while self.match_any(&[TokenType::BangEqual, TokenType::EqualEqual])
            invariant
                self.token_views() == old(self).token_views(),
                p_binary(old(self).token_views(), old(self).state(), 3) == p_binary_rest(
                    old(self).token_views(),
                    self.state(),
                    3,
                    expr@,
                ),
                Self::advanced(*old(self), *self),
                self.current > old(self).current,
                old(self).errors@.len() <= self.errors@.len(),
                id0 == old(self).next_id,
                fresh_ids(expr_ids(expr@), id0, self.next_id as int),
            decreases self.tokens@.len() - self.current,
        {
            let ghost id1 = self.next_id as int;
            let ghost s_op = self.state();
            let operator = self.previous();
            let right = match self.comparison() {
                Ok(e) => e,
                Err(e) => {
                    proof {
                        let ts = old(self).token_views();
                        let s_head = ParseState { pos: s_op.pos - 1, id: s_op.id, errors: s_op.errors };
                        assert(s_op == advance(s_head));
                        assert(next_in(ts, s_head.pos, binary_operators(3)));
                        assert(p_binary_rest(ts, s_head, 3, expr@) == p_binary(ts, s_op, 2));
                    }
                    return Err(e);
                },
            };
            proof {
                lemma_fresh_concat(expr_ids(expr@), expr_ids(right@), id0, id1, self.next_id as int);
            }
            expr = Expr::Binary { left: expr.into_box(), operator, right: right.into_box() };
        }
        Ok(expr)
    }

    fn comparison(&mut self) -> (r: Result<Expr, CompiletimeError>)
        requires
            old(self).wf(),
        ensures
            Self::advanced(*old(self), *final(self)),
            old(self).errors@.len() <= final(self).errors@.len(),
            r is Ok ==> final(self).current > old(self).current,
            r matches Ok(e) ==> fresh_ids(
                expr_ids(e@),
                old(self).next_id as int,
                final(self).next_id as int,
            ),
            final(self).state() == p_binary(old(self).token_views(), old(self).state(), 2).0,
            expr_outcome(r, p_binary(old(self).token_views(), old(self).state(), 2).1),
        decreases old(self).tokens@.len() - old(self).current, 15nat,
    {
        let ghost id0 = self.next_id as int;
        let mut expr = self.term()?;
        while self.match_any(
            &[TokenType::Greater, TokenType::GreaterEqual, TokenType::Less, TokenType::LessEqual],
        )
            invariant
                self.token_views() == old(self).token_views(),
                p_binary(old(self).token_views(), old(self).state(), 2) == p_binary_rest(
                    old(self).token_views(),
                    self.state(),
                    2,
                    expr@,
                ),
                Self::advanced(*old(self), *self),
                self.current > old(self).current,
                old(self).errors@.len() <= self.errors@.len(),
                id0 == old(self).next_id,
                fresh_ids(expr_ids(expr@), id0, self.next_id as int),
            decreases self.tokens@.len() - self.current,
        {
            let ghost id1 = self.next_id as int;
            let ghost s_op = self.state();
            let operator = self.previous();
            let right = match self.term() {
                Ok(e) => e,
                Err(e) => {
                    proof {
                        let ts = old(self).token_views();
                        let s_head = ParseState { pos: s_op.pos - 1, id: s_op.id, errors: s_op.errors };
                        assert(s_op == advance(s_head));
                        assert(next_in(ts, s_head.pos, binary_operators(2)));
                        assert(p_binary_rest(ts, s_head, 2, expr@) == p_binary(ts, s_op, 1));
                    }
                    return Err(e);
                },
            };
            proof {
                lemma_fresh_concat(expr_ids(expr@), expr_ids(right@), id0, id1, self.next_id as int);
            }
            expr = Expr::Binary { left: expr.into_box(), operator, right: right.into_box() };
        }
        Ok(expr)
    }

    fn term(&mut self) -> (r: Result<Expr, CompiletimeError>)
        requires
            old(self).wf(),
        ensures
            Self::advanced(*old(self), *final(self)),
            old(self).errors@.len() <= final(self).errors@.len(),
            r is Ok ==> final(self).current > old(self).current,
            r matches Ok(e) ==> fresh_ids(
                expr_ids(e@),
                old(self).next_id as int,
                final(self).next_id as int,
            ),
            final(self).state() == p_binary(old(self).token_views(), old(self).state(), 1).0,
            expr_outcome(r, p_binary(old(self).token_views(), old(self).state(), 1).1),
        decreases old(self).tokens@.len() - old(self).current, 14nat,
    {
        let ghost id0 = self.next_id as int;
        let mut expr = self.factor()?;
        while self.match_any(&[TokenType::Minus, TokenType::Plus])
            invariant
                self.token_views() == old(self).token_views(),
                p_binary(old(self).token_views(), old(self).state(), 1) == p_binary_rest(
                    old(self).token_views(),
                    self.state(),
                    1,
                    expr@,
                ),
                Self::advanced(*old(self), *self),
                self.current > old(self).current,
                old(self).errors@.len() <= self.errors@.len(),
                id0 == old(self).next_id,
                fresh_ids(expr_ids(expr@), id0, self.next_id as int),
            decreases self.tokens@.len() - self.current,
        {
            let ghost id1 = self.next_id as int;
            let ghost s_op = self.state();
            let operator = self.previous();
            let right = match self.factor() {
                Ok(e) => e,
                Err(e) => {
                    proof {
                        let ts = old(self).token_views();
                        let s_head = ParseState { pos: s_op.pos - 1, id: s_op.id, errors: s_op.errors };
                        assert(s_op == advance(s_head));
                        assert(next_in(ts, s_head.pos, binary_operators(1)));
                        assert(p_binary_rest(ts, s_head, 1, expr@) == p_binary(ts, s_op, 0));
                    }
                    return Err(e);
                },
            };
            proof {
                lemma_fresh_concat(expr_ids(expr@), expr_ids(right@), id0, id1, self.next_id as int);
            }
            expr = Expr::Binary { left: expr.into_box(), operator, right: right.into_box() };
        }
        Ok(expr)
    }

    fn factor(&mut self) -> (r: Result<Expr, CompiletimeError>)
        requires
            old(self).wf(),
        ensures
            Self::advanced(*old(self), *final(self)),
            old(self).errors@.len() <= final(self).errors@.len(),
            r is Ok ==> final(self).current > old(self).current,
            r matches Ok(e) ==> fresh_ids(
                expr_ids(e@),
                old(self).next_id as int,
                final(self).next_id as int,
            ),
            final(self).state() == p_binary(old(self).token_views(), old(self).state(), 0).0,
            expr_outcome(r, p_binary(old(self).token_views(), old(self).state(), 0).1),
        decreases old(self).tokens@.len() - old(self).current, 13nat,
    {
        let ghost id0 = self.next_id as int;
        let mut expr = self.unary()?;
        while self.match_any(&[TokenType::Slash, TokenType::Star])
            invariant
                self.token_views() == old(self).token_views(),
                p_binary(old(self).token_views(), old(self).state(), 0) == p_binary_rest(
                    old(self).token_views(),
                    self.state(),
                    0,
                    expr@,
                ),
                Self::advanced(*old(self), *self),
                self.current > old(self).current,
                old(self).errors@.len() <= self.errors@.len(),
                id0 == old(self).next_id,
                fresh_ids(expr_ids(expr@), id0, self.next_id as int),
            decreases self.tokens@.len() - self.current,
        {
            let ghost id1 = self.next_id as int;
            let ghost s_op = self.state();
            let operator = self.previous();
            let right = match self.unary() {
                Ok(e) => e,
                Err(e) => {
                    proof {
                        let ts = old(self).token_views();
                        let s_head = ParseState { pos: s_op.pos - 1, id: s_op.id, errors: s_op.errors };
                        assert(s_op == advance(s_head));
                        assert(next_in(ts, s_head.pos, binary_operators(0)));
                        assert(p_binary_rest(ts, s_head, 0, expr@) == p_unary(ts, s_op));
                    }
                    return Err(e);
                },
            };
            proof {
                lemma_fresh_concat(expr_ids(expr@), expr_ids(right@), id0, id1, self.next_id as int);
            }
            expr = Expr::Binary { left: expr.into_box(), operator, right: right.into_box() };
        }
        Ok(expr)
    }

    fn unary(&mut self) -> (r: Result<Expr, CompiletimeError>)
        requires
            old(self).wf(),
        ensures
            Self::advanced(*old(self), *final(self)),
            old(self).errors@.len() <= final(self).errors@.len(),
            r is Ok ==> final(self).current > old(self).current,
            r matches Ok(e) ==> fresh_ids(
                expr_ids(e@),
                old(self).next_id as int,
                final(self).next_id as int,
            ),
            final(self).state() == p_unary(old(self).token_views(), old(self).state()).0,
            expr_outcome(r, p_unary(old(self).token_views(), old(self).state()).1),
        decreases old(self).tokens@.len() - old(self).current, 12nat,
    {
        if self.match_any(&[TokenType::Bang, TokenType::Minus]) {
            let operator = self.previous();
            let right = self.unary()?;
            Ok(Expr::Unary { operator, right: right.into_box() })
        } else {
            self.call()
        }
    }

    fn call(&mut self) -> (r: Result<Expr, CompiletimeError>)
        requires
            old(self).wf(),
        ensures
            Self::advanced(*old(self), *final(self)),
            old(self).errors@.len() <= final(self).errors@.len(),
            r is Ok ==> final(self).current > old(self).current,
            r matches Ok(e) ==> fresh_ids(
                expr_ids(e@),
                old(self).next_id as int,
                final(self).next_id as int,
            ),
            final(self).state() == p_call(old(self).token_views(), old(self).state()).0,
            expr_outcome(r, p_call(old(self).token_views(), old(self).state()).1),
        decreases old(self).tokens@.len() - old(self).current, 11nat,
    {
        let ghost id0 = self.next_id as int;
        let mut expr = self.primary()?;
        loop
            invariant
                Self::advanced(*old(self), *self),
                self.current > old(self).current,
                old(self).errors@.len() <= self.errors@.len(),
                id0 == old(self).next_id,
                fresh_ids(expr_ids(expr@), id0, self.next_id as int),
                self.token_views() == old(self).token_views(),
                p_call(old(self).token_views(), old(self).state()) == p_call_rest(
                    old(self).token_views(),
                    self.state(),
                    expr@,
                ),
            ensures
                Self::advanced(*old(self), *self),
                self.current > old(self).current,
                old(self).errors@.len() <= self.errors@.len(),
                fresh_ids(expr_ids(expr@), id0, self.next_id as int),
                p_call(old(self).token_views(), old(self).state()) == (
                    self.state(),
                    Ok::<ExprView, SyntaxError>(expr@),
                ),
            decreases self.tokens@.len() - self.current,
        {
            if self.match_one(TokenType::LeftParen) {
                expr = self.finish_call(expr, Ghost(id0))?;
            } else if self.match_one(TokenType::Dot) {
                let name = self.consume(
                    TokenType::Identifier,
                    "Expect property name after '.'.",
                )?;
                expr = Expr::Get { object: expr.into_box(), name };
            } else {
                break;
            }
        }
        Ok(expr)
    }

    /// The arguments of a call, after its `(`, and its closing `)`.
    fn finish_call(&mut self, callee: Expr, Ghost(lo): Ghost<int>) -> (r: Result<
        Expr,
        CompiletimeError,
    >)
        requires
            old(self).wf(),
            lo <= old(self).next_id,
            fresh_ids(expr_ids(callee@), lo, old(self).next_id as int),
        ensures
            Self::advanced(*old(self), *final(self)),
            old(self).errors@.len() <= final(self).errors@.len(),
            r is Ok ==> final(self).current > old(self).current,
            r matches Ok(e) ==> fresh_ids(expr_ids(e@), lo, final(self).next_id as int),
            final(self).state() == p_finish_call(old(self).token_views(), old(self).state(), callee@).0,
            expr_outcome(r, p_finish_call(old(self).token_views(), old(self).state(), callee@).1),
        decreases old(self).tokens@.len() - old(self).current, 21nat,
    {
        let ghost id0 = self.next_id as int;
        let mut arguments: Vec<Box<Expr>> = Vec::new();
        proof {
            lemma_fresh_empty(id0, id0);
            assert(args_ids(Seq::<ExprView>::empty()) =~= Seq::<usize>::empty());
        }
        let ghost ts = old(self).token_views();
        let ghost sa = old(self).state();
        proof {
            assert(Seq::new(arguments@.len(), |i: int| expr_view(*arguments@[i]))
                =~= Seq::<ExprView>::empty());
        }
        if !self.check(TokenType::RightParen) {
            loop
                invariant_except_break
                    p_arguments(ts, sa, Seq::empty()) == p_arguments(
                        ts,
                        self.state(),
                        Seq::new(arguments@.len(), |i: int| expr_view(*arguments@[i])),
                    ),
                invariant
                    Self::advanced(*old(self), *self),
                    old(self).errors@.len() <= self.errors@.len(),
                    self.current >= old(self).current,
                    id0 == old(self).next_id,
                    fresh_ids(
                        args_ids(Seq::new(arguments@.len(), |i: int| expr_view(*arguments@[i]))),
                        id0,
                        self.next_id as int,
                    ),
                    ts == self.token_views(),
                    sa == old(self).state(),
                    !next_is(ts, sa.pos, TokenType::RightParen),
                ensures
                    Self::advanced(*old(self), *self),
                    old(self).errors@.len() <= self.errors@.len(),
                    self.current >= old(self).current,
                    fresh_ids(
                        args_ids(Seq::new(arguments@.len(), |i: int| expr_view(*arguments@[i]))),
                        id0,
                        self.next_id as int,
                    ),
                    p_arguments(ts, sa, Seq::empty()) == (
                        self.state(),
                        Ok::<Seq<ExprView>, SyntaxError>(
                            Seq::new(arguments@.len(), |i: int| expr_view(*arguments@[i])),
                        ),
                    ),
                decreases self.tokens@.len() - self.current,
            {
                let ghost s_before = self.state();
                if arguments.len() >= 255 {
                    let e = self.error("Can't have more than 255 arguments.");
                    self.errors.push(e);
                    proof {
                        assert(self.state() =~= record(
                            s_before,
                            error_at(ts, s_before.pos, "Can't have more than 255 arguments."@),
                        ));
                    }
                }
                let ghost id1 = self.next_id as int;
                let ghost before = Seq::new(
                    arguments@.len(),
                    |i: int| expr_view(*arguments@[i]),
                );
                let ghost s0 = self.state();
                let arg = match self.expression() {
                    Ok(a) => a,
                    Err(e) => {
                        proof {
                            let (s1, res) = p_expression(ts, s0);
                            assert(res is Err);
                            assert(p_arguments(ts, s_before, before) == (
                                s1,
                                Err::<Seq<ExprView>, SyntaxError>(res->Err_0),
                            ));
                        }
                        return Err(e);
                    },
                };
                arguments.push(Box::new(arg));
                proof {
                    let after = Seq::new(arguments@.len(), |i: int| expr_view(*arguments@[i]));
                    assert(after.drop_last() =~= before);
                    assert(after =~= before.push(after.last()));
                    lemma_fresh_concat(
                        args_ids(before),
                        expr_ids(after.last()),
                        id0,
                        id1,
                        self.next_id as int,
                    );
                }
                if !self.match_one(TokenType::Comma) {
                    break;
                }
            }
        }
        let paren = self.consume(TokenType::RightParen, "Expect ')' after arguments.")?;
        let r = Expr::Call { callee: callee.into_box(), paren, arguments };
        proof {
            let av = Seq::new(arguments@.len(), |i: int| expr_view(*arguments@[i]));
            assert(expr_view(r)->arguments =~= av);
            lemma_fresh_concat(expr_ids(callee@), args_ids(av), lo, id0, self.next_id as int);
        }
        Ok(r)
    }

    /// A literal, `this`, a variable, a `super` access or a parenthesized
    /// expression; which one the next token decides.
    fn primary(&mut self) -> (r: Result<Expr, CompiletimeError>)
        requires
            old(self).wf(),
        ensures
            Self::advanced(*old(self), *final(self)),
            old(self).errors@.len() <= final(self).errors@.len(),
            r is Ok ==> final(self).current > old(self).current,
            r matches Ok(e) ==> fresh_ids(
                expr_ids(e@),
                old(self).next_id as int,
                final(self).next_id as int,
            ),
            final(self).state() == p_primary(old(self).token_views(), old(self).state()).0,
            expr_outcome(r, p_primary(old(self).token_views(), old(self).state()).1),
        decreases old(self).tokens@.len() - old(self).current, 10nat,
    {
        let ghost id0 = self.next_id as int;
        if self.match_one(TokenType::False) {
            Ok(Expr::Literal { value: Literal::Bool(false) })
        } else if self.match_one(TokenType::True) {
            Ok(Expr::Literal { value: Literal::Bool(true) })
        } else if self.match_one(TokenType::Nil) {
            Ok(Expr::Literal { value: Literal::Nil })
        } else if self.match_any(&[TokenType::Number, TokenType::String]) {
            let value = match self.previous().literal {
                Some(l) => l,
                None => Literal::Nil,
            };
            Ok(Expr::Literal { value })
        } else if self.match_one(TokenType::Super) {
            let keyword = self.previous();
            self.consume(TokenType::Dot, "Expect '.' after 'super'.")?;
            let method = self.consume(TokenType::Identifier, "Expect superclass method name.")?;
            let id = self.fresh_id();
            Ok(Expr::Super { id, keyword, method })
        } else if self.match_one(TokenType::This) {
            let keyword = self.previous();
            let id = self.fresh_id();
            Ok(Expr::This { id, keyword })
        } else if self.match_one(TokenType::Identifier) {
            let name = self.previous();
            let id = self.fresh_id();
            Ok(Expr::Variable { id, name })
        } else if self.match_one(TokenType::LeftParen) {
            let expression = self.expression()?;
            self.consume(TokenType::RightParen, "Expect ')' after expression")?;
            Ok(Expr::Grouping { expression: expression.into_box() })
        } else {
            Err(self.error("Unknown token"))
        }
    }

    // ----- token helpers -----

    /// Hands out the next id; a token has been read for it.
    fn fresh_id(&mut self) -> (id: usize)
        requires
            old(self).wf(),
            old(self).next_id + (old(self).tokens@.len() - old(self).current) < usize::MAX,
        ensures
            id == old(self).next_id,
            final(self).next_id == old(self).next_id + 1,
            final(self).tokens@ == old(self).tokens@,
            final(self).current == old(self).current,
            final(self).errors@ == old(self).errors@,
            final(self).wf(),
    {
        let id = self.next_id;
        self.next_id = self.next_id + 1;
        id
    }

    fn consume(&mut self, token_type: TokenType, msg: &str) -> (r: Result<
        Token,
        CompiletimeError,
    >)
        requires
            old(self).wf(),
        ensures
            final(self).tokens@ == old(self).tokens@,
            final(self).next_id == old(self).next_id,
            final(self).errors@ == old(self).errors@,
            final(self).wf(),
            r is Ok ==> final(self).current == old(self).current + 1,
            r is Err ==> final(self).current == old(self).current,
            r is Ok == next_is(old(self).token_views(), old(self).current as int, token_type),
            r matches Ok(t) ==> t@ == old(self).token_views()[old(self).current as int],
            r matches Err(e) ==> error_view(e) == Some(
                error_at(old(self).token_views(), old(self).current as int, msg@),
            ),
    {
        if self.check(token_type) {
            Ok(self.advance())
        } else {
            Err(self.error(msg))
        }
    }

    /// A syntax error at the next token.
    fn error(&self, msg: &str) -> (e: CompiletimeError)
        requires
            self.wf(),
        ensures
            e matches CompiletimeError::ParseError { line, message, lexeme } && line
                == self.tokens@[self.current as int].line && message@ == msg@ && lexeme@
                == self.tokens@[self.current as int].lexeme@,
            error_view(e) == Some(error_at(self.token_views(), self.current as int, msg@)),
    {
        let token = self.peek();
        CompiletimeError::ParseError {
            line: token.line,
            message: String::from_str(msg),
            lexeme: token.lexeme.clone(),
        }
    }

    fn match_one(&mut self, t: TokenType) -> (b: bool)
        requires
            old(self).wf(),
        ensures
            final(self).tokens@ == old(self).tokens@,
            final(self).next_id == old(self).next_id,
            final(self).errors@ == old(self).errors@,
            final(self).wf(),
            b == (!old(self).at_end() && old(self).tokens@[old(self).current as int].token_type
                == t),
            b == next_is(old(self).token_views(), old(self).current as int, t),
            b ==> final(self).current == old(self).current + 1,
            !b ==> final(self).current == old(self).current,
    {
        if self.check(t) {
            self.advance();
            true
        } else {
            false
        }
    }

    fn match_any(&mut self, types: &[TokenType]) -> (b: bool)
        requires
            old(self).wf(),
        ensures
            final(self).tokens@ == old(self).tokens@,
            final(self).next_id == old(self).next_id,
            final(self).errors@ == old(self).errors@,
            final(self).wf(),
            b == (!old(self).at_end() && types@.contains(
                old(self).tokens@[old(self).current as int].token_type,
            )),
            b == next_in(old(self).token_views(), old(self).current as int, types@),
            b ==> final(self).current == old(self).current + 1,
            !b ==> final(self).current == old(self).current,
    {
        let mut i: usize = 0;
        while i < types.len()
            invariant
                self.tokens@ == old(self).tokens@,
                self.next_id == old(self).next_id,
                self.errors@ == old(self).errors@,
                self.current == old(self).current,
                self.wf(),
                i <= types@.len(),
                !old(self).at_end() ==> forall|j: int|
                    0 <= j < i ==> types@[j] != old(self).tokens@[old(self).current as int].token_type,
            decreases types@.len() - i,
        {
            if self.check(types[i]) {
                self.advance();
                return true;
            }
            i = i + 1;
        }
        false
    }

    fn check(&self, t: TokenType) -> (b: bool)
        requires
            self.wf(),
        ensures
            b == (!self.at_end() && self.tokens@[self.current as int].token_type == t),
            b == next_is(self.token_views(), self.current as int, t),
    {
        if self.is_at_end() {
            false
        } else {
            self.peek().token_type == t
        }
    }

    fn is_at_end(&self) -> (b: bool)
        requires
            self.wf(),
        ensures
            b == self.at_end(),
            b == ended_at(self.token_views(), self.current as int),
    {
        self.peek().token_type == TokenType::Eof
    }

    fn peek(&self) -> (t: &Token)
        requires
            self.wf(),
        ensures
            *t == self.tokens@[self.current as int],
    {
        &self.tokens[self.current]
    }

    fn advance(&mut self) -> (t: Token)
        requires
            old(self).wf(),
        ensures
            final(self).tokens@ == old(self).tokens@,
            final(self).next_id == old(self).next_id,
            final(self).errors@ == old(self).errors@,
            final(self).wf(),
            !old(self).at_end() ==> final(self).current == old(self).current + 1,
            old(self).at_end() ==> final(self).current == old(self).current,
            !old(self).at_end() ==> t@ == old(self).tokens@[old(self).current as int]@,
    {
        if !self.is_at_end() && self.current < self.tokens.len() - 1 {
            self.current = self.current + 1;
        }
        self.previous_or_current()
    }

    /// The token just read (the first token where none was read yet).
    fn previous_or_current(&self) -> (t: Token)
        requires
            self.wf(),
        ensures
            self.current > 0 ==> t@ == self.tokens@[self.current - 1]@,
    {
        if self.current > 0 {
            self.tokens[self.current - 1].duplicate()
        } else {
            self.tokens[0].duplicate()
        }
    }

    fn previous(&self) -> (t: Token)
        requires
            self.wf(),
            self.current > 0,
        ensures
            t@ == self.tokens@[self.current - 1]@,
            t@ == self.token_views()[self.current - 1],
    {
        let t = self.tokens[self.current - 1].duplicate();
        t
    }

    /// Skips tokens up to the start of the next statement.
    fn synchronize(&mut self)
        requires
            old(self).wf(),
        ensures
            final(self).tokens@ == old(self).tokens@,
            final(self).next_id == old(self).next_id,
            final(self).errors@ == old(self).errors@,
            final(self).wf(),
            final(self).current >= old(self).current,
            final(self).current > old(self).current || final(self).at_end(),
            final(self).current == synchronized(old(self).token_views(), old(self).current as int),
    {
        self.advance();
        while !self.is_at_end()
            invariant
                self.tokens@ == old(self).tokens@,
                self.next_id == old(self).next_id,
                self.errors@ == old(self).errors@,
                self.wf(),
                self.current >= old(self).current,
                self.current > old(self).current || self.at_end(),
                self.token_views() == old(self).token_views(),
                synchronized(old(self).token_views(), old(self).current as int) == skip_to_statement(
                    old(self).token_views(),
                    self.current as int,
                ),
            decreases self.tokens@.len() - self.current,
        {
            if self.previous().token_type == TokenType::Semicolon {
                return;
            }
            match self.peek().token_type {
                TokenType::Class | TokenType::Fun | TokenType::Var | TokenType::For
                | TokenType::If | TokenType::While | TokenType::Print | TokenType::Return => {
                    return;
                },
                _ => {
                    self.advance();
                },
            }
        }
    }
}

/// The values of a list of statements.
pub open spec fn stmts_view(v: Seq<Stmt>) -> Seq<StmtView> {
    Seq::new(v.len(), |i: int| stmt_view(v[i]))
}

} // verus!
