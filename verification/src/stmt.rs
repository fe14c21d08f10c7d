use vstd::prelude::*;

use crate::expression::{Expr, ExprView, expr_size, expr_view};
use crate::token::{LiteralView, Token, TokenView};

verus! {

broadcast use vstd::std_specs::vec::group_vec_axioms;

/// A statement of Lox.
#[derive(Debug)]
pub enum Stmt {
    Expression { expression: Box<Expr> },
    Print { expression: Box<Expr> },
    Var { name: Token, initializer: Box<Option<Expr>> },
    Block { statements: Vec<Stmt> },
    If { condition: Box<Expr>, then_branch: Box<Stmt>, else_branch: Option<Box<Stmt>> },
    While { condition: Box<Expr>, body: Box<Stmt> },
    Function { name: Token, params: Vec<Token>, body: Vec<Stmt> },
    Return { keyword: Token, value: Option<Box<Expr>> },
    Class { name: Token, super_class: Option<Expr>, methods: Vec<Stmt> },
}

/// The mathematical value of a statement.
pub enum StmtView {
    Expression { expression: ExprView },
    Print { expression: ExprView },
    Var { name: TokenView, initializer: Option<ExprView> },
    Block { statements: Seq<StmtView> },
    If { condition: ExprView, then_branch: Box<StmtView>, else_branch: Option<Box<StmtView>> },
    While { condition: ExprView, body: Box<StmtView> },
    Function { name: TokenView, params: Seq<TokenView>, body: Seq<StmtView> },
    Return { keyword: TokenView, value: Option<ExprView> },
    Class { name: TokenView, super_class: Option<ExprView>, methods: Seq<StmtView> },
}

/// The values of a list of tokens.
pub open spec fn tokens_seq_view(v: Seq<Token>) -> Seq<TokenView> {
    Seq::new(v.len(), |i: int| v[i]@)
}

pub open spec fn placeholder() -> StmtView {
    StmtView::Block { statements: Seq::empty() }
}

/// The mathematical value of a statement.
pub open spec fn stmt_view(s: Stmt) -> StmtView
    decreases s,
{
    match s {
        Stmt::Expression { expression } => StmtView::Expression { expression: expr_view(*expression) },
        Stmt::Print { expression } => StmtView::Print { expression: expr_view(*expression) },
        Stmt::Var { name, initializer } => StmtView::Var {
            name: name@,
            initializer: match *initializer {
                Some(e) => Some(expr_view(e)),
                None => None,
            },
        },
        Stmt::Block { statements } => StmtView::Block {
            statements: Seq::new(
                statements@.len(),
                |i: int|
                    if 0 <= i < statements@.len() {
                        stmt_view(statements@[i])
                    } else {
                        placeholder()
                    },
            ),
        },
        Stmt::If { condition, then_branch, else_branch } => StmtView::If {
            condition: expr_view(*condition),
            then_branch: Box::new(stmt_view(*then_branch)),
            else_branch: match else_branch {
                Some(b) => Some(Box::new(stmt_view(*b))),
                None => None,
            },
        },
        Stmt::While { condition, body } => StmtView::While {
            condition: expr_view(*condition),
            body: Box::new(stmt_view(*body)),
        },
        Stmt::Function { name, params, body } => StmtView::Function {
            name: name@,
            params: tokens_seq_view(params@),
            body: Seq::new(
                body@.len(),
                |i: int|
                    if 0 <= i < body@.len() {
                        stmt_view(body@[i])
                    } else {
                        placeholder()
                    },
            ),
        },
        Stmt::Return { keyword, value } => StmtView::Return {
            keyword: keyword@,
            value: match value {
                Some(e) => Some(expr_view(*e)),
                None => None,
            },
        },
        Stmt::Class { name, super_class, methods } => StmtView::Class {
            name: name@,
            super_class: match super_class {
                Some(e) => Some(expr_view(e)),
                None => None,
            },
            methods: Seq::new(
                methods@.len(),
                |i: int|
                    if 0 <= i < methods@.len() {
                        stmt_view(methods@[i])
                    } else {
                        placeholder()
                    },
            ),
        },
    }
}

impl View for Stmt {
    type V = StmtView;

    open spec fn view(&self) -> StmtView {
        stmt_view(*self)
    }
}

/// The number of nodes of a statement, counting expressions too.
pub open spec fn stmt_size(s: Stmt) -> nat
    decreases s, 1nat,
{
    1 + match s {
        Stmt::Expression { expression } => expr_size(*expression),
        Stmt::Print { expression } => expr_size(*expression),
        Stmt::Var { initializer, .. } => match *initializer {
            Some(e) => expr_size(e),
            None => 0,
        },
        Stmt::Block { statements } => stmts_size(statements@),
        Stmt::If { condition, then_branch, else_branch } => expr_size(*condition) + stmt_size(
            *then_branch,
        ) + match else_branch {
            Some(b) => stmt_size(*b),
            None => 0,
        },
        Stmt::While { condition, body } => expr_size(*condition) + stmt_size(*body),
        Stmt::Function { body, .. } => stmts_size(body@),
        Stmt::Return { value, .. } => match value {
            Some(e) => expr_size(*e),
            None => 0,
        },
        Stmt::Class { super_class, methods, .. } => opt_expr_size(super_class) + stmts_size(
            methods@,
        ),
    }
}

pub open spec fn opt_expr_size(e: Option<Expr>) -> nat {
    match e {
        Some(e) => expr_size(e),
        None => 0,
    }
}

/// The number of nodes of a list of statements, plus one.
pub open spec fn stmts_size(s: Seq<Stmt>) -> nat
    decreases s, 0nat,
{
    if s.len() == 0 {
        1
    } else {
        stmts_size(s.drop_last()) + stmt_size(s.last())
    }
}

pub proof fn lemma_stmts_size(s: Seq<Stmt>, j: int)
    requires
        0 <= j < s.len(),
    ensures
        stmt_size(s[j]) < stmts_size(s),
    decreases s.len(),
{
    if j < s.len() - 1 {
        lemma_stmts_size(s.drop_last(), j);
    } else {
        lemma_stmts_size_pos(s.drop_last());
    }
}

pub proof fn lemma_stmts_size_pos(s: Seq<Stmt>)
    ensures
        stmts_size(s) >= 1,
    decreases s.len(),
{
    if s.len() > 0 {
        lemma_stmts_size_pos(s.drop_last());
    }
}

/// A copy of a list of tokens.
pub fn duplicate_tokens(v: &Vec<Token>) -> (r: Vec<Token>)
    ensures
        r@ == v@,
{
    let mut out: Vec<Token> = Vec::new();
    let mut i: usize = 0;
    while i < v.len()
        invariant
            i <= v@.len(),
            out@.len() == i,
            forall|j: int| 0 <= j < i ==> out@[j] == v@[j],
        decreases v@.len() - i,
    {
        out.push(v[i].duplicate());
        i = i + 1;
    }
    assert(out@ =~= v@);
    out
}

impl Stmt {
    pub fn into_box(self) -> (r: Box<Self>)
        ensures
            *r == self,
    {
        Box::new(self)
    }

    /// A deep copy of the statement.
    pub fn duplicate(&self) -> (r: Stmt)
        ensures
            r@ == self@,
        decreases self, 1nat,
    {
        match self {
            Stmt::Expression { expression } => Stmt::Expression {
                expression: Box::new((**expression).duplicate()),
            },
            Stmt::Print { expression } => Stmt::Print {
                expression: Box::new((**expression).duplicate()),
            },
            Stmt::Var { name, initializer } => {
                let init = match &**initializer {
                    Some(e) => Some(e.duplicate()),
                    None => None,
                };
                Stmt::Var { name: name.duplicate(), initializer: Box::new(init) }
            },
            Stmt::Block { statements } => {
                proof {
                    Self::lemma_children(self);
                }
                let r = Stmt::Block { statements: Self::duplicate_all(self, statements) };
                proof {
                    assert(stmt_view(r)->statements =~= stmt_view(*self)->statements);
                }
                r
            },
            Stmt::If { condition, then_branch, else_branch } => {
                let else_copy = match else_branch {
                    Some(b) => Some(Box::new((**b).duplicate())),
                    None => None,
                };
                Stmt::If {
                    condition: Box::new((**condition).duplicate()),
                    then_branch: Box::new((**then_branch).duplicate()),
                    else_branch: else_copy,
                }
            },
            Stmt::While { condition, body } => Stmt::While {
                condition: Box::new((**condition).duplicate()),
                body: Box::new((**body).duplicate()),
            },
            Stmt::Function { name, params, body } => {
                proof {
                    Self::lemma_children(self);
                }
                let r = Stmt::Function {
                    name: name.duplicate(),
                    params: duplicate_tokens(params),
                    body: Self::duplicate_all(self, body),
                };
                proof {
                    assert(stmt_view(r)->Function_body =~= stmt_view(*self)->Function_body);
                    assert(stmt_view(r)->params =~= stmt_view(*self)->params);
                }
                r
            },
            Stmt::Return { keyword, value } => {
                let v = match value {
                    Some(e) => Some(Box::new((**e).duplicate())),
                    None => None,
                };
                Stmt::Return { keyword: keyword.duplicate(), value: v }
            },
            Stmt::Class { name, super_class, methods } => {
                let sc = match super_class {
                    Some(e) => Some(e.duplicate()),
                    None => None,
                };
                proof {
                    Self::lemma_children(self);
                }
                let r = Stmt::Class {
                    name: name.duplicate(),
                    super_class: sc,
                    methods: Self::duplicate_all(self, methods),
                };
                proof {
                    assert(stmt_view(r)->methods =~= stmt_view(*self)->methods);
                }
                r
            },
        }
    }

    proof fn lemma_children(s: &Stmt)
        ensures
            match *s {
                Stmt::Block { statements } => forall|j: int|
                    0 <= j < statements@.len() ==> decreases_to!(*s => statements@[j]),
                Stmt::Function { body, .. } => forall|j: int|
                    0 <= j < body@.len() ==> decreases_to!(*s => body@[j]),
                Stmt::Class { methods, .. } => forall|j: int|
                    0 <= j < methods@.len() ==> decreases_to!(*s => methods@[j]),
                _ => true,
            },
    {
        match *s {
            Stmt::Block { statements } => {
                assert forall|j: int| 0 <= j < statements@.len() implies decreases_to!(*s => statements@[j]) by {
                    assert(decreases_to!(*s => statements));
                    assert(decreases_to!(statements => statements@));
                    assert(decreases_to!(statements@ => statements@[j]));
                }
            },
            Stmt::Function { body, .. } => {
                assert forall|j: int| 0 <= j < body@.len() implies decreases_to!(*s => body@[j]) by {
                    assert(decreases_to!(*s => body));
                    assert(decreases_to!(body => body@));
                    assert(decreases_to!(body@ => body@[j]));
                }
            },
            Stmt::Class { methods, .. } => {
                assert forall|j: int| 0 <= j < methods@.len() implies decreases_to!(*s => methods@[j]) by {
                    assert(decreases_to!(*s => methods));
                    assert(decreases_to!(methods => methods@));
                    assert(decreases_to!(methods@ => methods@[j]));
                }
            },
            _ => {},
        }
    }

    /// A deep copy of statements that `parent` holds.
    fn duplicate_all(parent: &Stmt, v: &Vec<Stmt>) -> (r: Vec<Stmt>)
        requires
            forall|j: int| 0 <= j < v@.len() ==> decreases_to!(*parent => v@[j]),
        ensures
            r@.len() == v@.len(),
            forall|j: int| 0 <= j < v@.len() ==> stmt_view(r@[j]) == stmt_view(v@[j]),
        decreases parent, 0nat,
    {
        let mut out: Vec<Stmt> = Vec::new();
        let mut i: usize = 0;
        while i < v.len()
            invariant
                i <= v@.len(),
                out@.len() == i,
                forall|j: int| 0 <= j < i ==> stmt_view(out@[j]) == stmt_view(v@[j]),
                forall|j: int| 0 <= j < v@.len() ==> decreases_to!(*parent => v@[j]),
            decreases v@.len() - i,
        {
            out.push(v[i].duplicate());
            i = i + 1;
        }
        out
    }
}

} // verus!
