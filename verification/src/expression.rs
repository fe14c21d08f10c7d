use vstd::prelude::*;

use crate::text::push_str;
use crate::token::{Literal, LiteralView, Token, TokenView};
use crate::value::LoxNumber;

verus! {

broadcast use vstd::std_specs::vec::group_vec_axioms;

/// An expression of Lox. Variable references, assignments, `this` and
/// `super` carry an `id` by which the resolver and the interpreter find them.
#[derive(Debug)]
pub enum Expr {
    Unary { operator: Token, right: Box<Expr> },
    Assign { id: usize, name: Token, value: Box<Expr> },
    Binary { left: Box<Expr>, operator: Token, right: Box<Expr> },
    Grouping { expression: Box<Expr> },
    Literal { value: Literal },
    Variable { id: usize, name: Token },
    Logical { left: Box<Expr>, operator: Token, right: Box<Expr> },
    Call { callee: Box<Expr>, paren: Token, arguments: Vec<Box<Expr>> },
    Get { object: Box<Expr>, name: Token },
    SetProperty { object: Box<Expr>, name: Token, value: Box<Expr> },
    This { id: usize, keyword: Token },
    Super { id: usize, keyword: Token, method: Token },
}

/// The mathematical value of an expression.
pub enum ExprView {
    Unary { operator: TokenView, right: Box<ExprView> },
    Assign { id: usize, name: TokenView, value: Box<ExprView> },
    Binary { left: Box<ExprView>, operator: TokenView, right: Box<ExprView> },
    Grouping { expression: Box<ExprView> },
    Literal { value: LiteralView },
    Variable { id: usize, name: TokenView },
    Logical { left: Box<ExprView>, operator: TokenView, right: Box<ExprView> },
    Call { callee: Box<ExprView>, paren: TokenView, arguments: Seq<ExprView> },
    Get { object: Box<ExprView>, name: TokenView },
    SetProperty { object: Box<ExprView>, name: TokenView, value: Box<ExprView> },
    This { id: usize, keyword: TokenView },
    Super { id: usize, keyword: TokenView, method: TokenView },
}

/// The mathematical value of an expression.
pub open spec fn expr_view(e: Expr) -> ExprView
    decreases e,
{
    match e {
        Expr::Unary { operator, right } => ExprView::Unary {
            operator: operator@,
            right: Box::new(expr_view(*right)),
        },
        Expr::Assign { id, name, value } => ExprView::Assign {
            id,
            name: name@,
            value: Box::new(expr_view(*value)),
        },
        Expr::Binary { left, operator, right } => ExprView::Binary {
            left: Box::new(expr_view(*left)),
            operator: operator@,
            right: Box::new(expr_view(*right)),
        },
        Expr::Grouping { expression } => ExprView::Grouping {
            expression: Box::new(expr_view(*expression)),
        },
        Expr::Literal { value } => ExprView::Literal { value: value@ },
        Expr::Variable { id, name } => ExprView::Variable { id, name: name@ },
        Expr::Logical { left, operator, right } => ExprView::Logical {
            left: Box::new(expr_view(*left)),
            operator: operator@,
            right: Box::new(expr_view(*right)),
        },
        Expr::Call { callee, paren, arguments } => ExprView::Call {
            callee: Box::new(expr_view(*callee)),
            paren: paren@,
            arguments: Seq::new(
                arguments@.len(),
                |i: int|
                    if 0 <= i < arguments@.len() {
                        expr_view(*arguments@[i])
                    } else {
                        ExprView::Literal { value: LiteralView::Nil }
                    },
            ),
        },
        Expr::Get { object, name } => ExprView::Get {
            object: Box::new(expr_view(*object)),
            name: name@,
        },
        Expr::SetProperty { object, name, value } => ExprView::SetProperty {
            object: Box::new(expr_view(*object)),
            name: name@,
            value: Box::new(expr_view(*value)),
        },
        Expr::This { id, keyword } => ExprView::This { id, keyword: keyword@ },
        Expr::Super { id, keyword, method } => ExprView::Super {
            id,
            keyword: keyword@,
            method: method@,
        },
    }
}

impl View for Expr {
    type V = ExprView;

    open spec fn view(&self) -> ExprView {
        expr_view(*self)
    }
}

/// The number of nodes of an expression.
pub open spec fn expr_size(e: Expr) -> nat
    decreases e, 1nat,
{
    1 + match e {
        Expr::Unary { right, .. } => expr_size(*right),
        Expr::Assign { value, .. } => expr_size(*value),
        Expr::Binary { left, right, .. } => expr_size(*left) + expr_size(*right),
        Expr::Grouping { expression } => expr_size(*expression),
        Expr::Logical { left, right, .. } => expr_size(*left) + expr_size(*right),
        Expr::Call { callee, arguments, .. } => expr_size(*callee) + args_size(arguments@),
        Expr::Get { object, .. } => expr_size(*object),
        Expr::SetProperty { object, value, .. } => expr_size(*object) + expr_size(*value),
        _ => 0,
    }
}

/// The number of nodes of a list of expressions.
pub open spec fn args_size(s: Seq<Box<Expr>>) -> nat
    decreases s, 0nat,
{
    if s.len() == 0 {
        0
    } else {
        args_size(s.drop_last()) + expr_size(*s.last())
    }
}

pub proof fn lemma_args_size(s: Seq<Box<Expr>>, j: int)
    requires
        0 <= j < s.len(),
    ensures
        expr_size(*s[j]) <= args_size(s),
    decreases s.len(),
{
    if j < s.len() - 1 {
        lemma_args_size(s.drop_last(), j);
    }
}

/// The id an expression carries, if it is of a kind that has one.
pub open spec fn expr_id(e: Expr) -> Option<usize> {
    match e {
        Expr::Assign { id, .. } => Some(id),
        Expr::Variable { id, .. } => Some(id),
        Expr::This { id, .. } => Some(id),
        Expr::Super { id, .. } => Some(id),
        _ => None,
    }
}

impl Expr {
    pub fn id(&self) -> (r: Option<usize>)
        ensures
            r == expr_id(*self),
    {
        match self {
            Expr::Assign { id, .. } => Some(*id),
            Expr::Variable { id, .. } => Some(*id),
            Expr::This { id, .. } => Some(*id),
            Expr::Super { id, .. } => Some(*id),
            _ => None,
        }
    }

    /// The name of the class that a superclass expression refers to.
    pub fn as_superclass(&self) -> (r: Option<&Token>)
        ensures
            match *self {
                Expr::Variable { name, .. } => r == Some(&name),
                _ => r is None,
            },
    {
        match self {
            Expr::Variable { name, .. } => Some(name),
            _ => None,
        }
    }

    /// Consumes the value and wraps it in a Box.
    pub fn into_box(self) -> (r: Box<Self>)
        ensures
            *r == self,
    {
        Box::new(self)
    }

    /// A deep copy of the expression.
    pub fn duplicate(&self) -> (r: Expr)
        ensures
            r@ == self@,
        decreases self,
    {
        match self {
            Expr::Unary { operator, right } => Expr::Unary {
                operator: operator.duplicate(),
                right: Box::new((**right).duplicate()),
            },
            Expr::Assign { id, name, value } => Expr::Assign {
                id: *id,
                name: name.duplicate(),
                value: Box::new((**value).duplicate()),
            },
            Expr::Binary { left, operator, right } => Expr::Binary {
                left: Box::new((**left).duplicate()),
                operator: operator.duplicate(),
                right: Box::new((**right).duplicate()),
            },
            Expr::Grouping { expression } => Expr::Grouping {
                expression: Box::new((**expression).duplicate()),
            },
            Expr::Literal { value } => Expr::Literal { value: value.duplicate() },
            Expr::Variable { id, name } => Expr::Variable { id: *id, name: name.duplicate() },
            Expr::Logical { left, operator, right } => Expr::Logical {
                left: Box::new((**left).duplicate()),
                operator: operator.duplicate(),
                right: Box::new((**right).duplicate()),
            },
            Expr::Call { callee, paren, arguments } => {
                let mut args: Vec<Box<Expr>> = Vec::new();
                let mut i: usize = 0;
                assert forall|j: int| 0 <= j < arguments@.len() implies decreases_to!(*self => arguments@[j]) by {
                    assert(decreases_to!(*self => *arguments));
                    assert(decreases_to!(*arguments => arguments@));
                    assert(decreases_to!(arguments@ => arguments@[j]));
                }
                while i < arguments.len()
                    invariant
                        forall|j: int| 0 <= j < arguments@.len() ==> decreases_to!(*self => arguments@[j]),
                        i <= arguments@.len(),
                        args@.len() == i,
                        forall|j: int| 0 <= j < i ==> expr_view(*args@[j]) == expr_view(*arguments@[j]),
                    decreases arguments@.len() - i,
                {
                    assert(decreases_to!(*self => arguments@[i as int]));
                    args.push(Box::new((*arguments[i]).duplicate()));
                    i = i + 1;
                }
                let r = Expr::Call {
                    callee: Box::new((**callee).duplicate()),
                    paren: paren.duplicate(),
                    arguments: args,
                };
                proof {
                    assert(expr_view(r)->arguments =~= expr_view(*self)->arguments);
                }
                r
            },
            Expr::Get { object, name } => Expr::Get {
                object: Box::new((**object).duplicate()),
                name: name.duplicate(),
            },
            Expr::SetProperty { object, name, value } => Expr::SetProperty {
                object: Box::new((**object).duplicate()),
                name: name.duplicate(),
                value: Box::new((**value).duplicate()),
            },
            Expr::This { id, keyword } => Expr::This { id: *id, keyword: keyword.duplicate() },
            Expr::Super { id, keyword, method } => Expr::Super {
                id: *id,
                keyword: keyword.duplicate(),
                method: method.duplicate(),
            },
        }
    }
}

/// A boxed expression used by identity.
pub struct ExprRef(pub Box<Expr>);

impl ExprRef {
    pub fn new(expr: Expr) -> (r: ExprRef)
        ensures
            *r.0 == expr,
    {
        ExprRef(Box::new(expr))
    }

    pub fn from_rc(rc: Box<Expr>) -> (r: ExprRef)
        ensures
            r.0 == rc,
    {
        ExprRef(rc)
    }

    /// The expression held.
    pub fn expr(&self) -> (r: &Expr)
        ensures
            *r == *self.0,
    {
        &self.0
    }
}

/// How the printer shows a literal: a number as the number type `N`
/// shows the number its text reads as, a string as it is, `true`, `false`
/// and `nil`.
pub open spec fn literal_text<N: LoxNumber>(l: LiteralView) -> Option<Seq<char>> {
    match l {
        LiteralView::Number(t) => Some(N::literal_spec(t).text_spec()),
        LiteralView::Str(s) => Some(s),
        LiteralView::Bool(b) => Some(
            if b {
                "true"@
            } else {
                "false"@
            },
        ),
        LiteralView::Nil => Some("nil"@),
    }
}

impl Literal {
    /// The literal as text: a number as the number type `N` shows it, a
    /// string as it is, `true`, `false` and `nil`.
    pub fn text<N: LoxNumber>(&self) -> (s: String)
        ensures
            literal_text::<N>(self@) == Some(s@),
    {
        match self {
            Literal::Number(text) => N::from_literal(text.as_str()).to_text(),
            Literal::String(t) => t.clone(),
            Literal::Bool(b) => if *b {
                String::from_str("true")
            } else {
                String::from_str("false")
            },
            Literal::Nil => String::from_str("nil"),
        }
    }
}

/// The text of an expression in prefix form: a binary or unary operation
/// as its operator and operands in parentheses, a grouping as `group` and
/// its expression in parentheses, a literal as it shows, anything else as
/// `<expr>`.
pub open spec fn ast_text<N: LoxNumber>(e: ExprView) -> Option<Seq<char>>
    decreases e,
{
    match e {
        ExprView::Binary { left, operator, right } => match (ast_text::<N>(*left), ast_text::<N>(*right)) {
            (Some(l), Some(r)) => Some("("@ + operator.lexeme + " "@ + l + " "@ + r + ")"@),
            _ => None,
        },
        ExprView::Grouping { expression } => match ast_text::<N>(*expression) {
            Some(x) => Some("(group "@ + x + ")"@),
            None => None,
        },
        ExprView::Literal { value } => literal_text::<N>(value),
        ExprView::Unary { operator, right } => match ast_text::<N>(*right) {
            Some(r) => Some("("@ + operator.lexeme + " "@ + r + ")"@),
            None => None,
        },
        _ => Some("<expr>"@),
    }
}

/// Prints expressions in prefix form.
pub struct AstPrinter;

impl AstPrinter {
    /// The expression in prefix form. A number literal shows as the number
    /// type `N` prints it.
    pub fn print<N: LoxNumber>(&self, expr: &Expr) -> (s: String)
        ensures
            ast_text::<N>(expr@) matches Some(t) ==> s@ == t,
        decreases expr,
    {
        match expr {
            Expr::Binary { left, operator, right } => {
                let l = self.print::<N>(left);
                let r = self.print::<N>(right);
                let mut out = String::new();
                push_str(&mut out, "(");
                push_str(&mut out, operator.lexeme.as_str());
                push_str(&mut out, " ");
                push_str(&mut out, l.as_str());
                push_str(&mut out, " ");
                push_str(&mut out, r.as_str());
                push_str(&mut out, ")");
                out
            },
            Expr::Grouping { expression } => {
                let x = self.print::<N>(expression);
                let mut out = String::new();
                push_str(&mut out, "(group ");
                push_str(&mut out, x.as_str());
                push_str(&mut out, ")");
                out
            },
            Expr::Literal { value } => value.text::<N>(),
            Expr::Unary { operator, right } => {
                let r = self.print::<N>(right);
                let mut out = String::new();
                push_str(&mut out, "(");
                push_str(&mut out, operator.lexeme.as_str());
                push_str(&mut out, " ");
                push_str(&mut out, r.as_str());
                push_str(&mut out, ")");
                out
            },
            _ => String::from_str("<expr>"),
        }
    }
}

} // verus!
