use std::collections::HashMap;

use vstd::prelude::*;

use crate::environment::{
    Environment, Environments, FrameView, ancestor, binder, frames_wf, law_assign_at_then_get_at,
    law_assign_then_get, resolve, store_at,
};
use crate::error::RuntimeError;
use crate::expression::{Expr, ExprView, expr_id, expr_size, lemma_args_size};
use crate::parser::stmts_view;
use crate::stmt::{Stmt, StmtView, lemma_stmts_size, stmt_size, stmts_size, tokens_seq_view};
use crate::text::{push_str};
use crate::token::{Literal, LiteralView, Token, TokenType, TokenView};
use crate::value::{
    Class, Function, FunctionView, Instance, InstanceView, IsTruthy, LoxNumber, class_equal,
    function_equal, find_entry, Value, ValueView,
    ClassView, arity_spec, find_method_spec, lemma_store, lookup, pairs_view, store, store_entry,
    truthy,
};

verus! {

broadcast use {vstd::std_specs::hash::group_hash_axioms, vstd::std_specs::vec::group_vec_axioms};

/// How a statement stops early: with an error, or by returning a value.
#[derive(Debug)]
pub enum RuntimeControl<N> {
    Error(RuntimeError<N>),
    Return(Value<N>),
}

impl<N> RuntimeControl<N> {
    /// The error a statement outside any function stops with: a `return`
    /// there is `ReturnOutsideFunction`.
    pub fn into_runtime_error(self) -> (e: RuntimeError<N>)
        ensures
            match self {
                RuntimeControl::Error(err) => e == err,
                RuntimeControl::Return(_) => e == RuntimeError::<N>::ReturnOutsideFunction,
            },
    {
        match self {
            RuntimeControl::Error(err) => err,
            RuntimeControl::Return(_) => RuntimeError::ReturnOutsideFunction,
        }
    }
}

/// The clock's reading, as std represents it.
#[verifier::external_type_specification]
#[verifier::external_body]
pub struct ExSystemTime(std::time::SystemTime);

/// The current time.
///
/// Trusted: calls `std::time::SystemTime::now`. The clock decides the
/// result, so nothing is stated of it.
#[verifier::external_body]
fn system_now() -> (t: std::time::SystemTime) {
    std::time::SystemTime::now()
}

/// How long after the Unix epoch the time `t` lies; `None` for a time
/// before the epoch.
///
/// Trusted: calls `std::time::SystemTime::duration_since` with
/// `UNIX_EPOCH`, which fails exactly for a time before the epoch. What the
/// span is for a given time is not stated: the time is opaque here.
#[verifier::external_body]
fn since_epoch(t: &std::time::SystemTime) -> (r: Option<std::time::Duration>) {
    match t.duration_since(std::time::UNIX_EPOCH) {
        Ok(d) => Some(d),
        Err(_) => None,
    }
}

/// The whole seconds of a span of time.
///
/// Trusted: calls `std::time::Duration::as_secs`. The span is opaque here,
/// so nothing is stated of the result.
#[verifier::external_body]
fn whole_seconds(d: &std::time::Duration) -> (r: u64) {
    d.as_secs()
}

/// The nanoseconds of a span of time past its whole seconds.
///
/// Trusted: calls `std::time::Duration::subsec_nanos`, which std documents
/// to be less than one billion.
#[verifier::external_body]
fn nanos_part(d: &std::time::Duration) -> (r: u32)
    ensures
        r < 1_000_000_000,
{
    d.subsec_nanos()
}

/// Both decided and true; undecided where either is.
pub open spec fn both(a: Option<bool>, b: Option<bool>) -> Option<bool> {
    match (a, b) {
        (Some(x), Some(y)) => Some(x && y),
        _ => None,
    }
}

/// Whether two values are equal, as far as that is decided with `depth`
/// instances still to look into: `nil` equals `nil`; booleans, strings and
/// native functions compare by value, numbers as their number type says,
/// classes and functions as `class_equal` and `function_equal` say, and
/// instances by content: their classes, then their fields. Values of
/// different kinds are unequal. `None` where it is not decided.
pub open spec fn value_equal<N: LoxNumber>(
    a: ValueView<N>,
    b: ValueView<N>,
    heap: Seq<InstanceView<N>>,
    depth: nat,
) -> Option<bool>
    decreases depth, 0nat, 0nat,
{
    match (a, b) {
        (ValueView::Nil, ValueView::Nil) => Some(true),
        (ValueView::Bool(x), ValueView::Bool(y)) => Some(x == y),
        (ValueView::Number(x), ValueView::Number(y)) => Some(x.equals_spec(y)),
        (ValueView::Str(x), ValueView::Str(y)) => Some(x == y),
        (ValueView::Native(x), ValueView::Native(y)) => Some(x == y),
        (ValueView::Function(x), ValueView::Function(y)) => function_equal(x, y),
        (ValueView::Class(x), ValueView::Class(y)) => class_equal(x, y),
        (ValueView::Instance(x), ValueView::Instance(y)) => if depth > 0 && x < heap.len() && y
            < heap.len() {
            match class_equal(heap[x as int].class, heap[y as int].class) {
                Some(true) => if heap[x as int].fields.len() != heap[y as int].fields.len() {
                    Some(false)
                } else {
                    fields_equal(heap[x as int].fields, heap[y as int].fields, heap, (depth - 1) as nat)
                },
                other => other,
            }
        } else {
            None
        },
        _ => Some(false),
    }
}

/// Whether each field of `f1` is a field of `f2` with an equal value.
pub open spec fn fields_equal<N: LoxNumber>(
    f1: Seq<(Seq<char>, ValueView<N>)>,
    f2: Seq<(Seq<char>, ValueView<N>)>,
    heap: Seq<InstanceView<N>>,
    depth: nat,
) -> Option<bool>
    decreases depth, 1nat, f1.len(),
{
    if f1.len() == 0 {
        Some(true)
    } else {
        let first = match lookup(f2, f1[0].0) {
            Some(v) => value_equal(f1[0].1, v, heap, depth),
            None => Some(false),
        };
        both(first, fields_equal(f1.drop_first(), f2, heap, depth))
    }
}

/// `r` is the type error with message `message` about the value `value`.
pub open spec fn type_error<N: LoxNumber, T>(
    r: Result<T, RuntimeError<N>>,
    message: Seq<char>,
    value: ValueView<N>,
) -> bool {
    r matches Err(RuntimeError::TypeError { message: m, value: v }) && m@ == message && (*v)@
        == value
}

/// The value a variable reads as: from the frame the resolver recorded for
/// its id, counted out from frame `current`, or else from the globals.
pub open spec fn variable_value<N: LoxNumber>(
    frames: Seq<FrameView<N>>,
    current: int,
    globals: int,
    locals: Map<usize, usize>,
    id: Option<usize>,
    name: Seq<char>,
) -> Option<ValueView<N>> {
    if id is Some && locals.contains_key(id->0) {
        match ancestor(frames, current, locals[id->0] as nat) {
            Some(a) => lookup(frames[a].values, name),
            None => None,
        }
    } else {
        resolve(frames, globals, name)
    }
}

/// The text `print` shows for a value, where it does not depend on the
/// number type: an instance shows its class's name and ` instance`.
pub open spec fn shown<N: LoxNumber>(v: ValueView<N>, heap: Seq<InstanceView<N>>) -> Option<Seq<char>> {
    match v {
        ValueView::Nil => Some("nil"@),
        ValueView::Bool(b) => Some(
            if b {
                "true"@
            } else {
                "false"@
            },
        ),
        ValueView::Number(n) => Some(n.text_spec()),
        ValueView::Str(t) => Some(t),
        ValueView::Native(_) => Some("<native fn>"@),
        ValueView::Function(f) => match f.declaration {
            StmtView::Function { name, .. } => Some("<fn "@ + name.lexeme + ">"@),
            _ => Some("<fn>"@),
        },
        ValueView::Class(c) => Some(c.name),
        ValueView::Instance(h) => Some(
            if h < heap.len() {
                heap[h as int].class.name + " instance"@
            } else {
                "instance"@
            },
        ),
    }
}

/// Equality of values that are not numbers or instances is symmetric;
/// `nil`, booleans, strings and native functions equal themselves, and a
/// class is never found unequal to itself.
pub proof fn law_equality_symmetric<N: LoxNumber>(
    a: ValueView<N>,
    b: ValueView<N>,
    heap: Seq<InstanceView<N>>,
    depth: nat,
)
    requires
        !(a is Number || a is Instance),
    ensures
        value_equal(a, b, heap, depth) == value_equal(b, a, heap, depth),
        (a is Nil || a is Bool || a is Str || a is Native) ==> value_equal(a, a, heap, depth) == Some(
            true,
        ),
        a is Class ==> value_equal(a, a, heap, depth) != Some(false),
{
    match (a, b) {
        (ValueView::Class(x), ValueView::Class(y)) => {
            lemma_class_equal_symmetric(x, y);
            lemma_class_equal_reflexive_any(x);
        },
        (ValueView::Class(x), _) => {
            lemma_class_equal_reflexive_any(x);
        },
        _ => {},
    }
}

/// Comparing classes is symmetric.
pub proof fn lemma_class_equal_symmetric(x: ClassView, y: ClassView)
    ensures
        class_equal(x, y) == class_equal(y, x),
    decreases x,
{
    if x.name == y.name {
        match (x.superclass, y.superclass) {
            (Some(a), Some(b)) => lemma_class_equal_symmetric(*a, *b),
            _ => {},
        }
    }
}

/// Comparing a class with itself is never false.
pub proof fn lemma_class_equal_reflexive_any(x: ClassView)
    ensures
        class_equal(x, x) != Some(false),
    decreases x,
{
    match x.superclass {
        Some(a) => lemma_class_equal_reflexive_any(*a),
        None => {},
    }
}

/// The value of a binary operation other than equality: arithmetic on
/// numbers as their number type says, concatenation of two strings, and
/// comparison (false where the values are not both numbers). `None` where
/// the operation fails.
pub open spec fn arith_value<N: LoxNumber>(op: TokenType, l: ValueView<N>, r: ValueView<N>) -> Option<
    ValueView<N>,
> {
    if op == TokenType::Greater || op == TokenType::GreaterEqual || op == TokenType::Less || op
        == TokenType::LessEqual {
        match (l, r) {
            (ValueView::Number(x), ValueView::Number(y)) => Some(
                ValueView::Bool(
                    if op == TokenType::Greater {
                        x.greater_spec(y)
                    } else if op == TokenType::GreaterEqual {
                        x.greater_equal_spec(y)
                    } else if op == TokenType::Less {
                        x.less_spec(y)
                    } else {
                        x.less_equal_spec(y)
                    },
                ),
            ),
            _ => Some(ValueView::Bool(false)),
        }
    } else if op == TokenType::Plus {
        match (l, r) {
            (ValueView::Number(x), ValueView::Number(y)) => Some(ValueView::Number(x.plus_spec(y))),
            (ValueView::Str(a), ValueView::Str(b)) => Some(ValueView::Str(a + b)),
            _ => None,
        }
    } else if op == TokenType::Minus || op == TokenType::Star || op == TokenType::Slash {
        match (l, r) {
            (ValueView::Number(x), ValueView::Number(y)) => Some(
                ValueView::Number(
                    if op == TokenType::Minus {
                        x.minus_spec(y)
                    } else if op == TokenType::Star {
                        x.times_spec(y)
                    } else {
                        x.divided_by_spec(y)
                    },
                ),
            ),
            _ => None,
        }
    } else {
        None
    }
}

/// The value of a binary operation: equality as `value_equal` decides it
/// with instances looked into as deep as a machine word counts, and the
/// others as `arith_value` says.
pub open spec fn binary_value<N: LoxNumber>(
    op: TokenType,
    l: ValueView<N>,
    r: ValueView<N>,
    heap: Seq<InstanceView<N>>,
) -> Option<ValueView<N>> {
    if op == TokenType::EqualEqual || op == TokenType::BangEqual {
        match value_equal(l, r, heap, u64::MAX as nat) {
            Some(b) => Some(ValueView::Bool(if op == TokenType::EqualEqual { b } else { !b })),
            None => None,
        }
    } else {
        arith_value(op, l, r)
    }
}

/// The value of a literal.
pub open spec fn literal_view_value<N: LoxNumber>(l: LiteralView) -> Option<ValueView<N>> {
    match l {
        LiteralView::Nil => Some(ValueView::Nil),
        LiteralView::Bool(b) => Some(ValueView::Bool(b)),
        LiteralView::Str(t) => Some(ValueView::Str(t)),
        LiteralView::Number(t) => Some(ValueView::Number(N::literal_spec(t))),
    }
}

/// The frames after assigning `value` to the variable `name` with id `id`:
/// in the frame the resolver recorded for the id, counted out from frame
/// `current`, where that frame binds the name; or else in the frame that
/// binds it, seen from the globals. `None` where the assignment fails.
pub open spec fn assigned<N: LoxNumber>(
    frames: Seq<FrameView<N>>,
    current: int,
    globals: int,
    locals: Map<usize, usize>,
    id: usize,
    name: Seq<char>,
    value: ValueView<N>,
) -> Option<Seq<FrameView<N>>> {
    if locals.contains_key(id) {
        match ancestor(frames, current, locals[id] as nat) {
            Some(a) => if lookup(frames[a].values, name) is Some {
                Some(store_at(frames, a, name, value))
            } else {
                None
            },
            None => None,
        }
    } else {
        match binder(frames, globals, name) {
            Some(b) => Some(store_at(frames, b, name, value)),
            None => None,
        }
    }
}

/// The values of a list of values.
pub open spec fn values_view<N: LoxNumber>(v: Seq<Value<N>>) -> Seq<ValueView<N>> {
    Seq::new(v.len(), |i: int| v[i]@)
}

/// The frames with the parameters `params` bound to the arguments `args`, in
/// order, in frame `env`.
pub open spec fn bind_params<N: LoxNumber>(
    frames: Seq<FrameView<N>>,
    env: int,
    params: Seq<TokenView>,
    args: Seq<ValueView<N>>,
) -> Seq<FrameView<N>>
    decreases params.len(),
{
    if params.len() == 0 {
        frames
    } else {
        store_at(
            bind_params(frames, env, params.drop_last(), args),
            env,
            params.last().lexeme,
            args[params.len() - 1],
        )
    }
}

/// The methods a class declaration gives its class, each closing over frame
/// `env`: a later method replaces an earlier one of the same name, and the
/// one named `init` is the initializer.
pub open spec fn declared_methods(methods: Seq<StmtView>, env: usize) -> Seq<
    (Seq<char>, FunctionView),
>
    decreases methods.len(),
{
    if methods.len() == 0 {
        Seq::empty()
    } else {
        let before = declared_methods(methods.drop_last(), env);
        match methods.last() {
            StmtView::Function { name, .. } => store(
                before,
                name.lexeme,
                FunctionView {
                    declaration: methods.last(),
                    closure: env,
                    is_initializer: name.lexeme == "init"@,
                },
            ),
            _ => before,
        }
    }
}

/// What a class declaration does, in frames `frames` with current frame
/// `current`, given its superclass `superclass`: it binds the name, and
/// where there is a superclass, a new frame binds `super` to it and the
/// methods close over that frame.
pub open spec fn declare_class<N: LoxNumber>(
    frames: Seq<FrameView<N>>,
    current: int,
    name: Seq<char>,
    superclass: Option<ClassView>,
    methods: Seq<StmtView>,
) -> Seq<FrameView<N>> {
    let f1 = store_at(frames, current, name, ValueView::Nil);
    let f2 = match superclass {
        Some(c) => store_at(
            f1.push(FrameView { values: Seq::empty(), enclosing: Some(current as usize) }),
            f1.len() as int,
            "super"@,
            ValueView::Class(c),
        ),
        None => f1,
    };
    let env: usize = match superclass {
        Some(_) => f1.len() as usize,
        None => current as usize,
    };
    let class = ClassView {
        name,
        superclass: match superclass {
            Some(c) => Some(Box::new(c)),
            None => None,
        },
        methods: declared_methods(methods, env),
    };
    store_at(f2, current, name, ValueView::Class(class))
}

/// The number of nodes of an expression.
pub open spec fn expr_view_size(e: ExprView) -> nat
    decreases e, 1nat,
{
    1 + match e {
        ExprView::Unary { right, .. } => expr_view_size(*right),
        ExprView::Assign { value, .. } => expr_view_size(*value),
        ExprView::Binary { left, right, .. } => expr_view_size(*left) + expr_view_size(*right),
        ExprView::Grouping { expression } => expr_view_size(*expression),
        ExprView::Logical { left, right, .. } => expr_view_size(*left) + expr_view_size(*right),
        ExprView::Call { callee, arguments, .. } => expr_view_size(*callee) + args_view_size(
            arguments,
        ),
        ExprView::Get { object, .. } => expr_view_size(*object),
        ExprView::SetProperty { object, value, .. } => expr_view_size(*object) + expr_view_size(
            *value,
        ),
        _ => 0,
    }
}

/// The number of nodes of a list of expressions, plus one.
pub open spec fn args_view_size(s: Seq<ExprView>) -> nat
    decreases s, 0nat,
{
    if s.len() == 0 {
        1
    } else {
        1 + args_view_size(s.drop_last()) + expr_view_size(s.last())
    }
}

/// The number of nodes of a statement, counting expressions too.
pub open spec fn stmt_view_size(s: StmtView) -> nat
    decreases s, 1nat,
{
    1 + match s {
        StmtView::Expression { expression } => expr_view_size(expression),
        StmtView::Print { expression } => expr_view_size(expression),
        StmtView::Var { initializer, .. } => match initializer {
            Some(e) => expr_view_size(e),
            None => 0,
        },
        StmtView::Block { statements } => stmts_view_size(statements),
        StmtView::If { condition, then_branch, else_branch } => expr_view_size(condition)
            + stmt_view_size(*then_branch) + match else_branch {
            Some(b) => stmt_view_size(*b),
            None => 0,
        },
        StmtView::While { condition, body } => expr_view_size(condition) + stmt_view_size(*body),
        StmtView::Return { value, .. } => match value {
            Some(e) => expr_view_size(e),
            None => 0,
        },
        StmtView::Class { super_class, .. } => match super_class {
            Some(e) => expr_view_size(e),
            None => 0,
        },
        _ => 0,
    }
}

/// The number of nodes of a list of statements, plus one.
pub open spec fn stmts_view_size(s: Seq<StmtView>) -> nat
    decreases s, 0nat,
{
    if s.len() == 0 {
        1
    } else {
        1 + stmts_view_size(s.drop_last()) + stmt_view_size(s.last())
    }
}

/// The value `name` has in the frame `distance` steps out from frame `env`.
pub open spec fn read_at<N: LoxNumber>(frames: Seq<FrameView<N>>, env: int, distance: nat, name: Seq<char>) -> Option<
    ValueView<N>,
> {
    match ancestor(frames, env, distance) {
        Some(a) => lookup(frames[a].values, name),
        None => None,
    }
}

/// The method `m` bound to the instance with handle `h`: a new frame,
/// enclosed by the method's closure, binds `this` to the instance, and the
/// bound method closes over it.
pub open spec fn bind_spec<N: LoxNumber>(frames: Seq<FrameView<N>>, m: FunctionView, h: usize) -> Option<
    (Seq<FrameView<N>>, FunctionView),
> {
    if m.closure < frames.len() {
        let env = frames.len() as int;
        Some(
            (
                store_at(
                    frames.push(FrameView { values: Seq::empty(), enclosing: Some(m.closure) }),
                    env,
                    "this"@,
                    ValueView::Instance(h),
                ),
                FunctionView {
                    declaration: m.declaration,
                    closure: env as usize,
                    is_initializer: m.is_initializer,
                },
            ),
        )
    } else {
        None
    }
}

/// The property `name` of the instance with handle `h`: a field, or else a
/// method of its class bound to it.
pub open spec fn get_spec<N: LoxNumber>(
    frames: Seq<FrameView<N>>,
    heap: Seq<InstanceView<N>>,
    h: usize,
    name: Seq<char>,
) -> Option<(Seq<FrameView<N>>, ValueView<N>)> {
    if h < heap.len() {
        match lookup(heap[h as int].fields, name) {
            Some(v) => Some((frames, v)),
            None => match find_method_spec(heap[h as int].class, name) {
                Some(m) => match bind_spec(frames, m, h) {
                    Some((f1, fv)) => Some((f1, ValueView::Function(fv))),
                    None => None,
                },
                None => None,
            },
        }
    } else {
        None
    }
}

/// What evaluating an expression does, with `fuel` calls left, in frames
/// `frames` seen from frame `current` and with instances `heap`: the frames
/// and instances after it, the lines it prints and its value. Numbers
/// compute as the `LoxNumber` spec functions say. `None` for calls of native
/// functions, whose value depends on the clock, where equality cannot be
/// decided within its depth, and where evaluating fails (see `eval_fail`).
pub open spec fn eval_spec<N: LoxNumber>(
    fuel: nat,
    frames: Seq<FrameView<N>>,
    heap: Seq<InstanceView<N>>,
    current: int,
    globals: int,
    locals: Map<usize, usize>,
    e: ExprView,
) -> Option<(Seq<FrameView<N>>, Seq<InstanceView<N>>, Seq<Seq<char>>, ValueView<N>)>
    decreases fuel, 0int, expr_view_size(e),
{
    match e {
        ExprView::Literal { value } => match literal_view_value(value) {
            Some(v) => Some((frames, heap, Seq::empty(), v)),
            None => None,
        },
        ExprView::Variable { id, name } => match variable_value(
            frames,
            current,
            globals,
            locals,
            Some(id),
            name.lexeme,
        ) {
            Some(v) => Some((frames, heap, Seq::empty(), v)),
            None => None,
        },
        ExprView::This { id, keyword } => match variable_value(
            frames,
            current,
            globals,
            locals,
            Some(id),
            keyword.lexeme,
        ) {
            Some(v) => Some((frames, heap, Seq::empty(), v)),
            None => None,
        },
        ExprView::Grouping { expression } => eval_spec(
            fuel,
            frames,
            heap,
            current,
            globals,
            locals,
            *expression,
        ),
        ExprView::Unary { operator, right } => match eval_spec(
            fuel,
            frames,
            heap,
            current,
            globals,
            locals,
            *right,
        ) {
            Some((f, hp, ls, v)) => if operator.token_type == TokenType::Bang {
                Some((f, hp, ls, ValueView::Bool(!truthy(v))))
            } else if operator.token_type == TokenType::Minus && v is Number {
                Some((f, hp, ls, ValueView::Number(v->Number_0.negated_spec())))
            } else {
                None
            },
            None => None,
        },
        ExprView::Logical { left, operator, right } => match eval_spec(
            fuel,
            frames,
            heap,
            current,
            globals,
            locals,
            *left,
        ) {
            Some((f1, h1, l1, lv)) => if (operator.token_type == TokenType::Or) == truthy(lv) {
                Some((f1, h1, l1, lv))
            } else {
                match eval_spec(fuel, f1, h1, current, globals, locals, *right) {
                    Some((f2, h2, l2, rv)) => Some((f2, h2, l1 + l2, rv)),
                    None => None,
                }
            },
            None => None,
        },
        ExprView::Binary { left, operator, right } => match eval_spec(
            fuel,
            frames,
            heap,
            current,
            globals,
            locals,
            *left,
        ) {
            Some((f1, h1, l1, a)) => match eval_spec(fuel, f1, h1, current, globals, locals, *right) {
                Some((f2, h2, l2, b)) => match binary_value(operator.token_type, a, b, h2) {
                    Some(v) => Some((f2, h2, l1 + l2, v)),
                    None => None,
                },
                None => None,
            },
            None => None,
        },
        ExprView::Assign { id, name, value } => match eval_spec(
            fuel,
            frames,
            heap,
            current,
            globals,
            locals,
            *value,
        ) {
            Some((f1, h1, l1, v)) => match assigned(f1, current, globals, locals, id, name.lexeme, v) {
                Some(f2) => Some((f2, h1, l1, v)),
                None => None,
            },
            None => None,
        },
        ExprView::Get { object, name } => match eval_spec(
            fuel,
            frames,
            heap,
            current,
            globals,
            locals,
            *object,
        ) {
            Some((f1, h1, l1, ValueView::Instance(h))) => match get_spec(f1, h1, h, name.lexeme) {
                Some((f2, v)) => Some((f2, h1, l1, v)),
                None => None,
            },
            _ => None,
        },
        ExprView::SetProperty { object, name, value } => match eval_spec(
            fuel,
            frames,
            heap,
            current,
            globals,
            locals,
            *object,
        ) {
            Some((f1, h1, l1, ov)) => match eval_spec(fuel, f1, h1, current, globals, locals, *value) {
                Some((f2, h2, l2, v)) => match ov {
                    ValueView::Instance(h) => if h < h2.len() {
                        Some(
                            (
                                f2,
                                h2.update(
                                    h as int,
                                    InstanceView {
                                        class: h2[h as int].class,
                                        fields: store(h2[h as int].fields, name.lexeme, v),
                                    },
                                ),
                                l1 + l2,
                                v,
                            ),
                        )
                    } else {
                        None
                    },
                    _ => None,
                },
                None => None,
            },
            None => None,
        },
        ExprView::Super { id, method, .. } => if locals.contains_key(id) {
            let d = locals[id];
            match read_at(frames, current, d as nat, "super"@) {
                Some(ValueView::Class(c)) => if d > 0 {
                    match read_at(frames, current, (d - 1) as nat, "this"@) {
                        Some(ValueView::Instance(h)) => match find_method_spec(c, method.lexeme) {
                            Some(m) => match bind_spec(frames, m, h) {
                                Some((f1, fv)) => Some(
                                    (f1, heap, Seq::empty(), ValueView::Function(fv)),
                                ),
                                None => None,
                            },
                            None => None,
                        },
                        _ => None,
                    }
                } else {
                    None
                },
                _ => None,
            }
        } else {
            None
        },
        ExprView::Call { callee, arguments, .. } => match eval_spec(
            fuel,
            frames,
            heap,
            current,
            globals,
            locals,
            *callee,
        ) {
            Some((f1, h1, l1, cv)) => match eval_args_spec(
                fuel,
                f1,
                h1,
                current,
                globals,
                locals,
                arguments,
            ) {
                Some((f2, h2, l2, args)) => if fuel > 0 {
                    match call_value_spec((fuel - 1) as nat, f2, h2, globals, locals, cv, args) {
                        Some((f3, h3, l3, v)) => Some((f3, h3, l1 + l2 + l3, v)),
                        None => None,
                    }
                } else {
                    None
                },
                None => None,
            },
            None => None,
        },
    }
}

/// What evaluating call arguments from left to right does: the frames and
/// instances after them, the lines they print and their values.
pub open spec fn eval_args_spec<N: LoxNumber>(
    fuel: nat,
    frames: Seq<FrameView<N>>,
    heap: Seq<InstanceView<N>>,
    current: int,
    globals: int,
    locals: Map<usize, usize>,
    args: Seq<ExprView>,
) -> Option<(Seq<FrameView<N>>, Seq<InstanceView<N>>, Seq<Seq<char>>, Seq<ValueView<N>>)>
    decreases fuel, 0int, args_view_size(args),
{
    if args.len() == 0 {
        Some((frames, heap, Seq::empty(), Seq::empty()))
    } else {
        match eval_args_spec(fuel, frames, heap, current, globals, locals, args.drop_last()) {
            Some((f1, h1, l1, vs)) => match eval_spec(
                fuel,
                f1,
                h1,
                current,
                globals,
                locals,
                args.last(),
            ) {
                Some((f2, h2, l2, v)) => Some((f2, h2, l1 + l2, vs.push(v))),
                None => None,
            },
            None => None,
        }
    }
}

/// What calling a value with `fuel` calls left does: a function as
/// `call_spec` says; a class, where its initializer (if any) takes as many
/// arguments as there are, as `class_call_spec` says. `None` for anything
/// else.
pub open spec fn call_value_spec<N: LoxNumber>(
    fuel: nat,
    frames: Seq<FrameView<N>>,
    heap: Seq<InstanceView<N>>,
    globals: int,
    locals: Map<usize, usize>,
    callee: ValueView<N>,
    args: Seq<ValueView<N>>,
) -> Option<(Seq<FrameView<N>>, Seq<InstanceView<N>>, Seq<Seq<char>>, ValueView<N>)>
    decreases fuel, 3int, 0int,
{
    match callee {
        ValueView::Function(f) => call_spec(fuel, frames, heap, globals, locals, f, args),
        ValueView::Class(c) => class_call_spec(fuel, frames, heap, globals, locals, c, args),
        _ => None,
    }
}

/// What calling a class does: a new instance of it, with the handle that
/// comes next and no fields, on which the class's initializer (if it has
/// one) runs; the call's value is the instance.
#[verifier::opaque]
pub open spec fn class_call_spec<N: LoxNumber>(
    fuel: nat,
    frames: Seq<FrameView<N>>,
    heap: Seq<InstanceView<N>>,
    globals: int,
    locals: Map<usize, usize>,
    c: ClassView,
    args: Seq<ValueView<N>>,
) -> Option<(Seq<FrameView<N>>, Seq<InstanceView<N>>, Seq<Seq<char>>, ValueView<N>)>
    decreases fuel, 2int, 0int,
{
    let init = find_method_spec(c, "init"@);
    let arity = match init {
        Some(m) => arity_spec(m),
        None => 0,
    };
    if arity == args.len() && heap.len() <= usize::MAX {
        let h = heap.len() as usize;
        let heap1 = heap.push(InstanceView { class: c, fields: Seq::empty() });
        match init {
            None => Some((frames, heap1, Seq::empty(), ValueView::Instance(h))),
            Some(m) => match bind_spec(frames, m, h) {
                Some((f1, fv)) => match call_spec(fuel, f1, heap1, globals, locals, fv, args) {
                    Some((f2, h2, l2, _)) => Some((f2, h2, l2, ValueView::Instance(h))),
                    None => None,
                },
                None => None,
            },
        }
    } else {
        None
    }
}

/// What calling a function with `fuel` calls left does: a new frame,
/// enclosed by the function's closure, binds the parameters to the
/// arguments, and the body runs in it. The call's value is, for an
/// initializer, the `this` its closure binds; for any other function, what a
/// `return` gives, or `nil`. The function takes as many arguments as it is
/// given.
pub open spec fn call_spec<N: LoxNumber>(
    fuel: nat,
    frames: Seq<FrameView<N>>,
    heap: Seq<InstanceView<N>>,
    globals: int,
    locals: Map<usize, usize>,
    f: FunctionView,
    args: Seq<ValueView<N>>,
) -> Option<(Seq<FrameView<N>>, Seq<InstanceView<N>>, Seq<Seq<char>>, ValueView<N>)>
    decreases fuel, 1int, 0int,
{
    if f.closure < frames.len() && arity_spec(f) == args.len() {
        match f.declaration {
            StmtView::Function { params, body, .. } => {
                let env = frames.len() as int;
                let bound = bind_params(
                    frames.push(FrameView { values: Seq::empty(), enclosing: Some(f.closure) }),
                    env,
                    params,
                    args,
                );
                match block_spec(fuel, bound, heap, env, globals, locals, body) {
                    Some((f2, h2, l2, outcome)) => if f.is_initializer {
                        match read_at(f2, f.closure as int, 0, "this"@) {
                            Some(t) => Some((f2, h2, l2, t)),
                            None => None,
                        }
                    } else {
                        Some(
                            (
                                f2,
                                h2,
                                l2,
                                match outcome {
                                    Some(v) => v,
                                    None => ValueView::Nil,
                                },
                            ),
                        )
                    },
                    None => None,
                }
            },
            _ => None,
        }
    } else {
        None
    }
}

/// What running a statement does, with `fuel` calls and loop rounds left,
/// in frames `frames` with current frame `current` and with instances
/// `heap`: the frames and instances after it, the lines it prints, and how it
/// ended: `None` where it ran to its end, `Some(v)` where a `return` gave
/// `v`. `None` where it does something `eval_spec` leaves out, and where
/// running fails.
pub open spec fn exec_spec<N: LoxNumber>(
    fuel: nat,
    frames: Seq<FrameView<N>>,
    heap: Seq<InstanceView<N>>,
    current: int,
    globals: int,
    locals: Map<usize, usize>,
    s: StmtView,
) -> Option<(Seq<FrameView<N>>, Seq<InstanceView<N>>, Seq<Seq<char>>, Option<ValueView<N>>)>
    decreases fuel, 0int, stmt_view_size(s),
{
    match s {
        StmtView::Expression { expression } => match eval_spec(
            fuel,
            frames,
            heap,
            current,
            globals,
            locals,
            expression,
        ) {
            Some((f, hp, ls, _)) => Some((f, hp, ls, None)),
            None => None,
        },
        StmtView::Print { expression } => match eval_spec(
            fuel,
            frames,
            heap,
            current,
            globals,
            locals,
            expression,
        ) {
            Some((f, hp, ls, v)) => match shown(v, hp) {
                Some(t) => Some((f, hp, ls.push(t), None)),
                None => None,
            },
            None => None,
        },
        StmtView::Var { name, initializer } => match initializer {
            None => Some(
                (store_at(frames, current, name.lexeme, ValueView::Nil), heap, Seq::empty(), None),
            ),
            Some(e) => match eval_spec(fuel, frames, heap, current, globals, locals, e) {
                Some((f, hp, ls, v)) => Some((store_at(f, current, name.lexeme, v), hp, ls, None)),
                None => None,
            },
        },
        StmtView::Block { statements } => block_spec(
            fuel,
            frames.push(FrameView { values: Seq::empty(), enclosing: Some(current as usize) }),
            heap,
            frames.len() as int,
            globals,
            locals,
            statements,
        ),
        StmtView::If { condition, then_branch, else_branch } => match eval_spec(
            fuel,
            frames,
            heap,
            current,
            globals,
            locals,
            condition,
        ) {
            Some((f1, h1, l1, c)) => if truthy(c) {
                match exec_spec(fuel, f1, h1, current, globals, locals, *then_branch) {
                    Some((f2, h2, l2, o)) => Some((f2, h2, l1 + l2, o)),
                    None => None,
                }
            } else {
                match else_branch {
                    Some(b) => match exec_spec(fuel, f1, h1, current, globals, locals, *b) {
                        Some((f2, h2, l2, o)) => Some((f2, h2, l1 + l2, o)),
                        None => None,
                    },
                    None => Some((f1, h1, l1, None)),
                }
            },
            None => None,
        },
        StmtView::While { condition, body } => loop_spec(
            fuel,
            frames,
            heap,
            current,
            globals,
            locals,
            condition,
            *body,
        ),
        StmtView::Function { name, .. } => Some(
            (
                store_at(
                    frames,
                    current,
                    name.lexeme,
                    ValueView::Function(
                        FunctionView { declaration: s, closure: current as usize, is_initializer: false },
                    ),
                ),
                heap,
                Seq::empty(),
                None,
            ),
        ),
        StmtView::Return { value, .. } => match value {
            None => Some((frames, heap, Seq::empty(), Some(ValueView::Nil))),
            Some(e) => match eval_spec(fuel, frames, heap, current, globals, locals, e) {
                Some((f, hp, ls, v)) => Some((f, hp, ls, Some(v))),
                None => None,
            },
        },
        StmtView::Class { name, super_class, methods } => match super_class {
            None => Some(
                (
                    declare_class(frames, current, name.lexeme, None, methods),
                    heap,
                    Seq::empty(),
                    None,
                ),
            ),
            Some(e) => match eval_spec(fuel, frames, heap, current, globals, locals, e) {
                Some((f1, h1, l1, ValueView::Class(c))) => Some(
                    (declare_class(f1, current, name.lexeme, Some(c), methods), h1, l1, None),
                ),
                _ => None,
            },
        },
    }
}

/// What a `while` loop does, with `fuel` calls and rounds left: the
/// condition is evaluated; where it is false the loop ends, and where it is
/// true the body runs with one less left, and the loop goes on after it,
/// unless the body returned.
pub open spec fn loop_spec<N: LoxNumber>(
    fuel: nat,
    frames: Seq<FrameView<N>>,
    heap: Seq<InstanceView<N>>,
    current: int,
    globals: int,
    locals: Map<usize, usize>,
    condition: ExprView,
    body: StmtView,
) -> Option<(Seq<FrameView<N>>, Seq<InstanceView<N>>, Seq<Seq<char>>, Option<ValueView<N>>)>
    decreases fuel, 0int, expr_view_size(condition) + stmt_view_size(body),
{
    match eval_spec(fuel, frames, heap, current, globals, locals, condition) {
        Some((f1, h1, l1, c)) => if !truthy(c) {
            Some((f1, h1, l1, None))
        } else if fuel == 0 {
            None
        } else {
            match exec_spec((fuel - 1) as nat, f1, h1, current, globals, locals, body) {
                Some((f2, h2, l2, o)) => if o is Some {
                    Some((f2, h2, l1 + l2, o))
                } else {
                    match loop_spec((fuel - 1) as nat, f2, h2, current, globals, locals, condition, body) {
                        Some((f3, h3, l3, o3)) => Some((f3, h3, l1 + l2 + l3, o3)),
                        None => None,
                    }
                },
                None => None,
            }
        },
        None => None,
    }
}

/// What running statements one after another does, up to the first
/// `return`: the frames and instances after them, the lines they print and
/// how they ended.
pub open spec fn block_spec<N: LoxNumber>(
    fuel: nat,
    frames: Seq<FrameView<N>>,
    heap: Seq<InstanceView<N>>,
    current: int,
    globals: int,
    locals: Map<usize, usize>,
    stmts: Seq<StmtView>,
) -> Option<(Seq<FrameView<N>>, Seq<InstanceView<N>>, Seq<Seq<char>>, Option<ValueView<N>>)>
    decreases fuel, 0int, stmts_view_size(stmts),
{
    if stmts.len() == 0 {
        Some((frames, heap, Seq::empty(), None))
    } else {
        match block_spec(fuel, frames, heap, current, globals, locals, stmts.drop_last()) {
            Some((f1, h1, l1, o1)) => if o1 is Some {
                Some((f1, h1, l1, o1))
            } else {
                match exec_spec(fuel, f1, h1, current, globals, locals, stmts.last()) {
                    Some((f2, h2, l2, o2)) => Some((f2, h2, l1 + l2, o2)),
                    None => None,
                }
            },
            None => None,
        }
    }
}

/// Where a list of statements runs, so does each of its prefixes.
pub proof fn lemma_block_prefix<N: LoxNumber>(
    fuel: nat,
    frames: Seq<FrameView<N>>,
    heap: Seq<InstanceView<N>>,
    current: int,
    globals: int,
    locals: Map<usize, usize>,
    stmts: Seq<StmtView>,
    i: int,
)
    requires
        0 <= i <= stmts.len(),
        block_spec(fuel, frames, heap, current, globals, locals, stmts) is Some,
    ensures
        block_spec(fuel, frames, heap, current, globals, locals, stmts.take(i)) is Some,
    decreases stmts.len(),
{
    if i < stmts.len() {
        lemma_block_prefix(fuel, frames, heap, current, globals, locals, stmts.drop_last(), i);
        assert(stmts.drop_last().take(i) =~= stmts.take(i));
    } else {
        assert(stmts.take(i) =~= stmts);
    }
}

/// Once a prefix of a list of statements returns, the whole list ends as
/// that prefix does.
pub proof fn lemma_block_returned<N: LoxNumber>(
    fuel: nat,
    frames: Seq<FrameView<N>>,
    heap: Seq<InstanceView<N>>,
    current: int,
    globals: int,
    locals: Map<usize, usize>,
    stmts: Seq<StmtView>,
    i: int,
)
    requires
        0 <= i <= stmts.len(),
        block_spec(fuel, frames, heap, current, globals, locals, stmts.take(i)) matches Some(
            (_, _, _, o),
        ) && o is Some,
    ensures
        block_spec(fuel, frames, heap, current, globals, locals, stmts) == block_spec(
            fuel,
            frames,
            heap,
            current,
            globals,
            locals,
            stmts.take(i),
        ),
    decreases stmts.len() - i,
{
    if i < stmts.len() {
        assert(stmts.take(i + 1).drop_last() =~= stmts.take(i));
        lemma_block_returned(fuel, frames, heap, current, globals, locals, stmts, i + 1);
    } else {
        assert(stmts.take(i) =~= stmts);
    }
}

/// Where call arguments evaluate, so does each prefix of them.
pub proof fn lemma_args_prefix<N: LoxNumber>(
    fuel: nat,
    frames: Seq<FrameView<N>>,
    heap: Seq<InstanceView<N>>,
    current: int,
    globals: int,
    locals: Map<usize, usize>,
    args: Seq<ExprView>,
    i: int,
)
    requires
        0 <= i <= args.len(),
        eval_args_spec(fuel, frames, heap, current, globals, locals, args) is Some,
    ensures
        eval_args_spec(fuel, frames, heap, current, globals, locals, args.take(i)) is Some,
    decreases args.len(),
{
    if i < args.len() {
        lemma_args_prefix(fuel, frames, heap, current, globals, locals, args.drop_last(), i);
        assert(args.drop_last().take(i) =~= args.take(i));
    } else {
        assert(args.take(i) =~= args);
    }
}

/// How running a program fails: the runtime error, with its text as a
/// sequence and its value by its view.
pub enum RunFailure<N> {
    TypeError { message: Seq<char>, value: ValueView<N> },
    Undefined { lexeme: Seq<char> },
    NotCallable { lexeme: Seq<char> },
    Arity { expected: nat, got: nat },
    FieldsOnInstancesOnly,
    PropertiesOnInstancesOnly,
    SuperclassMustBeClass,
    LimitExceeded,
    ReturnOutsideFunction,
}

/// The failure a runtime error stands for.
pub open spec fn failure_of<N: LoxNumber>(e: RuntimeError<N>) -> RunFailure<N> {
    match e {
        RuntimeError::TypeError { message, value } => RunFailure::TypeError {
            message: message@,
            value: (*value)@,
        },
        RuntimeError::Undefined { lexeme } => RunFailure::Undefined { lexeme: lexeme@ },
        RuntimeError::NotCallable(lexeme) => RunFailure::NotCallable { lexeme: lexeme@ },
        RuntimeError::Arity { expected, got } => RunFailure::Arity {
            expected: expected as nat,
            got: got as nat,
        },
        RuntimeError::ReturnOutsideFunction => RunFailure::ReturnOutsideFunction,
        RuntimeError::FieldsOnInstancesOnly => RunFailure::FieldsOnInstancesOnly,
        RuntimeError::PropertiesOnInstancesOnly => RunFailure::PropertiesOnInstancesOnly,
        RuntimeError::SuperclassMustBeClass => RunFailure::SuperclassMustBeClass,
        RuntimeError::LimitExceeded => RunFailure::LimitExceeded,
    }
}

/// `r` stopped with the error that `x` stands for.
pub open spec fn failed_with<N: LoxNumber, T>(r: Result<T, RuntimeControl<N>>, x: RunFailure<N>) -> bool {
    r matches Err(RuntimeControl::Error(e)) && failure_of(e) == x
}

/// The failure of a binary operator on two values, once both are evaluated.
pub open spec fn binary_failure<N: LoxNumber>(op: TokenType, a: ValueView<N>) -> RunFailure<N> {
    if op == TokenType::EqualEqual || op == TokenType::BangEqual {
        RunFailure::LimitExceeded
    } else if op == TokenType::Plus {
        RunFailure::TypeError { message: "Operands must be either strings or numbers"@, value: a }
    } else if op == TokenType::Minus || op == TokenType::Star || op == TokenType::Slash {
        RunFailure::TypeError { message: "Operands must be numbers"@, value: a }
    } else {
        RunFailure::TypeError { message: "Unknown binary operator"@, value: a }
    }
}

/// How a run fails: the frames and instances it leaves, the lines it
/// printed before the failure, and the failure.
pub type Failure<N> = (Seq<FrameView<N>>, Seq<InstanceView<N>>, Seq<Seq<char>>, RunFailure<N>);

/// A failure after `lines` were printed by what ran before.
pub open spec fn prefixed<N>(lines: Seq<Seq<char>>, f: Option<Failure<N>>) -> Option<Failure<N>> {
    match f {
        Some((fr, hp, ls, x)) => Some((fr, hp, lines + ls, x)),
        None => None,
    }
}

/// How evaluating an expression fails, in the same setting as `eval_spec`:
/// the first step that fails decides, and the frames, instances and lines
/// are those left by what ran before it. `None` where it does not fail, and
/// where the failure lies in what `eval_spec` leaves out.
pub open spec fn eval_fail<N: LoxNumber>(
    fuel: nat,
    frames: Seq<FrameView<N>>,
    heap: Seq<InstanceView<N>>,
    current: int,
    globals: int,
    locals: Map<usize, usize>,
    e: ExprView,
) -> Option<Failure<N>>
    decreases fuel, 0int, expr_view_size(e),
{
    match e {
        ExprView::Literal { .. } => None,
        ExprView::Variable { id, name } => match variable_value(
            frames,
            current,
            globals,
            locals,
            Some(id),
            name.lexeme,
        ) {
            Some(_) => None,
            None => Some((frames, heap, Seq::empty(), RunFailure::Undefined { lexeme: name.lexeme })),
        },
        ExprView::This { id, keyword } => match variable_value(
            frames,
            current,
            globals,
            locals,
            Some(id),
            keyword.lexeme,
        ) {
            Some(_) => None,
            None => Some(
                (frames, heap, Seq::empty(), RunFailure::Undefined { lexeme: keyword.lexeme }),
            ),
        },
        ExprView::Grouping { expression } => eval_fail(
            fuel,
            frames,
            heap,
            current,
            globals,
            locals,
            *expression,
        ),
        ExprView::Unary { operator, right } => match eval_fail(
            fuel,
            frames,
            heap,
            current,
            globals,
            locals,
            *right,
        ) {
            Some(x) => Some(x),
            None => match eval_spec(fuel, frames, heap, current, globals, locals, *right) {
                Some((f, hp, ls, v)) => if operator.token_type == TokenType::Bang {
                    None
                } else if operator.token_type == TokenType::Minus {
                    if v is Number {
                        None
                    } else {
                        Some(
                            (
                                f,
                                hp,
                                ls,
                                RunFailure::TypeError {
                                    message: "Tried to apply '-' operator on a non-number"@,
                                    value: v,
                                },
                            ),
                        )
                    }
                } else {
                    Some(
                        (
                            f,
                            hp,
                            ls,
                            RunFailure::TypeError { message: "Unknown unary operator"@, value: v },
                        ),
                    )
                },
                None => None,
            },
        },
        ExprView::Logical { left, operator, right } => match eval_fail(
            fuel,
            frames,
            heap,
            current,
            globals,
            locals,
            *left,
        ) {
            Some(x) => Some(x),
            None => match eval_spec(fuel, frames, heap, current, globals, locals, *left) {
                Some((f1, h1, l1, lv)) => if (operator.token_type == TokenType::Or) == truthy(lv) {
                    None
                } else {
                    prefixed(l1, eval_fail(fuel, f1, h1, current, globals, locals, *right))
                },
                None => None,
            },
        },
        ExprView::Binary { left, operator, right } => match eval_fail(
            fuel,
            frames,
            heap,
            current,
            globals,
            locals,
            *left,
        ) {
            Some(x) => Some(x),
            None => match eval_spec(fuel, frames, heap, current, globals, locals, *left) {
                Some((f1, h1, l1, a)) => match eval_fail(fuel, f1, h1, current, globals, locals, *right) {
                    Some(x) => prefixed(l1, Some(x)),
                    None => match eval_spec(fuel, f1, h1, current, globals, locals, *right) {
                        Some((f2, h2, l2, b)) => match binary_value(operator.token_type, a, b, h2) {
                            Some(_) => None,
                            None => Some((f2, h2, l1 + l2, binary_failure(operator.token_type, a))),
                        },
                        None => None,
                    },
                },
                None => None,
            },
        },
        ExprView::Assign { id, name, value } => match eval_fail(
            fuel,
            frames,
            heap,
            current,
            globals,
            locals,
            *value,
        ) {
            Some(x) => Some(x),
            None => match eval_spec(fuel, frames, heap, current, globals, locals, *value) {
                Some((f1, h1, l1, v)) => match assigned(f1, current, globals, locals, id, name.lexeme, v) {
                    Some(_) => None,
                    None => Some((f1, h1, l1, RunFailure::Undefined { lexeme: name.lexeme })),
                },
                None => None,
            },
        },
        ExprView::Get { object, name } => match eval_fail(
            fuel,
            frames,
            heap,
            current,
            globals,
            locals,
            *object,
        ) {
            Some(x) => Some(x),
            None => match eval_spec(fuel, frames, heap, current, globals, locals, *object) {
                Some((f1, h1, l1, ValueView::Instance(h))) => if h >= h1.len() {
                    Some((f1, h1, l1, RunFailure::PropertiesOnInstancesOnly))
                } else if lookup(h1[h as int].fields, name.lexeme) is None && find_method_spec(
                    h1[h as int].class,
                    name.lexeme,
                ) is None {
                    Some((f1, h1, l1, RunFailure::Undefined { lexeme: name.lexeme }))
                } else {
                    None
                },
                Some((f1, h1, l1, _)) => Some((f1, h1, l1, RunFailure::PropertiesOnInstancesOnly)),
                None => None,
            },
        },
        ExprView::SetProperty { object, value, .. } => match eval_fail(
            fuel,
            frames,
            heap,
            current,
            globals,
            locals,
            *object,
        ) {
            Some(x) => Some(x),
            None => match eval_spec(fuel, frames, heap, current, globals, locals, *object) {
                Some((f1, h1, l1, ov)) => match eval_fail(fuel, f1, h1, current, globals, locals, *value) {
                    Some(x) => prefixed(l1, Some(x)),
                    None => match eval_spec(fuel, f1, h1, current, globals, locals, *value) {
                        Some((f2, h2, l2, _)) => match ov {
                            ValueView::Instance(h) => if h < h2.len() {
                                None
                            } else {
                                Some((f2, h2, l1 + l2, RunFailure::FieldsOnInstancesOnly))
                            },
                            _ => Some((f2, h2, l1 + l2, RunFailure::FieldsOnInstancesOnly)),
                        },
                        None => None,
                    },
                },
                None => None,
            },
        },
        ExprView::Super { id, keyword, method } => if !locals.contains_key(id) {
            Some((frames, heap, Seq::empty(), RunFailure::Undefined { lexeme: keyword.lexeme }))
        } else {
            let d = locals[id];
            match read_at(frames, current, d as nat, "super"@) {
                Some(ValueView::Class(c)) => if d == 0 {
                    Some(
                        (frames, heap, Seq::empty(), RunFailure::Undefined { lexeme: keyword.lexeme }),
                    )
                } else {
                    match read_at(frames, current, (d - 1) as nat, "this"@) {
                        Some(ValueView::Instance(_)) => if find_method_spec(c, method.lexeme) is None {
                            Some(
                                (
                                    frames,
                                    heap,
                                    Seq::empty(),
                                    RunFailure::Undefined { lexeme: method.lexeme },
                                ),
                            )
                        } else {
                            None
                        },
                        _ => Some(
                            (
                                frames,
                                heap,
                                Seq::empty(),
                                RunFailure::Undefined { lexeme: keyword.lexeme },
                            ),
                        ),
                    }
                },
                _ => Some(
                    (frames, heap, Seq::empty(), RunFailure::Undefined { lexeme: keyword.lexeme }),
                ),
            }
        },
        ExprView::Call { callee, paren, arguments } => match eval_fail(
            fuel,
            frames,
            heap,
            current,
            globals,
            locals,
            *callee,
        ) {
            Some(x) => Some(x),
            None => match eval_spec(fuel, frames, heap, current, globals, locals, *callee) {
                Some((f1, h1, l1, cv)) => match args_fail(
                    fuel,
                    f1,
                    h1,
                    current,
                    globals,
                    locals,
                    arguments,
                ) {
                    Some(x) => prefixed(l1, Some(x)),
                    None => match eval_args_spec(fuel, f1, h1, current, globals, locals, arguments) {
                        Some((f2, h2, l2, args)) => if fuel == 0 {
                            Some((f2, h2, l1 + l2, RunFailure::LimitExceeded))
                        } else {
                            prefixed(
                                l1 + l2,
                                call_value_fail(
                                    (fuel - 1) as nat,
                                    f2,
                                    h2,
                                    globals,
                                    locals,
                                    cv,
                                    args,
                                    paren.lexeme,
                                ),
                            )
                        },
                        None => None,
                    },
                },
                None => None,
            },
        },
    }
}

/// How evaluating call arguments from left to right fails.
pub open spec fn args_fail<N: LoxNumber>(
    fuel: nat,
    frames: Seq<FrameView<N>>,
    heap: Seq<InstanceView<N>>,
    current: int,
    globals: int,
    locals: Map<usize, usize>,
    args: Seq<ExprView>,
) -> Option<Failure<N>>
    decreases fuel, 0int, args_view_size(args),
{
    if args.len() == 0 {
        None
    } else {
        match args_fail(fuel, frames, heap, current, globals, locals, args.drop_last()) {
            Some(x) => Some(x),
            None => match eval_args_spec(fuel, frames, heap, current, globals, locals, args.drop_last()) {
                Some((f1, h1, l1, _)) => prefixed(
                    l1,
                    eval_fail(fuel, f1, h1, current, globals, locals, args.last()),
                ),
                None => None,
            },
        }
    }
}

/// The arity of a callable value; `None` for a value that cannot be called.
pub open spec fn callable_arity<N: LoxNumber>(callee: ValueView<N>) -> Option<nat> {
    match callee {
        ValueView::Native(a) => Some(a as nat),
        ValueView::Function(f) => Some(arity_spec(f)),
        ValueView::Class(c) => Some(
            match find_method_spec(c, "init"@) {
                Some(init) => arity_spec(init),
                None => 0,
            },
        ),
        _ => None,
    }
}

/// How calling a value fails: a value that cannot be called fails with
/// `NotCallable` and the lexeme `paren` of the call's parenthesis; a callable
/// value given another number of arguments than it takes fails with
/// `Arity`; in both cases nothing runs. Otherwise the call fails as the
/// function's body or the class's initializer does.
pub open spec fn call_value_fail<N: LoxNumber>(
    fuel: nat,
    frames: Seq<FrameView<N>>,
    heap: Seq<InstanceView<N>>,
    globals: int,
    locals: Map<usize, usize>,
    callee: ValueView<N>,
    args: Seq<ValueView<N>>,
    paren: Seq<char>,
) -> Option<Failure<N>>
    decreases fuel, 3int, 0int,
{
    match callable_arity(callee) {
        None => Some((frames, heap, Seq::empty(), RunFailure::NotCallable { lexeme: paren })),
        Some(k) => if k != args.len() {
            Some((frames, heap, Seq::empty(), RunFailure::Arity { expected: k, got: args.len() }))
        } else {
            match callee {
                ValueView::Function(f) => call_fail(fuel, frames, heap, globals, locals, f, args),
                ValueView::Class(c) => class_call_fail(fuel, frames, heap, globals, locals, c, args),
                _ => None,
            }
        },
    }
}

/// How calling a class fails: as its initializer, run on the new instance,
/// fails.
pub open spec fn class_call_fail<N: LoxNumber>(
    fuel: nat,
    frames: Seq<FrameView<N>>,
    heap: Seq<InstanceView<N>>,
    globals: int,
    locals: Map<usize, usize>,
    c: ClassView,
    args: Seq<ValueView<N>>,
) -> Option<Failure<N>>
    decreases fuel, 2int, 0int,
{
    if heap.len() <= usize::MAX {
        let h = heap.len() as usize;
        let heap1 = heap.push(InstanceView { class: c, fields: Seq::empty() });
        match find_method_spec(c, "init"@) {
            Some(m) => match bind_spec(frames, m, h) {
                Some((f1, fv)) => call_fail(fuel, f1, heap1, globals, locals, fv, args),
                None => None,
            },
            None => None,
        }
    } else {
        None
    }
}

/// How calling a function fails: as its body, run in the new frame, fails.
pub open spec fn call_fail<N: LoxNumber>(
    fuel: nat,
    frames: Seq<FrameView<N>>,
    heap: Seq<InstanceView<N>>,
    globals: int,
    locals: Map<usize, usize>,
    f: FunctionView,
    args: Seq<ValueView<N>>,
) -> Option<Failure<N>>
    decreases fuel, 1int, 0int,
{
    if f.closure < frames.len() && arity_spec(f) == args.len() {
        match f.declaration {
            StmtView::Function { params, body, .. } => {
                let env = frames.len() as int;
                let bound = bind_params(
                    frames.push(FrameView { values: Seq::empty(), enclosing: Some(f.closure) }),
                    env,
                    params,
                    args,
                );
                block_fail(fuel, bound, heap, env, globals, locals, body)
            },
            _ => None,
        }
    } else {
        None
    }
}

/// How running a statement fails, in the same setting as `exec_spec`.
pub open spec fn exec_fail<N: LoxNumber>(
    fuel: nat,
    frames: Seq<FrameView<N>>,
    heap: Seq<InstanceView<N>>,
    current: int,
    globals: int,
    locals: Map<usize, usize>,
    s: StmtView,
) -> Option<Failure<N>>
    decreases fuel, 0int, stmt_view_size(s),
{
    match s {
        StmtView::Expression { expression } => eval_fail(
            fuel,
            frames,
            heap,
            current,
            globals,
            locals,
            expression,
        ),
        StmtView::Print { expression } => eval_fail(
            fuel,
            frames,
            heap,
            current,
            globals,
            locals,
            expression,
        ),
        StmtView::Var { initializer, .. } => match initializer {
            Some(e) => eval_fail(fuel, frames, heap, current, globals, locals, e),
            None => None,
        },
        StmtView::Block { statements } => block_fail(
            fuel,
            frames.push(FrameView { values: Seq::empty(), enclosing: Some(current as usize) }),
            heap,
            frames.len() as int,
            globals,
            locals,
            statements,
        ),
        StmtView::If { condition, then_branch, else_branch } => match eval_fail(
            fuel,
            frames,
            heap,
            current,
            globals,
            locals,
            condition,
        ) {
            Some(x) => Some(x),
            None => match eval_spec(fuel, frames, heap, current, globals, locals, condition) {
                Some((f1, h1, l1, c)) => if truthy(c) {
                    prefixed(l1, exec_fail(fuel, f1, h1, current, globals, locals, *then_branch))
                } else {
                    match else_branch {
                        Some(b) => prefixed(l1, exec_fail(fuel, f1, h1, current, globals, locals, *b)),
                        None => None,
                    }
                },
                None => None,
            },
        },
        StmtView::While { condition, body } => loop_fail(
            fuel,
            frames,
            heap,
            current,
            globals,
            locals,
            condition,
            *body,
        ),
        StmtView::Function { .. } => None,
        StmtView::Return { value, .. } => match value {
            Some(e) => eval_fail(fuel, frames, heap, current, globals, locals, e),
            None => None,
        },
        StmtView::Class { super_class, .. } => match super_class {
            Some(e) => match eval_fail(fuel, frames, heap, current, globals, locals, e) {
                Some(x) => Some(x),
                None => match eval_spec(fuel, frames, heap, current, globals, locals, e) {
                    Some((f1, h1, l1, v)) => if v is Class {
                        None
                    } else {
                        Some((f1, h1, l1, RunFailure::SuperclassMustBeClass))
                    },
                    None => None,
                },
            },
            None => None,
        },
    }
}

/// How a `while` loop fails: as its condition or its body does, or with
/// `LimitExceeded` where the rounds run out while the condition holds.
pub open spec fn loop_fail<N: LoxNumber>(
    fuel: nat,
    frames: Seq<FrameView<N>>,
    heap: Seq<InstanceView<N>>,
    current: int,
    globals: int,
    locals: Map<usize, usize>,
    condition: ExprView,
    body: StmtView,
) -> Option<Failure<N>>
    decreases fuel, 0int, expr_view_size(condition) + stmt_view_size(body),
{
    match eval_fail(fuel, frames, heap, current, globals, locals, condition) {
        Some(x) => Some(x),
        None => match eval_spec(fuel, frames, heap, current, globals, locals, condition) {
            Some((f1, h1, l1, c)) => if !truthy(c) {
                None
            } else if fuel == 0 {
                Some((f1, h1, l1, RunFailure::LimitExceeded))
            } else {
                match exec_fail((fuel - 1) as nat, f1, h1, current, globals, locals, body) {
                    Some(x) => prefixed(l1, Some(x)),
                    None => match exec_spec((fuel - 1) as nat, f1, h1, current, globals, locals, body) {
                        Some((f2, h2, l2, o)) => if o is Some {
                            None
                        } else {
                            prefixed(
                                l1 + l2,
                                loop_fail(
                                    (fuel - 1) as nat,
                                    f2,
                                    h2,
                                    current,
                                    globals,
                                    locals,
                                    condition,
                                    body,
                                ),
                            )
                        },
                        None => None,
                    },
                }
            },
            None => None,
        },
    }
}

/// How running statements one after another fails: as the first statement
/// that fails does, where none before it returned.
pub open spec fn block_fail<N: LoxNumber>(
    fuel: nat,
    frames: Seq<FrameView<N>>,
    heap: Seq<InstanceView<N>>,
    current: int,
    globals: int,
    locals: Map<usize, usize>,
    stmts: Seq<StmtView>,
) -> Option<Failure<N>>
    decreases fuel, 0int, stmts_view_size(stmts),
{
    if stmts.len() == 0 {
        None
    } else {
        match block_fail(fuel, frames, heap, current, globals, locals, stmts.drop_last()) {
            Some(x) => Some(x),
            None => match block_spec(fuel, frames, heap, current, globals, locals, stmts.drop_last()) {
                Some((f1, h1, l1, None)) => prefixed(
                    l1,
                    exec_fail(fuel, f1, h1, current, globals, locals, stmts.last()),
                ),
                _ => None,
            },
        }
    }
}

/// Once a prefix of a list of statements has failed, returned or run into
/// what `block_spec` leaves out, the whole list fails as that prefix does.
pub proof fn lemma_block_fail_settled<N: LoxNumber>(
    fuel: nat,
    frames: Seq<FrameView<N>>,
    heap: Seq<InstanceView<N>>,
    current: int,
    globals: int,
    locals: Map<usize, usize>,
    stmts: Seq<StmtView>,
    i: int,
)
    requires
        0 <= i <= stmts.len(),
        block_fail(fuel, frames, heap, current, globals, locals, stmts.take(i)) is Some
            || !(block_spec(fuel, frames, heap, current, globals, locals, stmts.take(i)) matches Some(
            (_, _, _, None),
        )),
    ensures
        block_fail(fuel, frames, heap, current, globals, locals, stmts) == block_fail(
            fuel,
            frames,
            heap,
            current,
            globals,
            locals,
            stmts.take(i),
        ),
    decreases stmts.len() - i,
{
    if i < stmts.len() {
        assert(stmts.take(i + 1).drop_last() =~= stmts.take(i));
        lemma_block_fail_settled(fuel, frames, heap, current, globals, locals, stmts, i + 1);
    } else {
        assert(stmts.take(i) =~= stmts);
    }
}

/// Once a prefix of call arguments has failed or run into what
/// `eval_args_spec` leaves out, all of them fail as that prefix does.
pub proof fn lemma_args_fail_settled<N: LoxNumber>(
    fuel: nat,
    frames: Seq<FrameView<N>>,
    heap: Seq<InstanceView<N>>,
    current: int,
    globals: int,
    locals: Map<usize, usize>,
    args: Seq<ExprView>,
    i: int,
)
    requires
        0 <= i <= args.len(),
        args_fail(fuel, frames, heap, current, globals, locals, args.take(i)) is Some
            || eval_args_spec(fuel, frames, heap, current, globals, locals, args.take(i)) is None,
    ensures
        args_fail(fuel, frames, heap, current, globals, locals, args) == args_fail(
            fuel,
            frames,
            heap,
            current,
            globals,
            locals,
            args.take(i),
        ),
    decreases args.len() - i,
{
    if i < args.len() {
        assert(args.take(i + 1).drop_last() =~= args.take(i));
        lemma_args_fail_settled(fuel, frames, heap, current, globals, locals, args, i + 1);
    } else {
        assert(args.take(i) =~= args);
    }
}

/// How a call fails, once its callee has evaluated without failing.
pub proof fn lemma_call_fail_unfold<N: LoxNumber>(
    fuel: nat,
    frames: Seq<FrameView<N>>,
    heap: Seq<InstanceView<N>>,
    current: int,
    globals: int,
    locals: Map<usize, usize>,
    e: ExprView,
)
    requires
        e is Call,
    ensures
        ({
            let callee = *e->Call_callee;
            let arguments = e->Call_arguments;
            eval_fail(fuel, frames, heap, current, globals, locals, callee) is None ==> match eval_spec(
                fuel,
                frames,
                heap,
                current,
                globals,
                locals,
                callee,
            ) {
                Some((f1, h1, l1, cv)) => eval_fail(fuel, frames, heap, current, globals, locals, e)
                    == match args_fail(fuel, f1, h1, current, globals, locals, arguments) {
                    Some(x) => prefixed(l1, Some(x)),
                    None => match eval_args_spec(fuel, f1, h1, current, globals, locals, arguments) {
                        Some((f2, h2, l2, args)) => if fuel == 0 {
                            Some((f2, h2, l1 + l2, RunFailure::LimitExceeded))
                        } else {
                            prefixed(
                                l1 + l2,
                                call_value_fail(
                                    (fuel - 1) as nat,
                                    f2,
                                    h2,
                                    globals,
                                    locals,
                                    cv,
                                    args,
                                    e->Call_paren.lexeme,
                                ),
                            )
                        },
                        None => None,
                    },
                },
                None => eval_fail(fuel, frames, heap, current, globals, locals, e) is None,
            }
        }),
{
}

/// A variable reads back what an assignment to it stored: where an
/// assignment succeeds, evaluating the variable with the same id and name
/// right after it gives the assigned value and changes nothing.
pub proof fn law_assign_then_read<N: LoxNumber>(
    fuel: nat,
    frames: Seq<FrameView<N>>,
    heap: Seq<InstanceView<N>>,
    current: int,
    globals: int,
    locals: Map<usize, usize>,
    id: usize,
    name: TokenView,
    value: ExprView,
)
    ensures
        eval_spec(
            fuel,
            frames,
            heap,
            current,
            globals,
            locals,
            ExprView::Assign { id, name, value: Box::new(value) },
        ) matches Some((f2, h2, _, v)) ==> eval_spec(
            fuel,
            f2,
            h2,
            current,
            globals,
            locals,
            ExprView::Variable { id, name },
        ) == Some((f2, h2, Seq::<Seq<char>>::empty(), v)),
{
    let e = ExprView::Assign { id, name, value: Box::new(value) };
    if eval_spec(fuel, frames, heap, current, globals, locals, e) is Some {
        let (f1, h1, l1, v) = eval_spec(fuel, frames, heap, current, globals, locals, value)->0;
        if locals.contains_key(id) {
            law_assign_at_then_get_at(f1, current, locals[id] as nat, name.lexeme, v);
        } else {
            law_assign_then_get(f1, globals, name.lexeme, v);
        }
    }
}

/// `or` and `and` decide by their left operand: `or` gives a truthy left
/// value and `and` a falsy one as the result, without evaluating the right
/// operand at all (nothing of it runs, prints or fails); otherwise the
/// result is the right operand's value, evaluated after the left one. A
/// left operand that cannot be evaluated makes the whole undefined, and a
/// failing one fails the whole the same way.
pub proof fn law_logical_short_circuit<N: LoxNumber>(
    fuel: nat,
    frames: Seq<FrameView<N>>,
    heap: Seq<InstanceView<N>>,
    current: int,
    globals: int,
    locals: Map<usize, usize>,
    left: ExprView,
    operator: TokenView,
    right: ExprView,
)
    requires
        operator.token_type == TokenType::Or || operator.token_type == TokenType::And,
    ensures
        ({
            let e = ExprView::Logical { left: Box::new(left), operator, right: Box::new(right) };
            let is_or = operator.token_type == TokenType::Or;
            &&& eval_fail(fuel, frames, heap, current, globals, locals, left) is Some ==> eval_fail(
                fuel,
                frames,
                heap,
                current,
                globals,
                locals,
                e,
            ) == eval_fail(fuel, frames, heap, current, globals, locals, left)
            &&& eval_spec(fuel, frames, heap, current, globals, locals, left) is None ==> eval_spec(
                fuel,
                frames,
                heap,
                current,
                globals,
                locals,
                e,
            ) is None
            &&& eval_spec(fuel, frames, heap, current, globals, locals, left) matches Some(
                (f1, h1, l1, lv),
            ) ==> if (is_or && truthy(lv)) || (!is_or && !truthy(lv)) {
                &&& eval_spec(fuel, frames, heap, current, globals, locals, e) == Some(
                    (f1, h1, l1, lv),
                )
                &&& eval_fail(fuel, frames, heap, current, globals, locals, left) is None
                    ==> eval_fail(fuel, frames, heap, current, globals, locals, e) is None
            } else {
                &&& eval_spec(fuel, frames, heap, current, globals, locals, e) == match eval_spec(
                    fuel,
                    f1,
                    h1,
                    current,
                    globals,
                    locals,
                    right,
                ) {
                    Some((f2, h2, l2, rv)) => Some((f2, h2, l1 + l2, rv)),
                    None => None,
                }
            }
        }),
{
}

/// What the binary operators compute, once both operands are evaluated,
/// the left one first: on two numbers `+ - * /` give the number type's sum,
/// difference, product and quotient, `> >= < <=` its four comparisons, `==`
/// and `!=` its equality and the negation of it; on two strings `+` gives
/// them one after the other and `==` and `!=` compare them character by
/// character; `nil == nil` and values of different kinds compare unequal.
/// The result comes after what both operands printed and left.
pub proof fn law_binary_operators<N: LoxNumber>(
    fuel: nat,
    frames: Seq<FrameView<N>>,
    heap: Seq<InstanceView<N>>,
    current: int,
    globals: int,
    locals: Map<usize, usize>,
    left: ExprView,
    operator: TokenView,
    right: ExprView,
)
    ensures
        ({
            let e = ExprView::Binary { left: Box::new(left), operator, right: Box::new(right) };
            let t = operator.token_type;
            eval_spec(fuel, frames, heap, current, globals, locals, left) matches Some(
                (f1, h1, l1, a),
            ) ==> (eval_spec(fuel, f1, h1, current, globals, locals, right) matches Some(
                (f2, h2, l2, b),
            ) ==> {
                let r = eval_spec(fuel, frames, heap, current, globals, locals, e);
                &&& a matches ValueView::Number(x) ==> (b matches ValueView::Number(y) ==> {
                    &&& t == TokenType::Plus ==> r == Some(
                        (f2, h2, l1 + l2, ValueView::Number(x.plus_spec(y))),
                    )
                    &&& t == TokenType::Minus ==> r == Some(
                        (f2, h2, l1 + l2, ValueView::Number(x.minus_spec(y))),
                    )
                    &&& t == TokenType::Star ==> r == Some(
                        (f2, h2, l1 + l2, ValueView::Number(x.times_spec(y))),
                    )
                    &&& t == TokenType::Slash ==> r == Some(
                        (f2, h2, l1 + l2, ValueView::Number(x.divided_by_spec(y))),
                    )
                    &&& t == TokenType::Greater ==> r == Some(
                        (f2, h2, l1 + l2, ValueView::<N>::Bool(x.greater_spec(y))),
                    )
                    &&& t == TokenType::GreaterEqual ==> r == Some(
                        (f2, h2, l1 + l2, ValueView::<N>::Bool(x.greater_equal_spec(y))),
                    )
                    &&& t == TokenType::Less ==> r == Some(
                        (f2, h2, l1 + l2, ValueView::<N>::Bool(x.less_spec(y))),
                    )
                    &&& t == TokenType::LessEqual ==> r == Some(
                        (f2, h2, l1 + l2, ValueView::<N>::Bool(x.less_equal_spec(y))),
                    )
                    &&& t == TokenType::EqualEqual ==> r == Some(
                        (f2, h2, l1 + l2, ValueView::<N>::Bool(x.equals_spec(y))),
                    )
                    &&& t == TokenType::BangEqual ==> r == Some(
                        (f2, h2, l1 + l2, ValueView::<N>::Bool(!x.equals_spec(y))),
                    )
                })
                &&& a matches ValueView::Str(x) ==> (b matches ValueView::Str(y) ==> {
                    &&& t == TokenType::Plus ==> r == Some((f2, h2, l1 + l2, ValueView::<N>::Str(x + y)))
                    &&& t == TokenType::EqualEqual ==> r == Some(
                        (f2, h2, l1 + l2, ValueView::<N>::Bool(x == y)),
                    )
                    &&& t == TokenType::BangEqual ==> r == Some(
                        (f2, h2, l1 + l2, ValueView::<N>::Bool(x != y)),
                    )
                })
                &&& a matches ValueView::<N>::Bool(x) ==> (b matches ValueView::<N>::Bool(y) ==> {
                    &&& t == TokenType::EqualEqual ==> r == Some(
                        (f2, h2, l1 + l2, ValueView::<N>::Bool(x == y)),
                    )
                    &&& t == TokenType::BangEqual ==> r == Some(
                        (f2, h2, l1 + l2, ValueView::<N>::Bool(x != y)),
                    )
                })
                &&& (a is Nil && b is Nil && t == TokenType::EqualEqual) ==> r == Some(
                    (f2, h2, l1 + l2, ValueView::<N>::Bool(true)),
                )
                &&& (a is Nil != b is Nil && t == TokenType::EqualEqual) ==> r == Some(
                    (f2, h2, l1 + l2, ValueView::<N>::Bool(false)),
                )
            })
        }),
{
}

/// `!=` is the negation of `==`: on the same operands, in the same state,
/// one is decided exactly where the other is, with the opposite answer and
/// the same effects.
pub proof fn law_not_equal_negates_equal<N: LoxNumber>(
    fuel: nat,
    frames: Seq<FrameView<N>>,
    heap: Seq<InstanceView<N>>,
    current: int,
    globals: int,
    locals: Map<usize, usize>,
    left: ExprView,
    equal: TokenView,
    not_equal: TokenView,
    right: ExprView,
)
    requires
        equal.token_type == TokenType::EqualEqual,
        not_equal.token_type == TokenType::BangEqual,
    ensures
        ({
            let eq = ExprView::Binary { left: Box::new(left), operator: equal, right: Box::new(right) };
            let ne = ExprView::Binary {
                left: Box::new(left),
                operator: not_equal,
                right: Box::new(right),
            };
            match eval_spec(fuel, frames, heap, current, globals, locals, eq) {
                Some((f, h, l, ValueView::Bool(x))) => eval_spec(
                    fuel,
                    frames,
                    heap,
                    current,
                    globals,
                    locals,
                    ne,
                ) == Some((f, h, l, ValueView::<N>::Bool(!x))),
                Some(_) => false,
                None => eval_spec(fuel, frames, heap, current, globals, locals, ne) is None,
            }
        }),
{
}

/// Strings, booleans and `nil` are equal exactly when they are the same
/// value, and values of different kinds are never equal.
pub proof fn law_equality_of_plain_values<N: LoxNumber>(
    a: ValueView<N>,
    b: ValueView<N>,
    heap: Seq<InstanceView<N>>,
    depth: nat,
)
    ensures
        a matches ValueView::Str(x) ==> (b matches ValueView::Str(y) ==> value_equal(a, b, heap, depth)
            == Some(x == y)),
        a matches ValueView::Bool(x) ==> (b matches ValueView::Bool(y) ==> value_equal(a, b, heap, depth)
            == Some(x == y)),
        (a is Nil && b is Nil) ==> value_equal(a, b, heap, depth) == Some(true),
        (a is Nil != b is Nil) ==> value_equal(a, b, heap, depth) == Some(false),
        (a is Str && !(b is Str)) ==> value_equal(a, b, heap, depth) == Some(false),
        (a is Bool && !(b is Bool)) ==> value_equal(a, b, heap, depth) == Some(false),
        (a is Number && !(b is Number)) ==> value_equal(a, b, heap, depth) == Some(false),
{
}

/// A tree-walking interpreter. Environment frames and instances live in
/// arenas and are known by their handles.
pub struct Interpreter<N> {
    environments: Environments<N>,
    environment: usize,
    globals: usize,
    instances: Vec<Instance<N>>,
    locals: HashMap<usize, usize>,
    output: Vec<String>,
}

impl<N: LoxNumber> Interpreter<N> {
    /// The interpreter's state is consistent.
    pub closed spec fn wf(&self) -> bool {
        &&& frames_wf(self.environments@)
        &&& self.environment < self.environments@.len()
        &&& self.globals < self.environments@.len()
    }

    /// The lines printed so far and not yet taken.
    pub closed spec fn output_spec(&self) -> Seq<String> {
        self.output@
    }

    /// The scope depth recorded for each resolved expression id.
    pub closed spec fn locals_spec(&self) -> Map<usize, usize> {
        self.locals@
    }

    /// The environment frames.
    pub closed spec fn frames(&self) -> Seq<FrameView<N>> {
        self.environments@
    }

    /// The handle of the current frame.
    pub closed spec fn current(&self) -> usize {
        self.environment
    }

    /// The handle of the global frame.
    pub closed spec fn globals_frame(&self) -> usize {
        self.globals
    }

    /// The instances, by handle.
    pub closed spec fn heap(&self) -> Seq<InstanceView<N>> {
        Seq::new(self.instances@.len(), |i: int| self.instances@[i]@)
    }

    /// The value a variable with id `id` and name `name` reads as now.
    pub closed spec fn variable(&self, id: Option<usize>, name: Seq<char>) -> Option<ValueView<N>> {
        variable_value(
            self.environments@,
            self.environment as int,
            self.globals as int,
            self.locals@,
            id,
            name,
        )
    }

    /// `b` has the frames, instances, current and global frame and output of
    /// `a`; only the recorded depths may differ.
    pub open spec fn same_program_state(a: &Self, b: &Self) -> bool {
        &&& b.frames() == a.frames()
        &&& b.heap() == a.heap()
        &&& b.current() == a.current()
        &&& b.globals_frame() == a.globals_frame()
        &&& b.output_spec() == a.output_spec()
    }

    /// What evaluating an expression does now; see `eval_spec`.
    pub open spec fn eval_now(&self, fuel: nat, e: ExprView) -> Option<
        (Seq<FrameView<N>>, Seq<InstanceView<N>>, Seq<Seq<char>>, ValueView<N>),
    > {
        eval_spec(
            fuel,
            self.frames(),
            self.heap(),
            self.current() as int,
            self.globals_frame() as int,
            self.locals_spec(),
            e,
        )
    }

    /// What evaluating call arguments does now; see `eval_args_spec`.
    pub open spec fn args_now(&self, fuel: nat, args: Seq<ExprView>) -> Option<
        (Seq<FrameView<N>>, Seq<InstanceView<N>>, Seq<Seq<char>>, Seq<ValueView<N>>),
    > {
        eval_args_spec(
            fuel,
            self.frames(),
            self.heap(),
            self.current() as int,
            self.globals_frame() as int,
            self.locals_spec(),
            args,
        )
    }

    /// What running a statement does now; see `exec_spec`.
    pub open spec fn exec_now(&self, fuel: nat, s: StmtView) -> Option<
        (Seq<FrameView<N>>, Seq<InstanceView<N>>, Seq<Seq<char>>, Option<ValueView<N>>),
    > {
        exec_spec(
            fuel,
            self.frames(),
            self.heap(),
            self.current() as int,
            self.globals_frame() as int,
            self.locals_spec(),
            s,
        )
    }

    /// What a `while` loop does now; see `loop_spec`.
    pub open spec fn loop_now(&self, fuel: nat, condition: ExprView, body: StmtView) -> Option<
        (Seq<FrameView<N>>, Seq<InstanceView<N>>, Seq<Seq<char>>, Option<ValueView<N>>),
    > {
        loop_spec(
            fuel,
            self.frames(),
            self.heap(),
            self.current() as int,
            self.globals_frame() as int,
            self.locals_spec(),
            condition,
            body,
        )
    }

    /// What running statements in frame `env` does now; see `block_spec`.
    pub open spec fn block_now(&self, fuel: nat, env: int, stmts: Seq<StmtView>) -> Option<
        (Seq<FrameView<N>>, Seq<InstanceView<N>>, Seq<Seq<char>>, Option<ValueView<N>>),
    > {
        block_spec(
            fuel,
            self.frames(),
            self.heap(),
            env,
            self.globals_frame() as int,
            self.locals_spec(),
            stmts,
        )
    }

    /// What calling a function does now; see `call_spec`.
    pub open spec fn call_now(&self, fuel: nat, f: FunctionView, args: Seq<ValueView<N>>) -> Option<
        (Seq<FrameView<N>>, Seq<InstanceView<N>>, Seq<Seq<char>>, ValueView<N>),
    > {
        call_spec(
            fuel,
            self.frames(),
            self.heap(),
            self.globals_frame() as int,
            self.locals_spec(),
            f,
            args,
        )
    }

    /// What calling a class does now; see `class_call_spec`.
    pub open spec fn class_call_now(&self, fuel: nat, c: ClassView, args: Seq<ValueView<N>>) -> Option<
        (Seq<FrameView<N>>, Seq<InstanceView<N>>, Seq<Seq<char>>, ValueView<N>),
    > {
        class_call_spec(
            fuel,
            self.frames(),
            self.heap(),
            self.globals_frame() as int,
            self.locals_spec(),
            c,
            args,
        )
    }

    /// What calling a value does now; see `call_value_spec`.
    pub open spec fn call_value_now(&self, fuel: nat, callee: ValueView<N>, args: Seq<ValueView<N>>) -> Option<
        (Seq<FrameView<N>>, Seq<InstanceView<N>>, Seq<Seq<char>>, ValueView<N>),
    > {
        call_value_spec(
            fuel,
            self.frames(),
            self.heap(),
            self.globals_frame() as int,
            self.locals_spec(),
            callee,
            args,
        )
    }

    /// How evaluating an expression fails now; see `eval_fail`.
    pub open spec fn eval_fail_now(&self, fuel: nat, e: ExprView) -> Option<Failure<N>> {
        eval_fail(
            fuel,
            self.frames(),
            self.heap(),
            self.current() as int,
            self.globals_frame() as int,
            self.locals_spec(),
            e,
        )
    }

    /// How evaluating call arguments fails now; see `args_fail`.
    pub open spec fn args_fail_now(&self, fuel: nat, args: Seq<ExprView>) -> Option<Failure<N>> {
        args_fail(
            fuel,
            self.frames(),
            self.heap(),
            self.current() as int,
            self.globals_frame() as int,
            self.locals_spec(),
            args,
        )
    }

    /// How running a statement fails now; see `exec_fail`.
    pub open spec fn exec_fail_now(&self, fuel: nat, s: StmtView) -> Option<Failure<N>> {
        exec_fail(
            fuel,
            self.frames(),
            self.heap(),
            self.current() as int,
            self.globals_frame() as int,
            self.locals_spec(),
            s,
        )
    }

    /// How a `while` loop fails now; see `loop_fail`.
    pub open spec fn loop_fail_now(&self, fuel: nat, condition: ExprView, body: StmtView) -> Option<Failure<N>> {
        loop_fail(
            fuel,
            self.frames(),
            self.heap(),
            self.current() as int,
            self.globals_frame() as int,
            self.locals_spec(),
            condition,
            body,
        )
    }

    /// How running statements in frame `env` fails now; see `block_fail`.
    pub open spec fn block_fail_now(&self, fuel: nat, env: int, stmts: Seq<StmtView>) -> Option<Failure<N>> {
        block_fail(
            fuel,
            self.frames(),
            self.heap(),
            env,
            self.globals_frame() as int,
            self.locals_spec(),
            stmts,
        )
    }

    /// How calling a function fails now; see `call_fail`.
    pub open spec fn call_fail_now(&self, fuel: nat, f: FunctionView, args: Seq<ValueView<N>>) -> Option<Failure<N>> {
        call_fail(
            fuel,
            self.frames(),
            self.heap(),
            self.globals_frame() as int,
            self.locals_spec(),
            f,
            args,
        )
    }

    /// How calling a class fails now; see `class_call_fail`.
    pub open spec fn class_call_fail_now(&self, fuel: nat, c: ClassView, args: Seq<ValueView<N>>) -> Option<Failure<N>> {
        class_call_fail(
            fuel,
            self.frames(),
            self.heap(),
            self.globals_frame() as int,
            self.locals_spec(),
            c,
            args,
        )
    }

    /// How calling a value fails now; see `call_value_fail`.
    pub open spec fn call_value_fail_now(
        &self,
        fuel: nat,
        callee: ValueView<N>,
        args: Seq<ValueView<N>>,
        paren: Seq<char>,
    ) -> Option<Failure<N>> {
        call_value_fail(
            fuel,
            self.frames(),
            self.heap(),
            self.globals_frame() as int,
            self.locals_spec(),
            callee,
            args,
            paren,
        )
    }

    /// `new` is `old` with frames `frames`, instances `heap`, the same
    /// globals and recorded depths, and the lines `lines` printed after what
    /// `old` printed.
    pub closed spec fn ran(
        old: &Self,
        new: &Self,
        frames: Seq<FrameView<N>>,
        heap: Seq<InstanceView<N>>,
        lines: Seq<Seq<char>>,
    ) -> bool {
        &&& new.environments@ == frames
        &&& new.heap() == heap
        &&& new.globals == old.globals
        &&& new.locals == old.locals
        &&& new.output@.len() == old.output@.len() + lines.len()
        &&& new.output@.subrange(0, old.output@.len() as int) == old.output@
        &&& forall|j: int|
            0 <= j < lines.len() ==> (#[trigger] new.output@[old.output@.len() + j])@ == lines[j]
    }

    /// A statement's result fits how it ended: normally, or by returning a
    /// value.
    pub open spec fn ended(r: Result<(), RuntimeControl<N>>, o: Option<ValueView<N>>) -> bool {
        match o {
            None => r is Ok,
            Some(v) => r matches Err(RuntimeControl::Return(x)) && x@ == v,
        }
    }

    /// A run stopped with the failure `x`: it ended with that error, left the
    /// frames and instances `x` gives and printed its lines.
    pub open spec fn stopped<T>(old: &Self, new: &Self, r: Result<T, RuntimeControl<N>>, x: Failure<N>) -> bool {
        failed_with(r, x.3) && Self::ran(old, new, x.0, x.1, x.2)
    }

    /// A call stopped with the failure `x`, as `stopped` says.
    pub open spec fn stopped_with<T>(old: &Self, new: &Self, r: Result<T, RuntimeError<N>>, x: Failure<N>) -> bool {
        &&& r matches Err(e) && failure_of(e) == x.3
        &&& Self::ran(old, new, x.0, x.1, x.2)
    }

    /// Where `left` evaluated from `a` to `b` and `right` then failed from
    /// `b` to `c`, the run from `a` to `c` printed both parts.
    proof fn lemma_after_left(a: &Self, b: &Self, c: &Self, fuel: nat, left: ExprView, right: ExprView)
        requires
            a.eval_now(fuel, left) matches Some((f1, h1, l1, _)) ==> Self::ran(a, b, f1, h1, l1),
            b.eval_fail_now(fuel, right) matches Some(x) ==> Self::ran(b, c, x.0, x.1, x.2),
        ensures
            a.eval_now(fuel, left) matches Some((f1, h1, l1, _)) ==> (b.eval_fail_now(fuel, right)
                matches Some(x) ==> Self::ran(a, c, x.0, x.1, l1 + x.2)),
    {
        if a.eval_now(fuel, left) is Some && b.eval_fail_now(fuel, right) is Some {
            let (f1, h1, l1, v) = a.eval_now(fuel, left)->0;
            let x = b.eval_fail_now(fuel, right)->0;
            Self::lemma_ran_trans(a, b, c, f1, h1, l1, x.0, x.1, x.2);
        }
    }

    proof fn lemma_ran_refl(a: &Self)
        ensures
            Self::ran(a, a, a.environments@, a.heap(), Seq::empty()),
    {
        assert(a.output@.subrange(0, a.output@.len() as int) =~= a.output@);
    }

    /// Changing only the frames and instances is a run that prints nothing.
    proof fn lemma_ran_quiet(a: &Self, b: &Self)
        requires
            b.globals == a.globals,
            b.locals == a.locals,
            b.output == a.output,
        ensures
            Self::ran(a, b, b.environments@, b.heap(), Seq::empty()),
    {
        assert(b.output@.subrange(0, a.output@.len() as int) =~= a.output@);
    }

    proof fn lemma_ran_trans(
        a: &Self,
        b: &Self,
        c: &Self,
        f1: Seq<FrameView<N>>,
        h1: Seq<InstanceView<N>>,
        l1: Seq<Seq<char>>,
        f2: Seq<FrameView<N>>,
        h2: Seq<InstanceView<N>>,
        l2: Seq<Seq<char>>,
    )
        requires
            Self::ran(a, b, f1, h1, l1),
            Self::ran(b, c, f2, h2, l2),
        ensures
            Self::ran(a, c, f2, h2, l1 + l2),
    {
        let n = a.output@.len() as int;
        let m = b.output@.len() as int;
        assert(c.output@.subrange(0, n) =~= c.output@.subrange(0, m).subrange(0, n));
        assert forall|j: int| 0 <= j < (l1 + l2).len() implies (#[trigger] c.output@[n + j])@ == (
        l1 + l2)[j] by {
            if j < l1.len() {
                assert(c.output@[n + j] == c.output@.subrange(0, m)[n + j]);
                assert(b.output@[n + j]@ == l1[j]);
            } else {
                assert(c.output@[m + (j - l1.len())]@ == l2[j - l1.len()]);
            }
        }
    }

    /// What running code keeps: consistency, the current frame, the recorded
    /// depths; the arenas only grow and an instance keeps its class; printed
    /// lines are only appended.
    pub closed spec fn keeps(old: &Self, new: &Self) -> bool {
        &&& new.wf()
        &&& new.environment == old.environment
        &&& new.globals == old.globals
        &&& new.locals@ == old.locals@
        &&& old.environments@.len() <= new.environments@.len()
        &&& old.instances@.len() <= new.instances@.len()
        &&& forall|i: int|
            0 <= i < old.instances@.len() ==> (#[trigger] new.instances@[i])@.class
                == old.instances@[i]@.class
        &&& old.output@.len() <= new.output@.len()
        &&& new.output@.subrange(0, old.output@.len() as int) == old.output@
    }

    /// Running code only appends printed lines, only adds frames and
    /// instances, and leaves each instance's class as it was.
    pub proof fn law_running_only_appends(old: &Self, new: &Self)
        requires
            Self::keeps(old, new),
        ensures
            old.output_spec().len() <= new.output_spec().len(),
            new.output_spec().subrange(0, old.output_spec().len() as int) == old.output_spec(),
            old.frames().len() <= new.frames().len(),
            old.heap().len() <= new.heap().len(),
            forall|i: int|
                0 <= i < old.heap().len() ==> (#[trigger] new.heap()[i]).class == old.heap()[i].class,
    {
        assert forall|i: int| 0 <= i < old.heap().len() implies (#[trigger] new.heap()[i]).class
            == old.heap()[i].class by {
            assert(new.instances@[i]@.class == old.instances@[i]@.class);
        }
    }

    pub fn new() -> (i: Interpreter<N>)
        ensures
            i.wf(),
            i.output_spec().len() == 0,
            i.locals_spec() == Map::<usize, usize>::empty(),
            i.frames() == seq![FrameView::<N> { values: Seq::empty(), enclosing: None }],
            i.heap() == Seq::<InstanceView<N>>::empty(),
            i.current() == 0,
            i.globals_frame() == 0,
    {
        let i = Interpreter {
            environments: Environments::new(),
            environment: 0,
            globals: 0,
            instances: Vec::new(),
            locals: HashMap::new(),
            output: Vec::new(),
        };
        proof {
            assert(i.environments@[0].values =~= Seq::<(Seq<char>, ValueView<N>)>::empty());
            assert(i.frames() =~= seq![FrameView::<N> { values: Seq::empty(), enclosing: None }]);
            assert(i.heap() =~= Seq::<InstanceView<N>>::empty());
        }
        i
    }

    /// Records that the expression with id `id` refers to a binding `depth`
    /// frames out.
    pub fn resolve_id(&mut self, id: usize, depth: usize)
        ensures
            final(self).locals_spec() == old(self).locals_spec().insert(id, depth),
            final(self).wf() == old(self).wf(),
            final(self).output_spec() == old(self).output_spec(),
            Self::same_program_state(old(self), final(self)),
    {
        self.locals.insert(id, depth);
    }

    /// Records that `expr` refers to a binding `depth` frames out.
    pub fn resolve(&mut self, expr: &Expr, depth: usize)
        requires
            expr_id(*expr) is Some,
        ensures
            final(self).locals_spec() == old(self).locals_spec().insert(
                expr_id(*expr)->0,
                depth,
            ),
            final(self).wf() == old(self).wf(),
            final(self).output_spec() == old(self).output_spec(),
    {
        match expr.id() {
            Some(id) => self.resolve_id(id, depth),
            None => {},
        }
    }

    /// Takes the lines printed so far.
    pub fn take_output(&mut self) -> (r: Vec<String>)
        ensures
            r@ == old(self).output_spec(),
            final(self).output_spec().len() == 0,
            final(self).wf() == old(self).wf(),
            final(self).locals_spec() == old(self).locals_spec(),
    {
        let mut out: Vec<String> = Vec::new();
        std::mem::swap(&mut out, &mut self.output);
        out
    }

    /// Runs statements in order, stopping at the first error. A `return`
    /// outside any function stops with `ReturnOutsideFunction`. Printed lines
    /// are appended to the output. Where `block_spec` says what the
    /// statements do, they do that: the frames and instances end as it says,
    /// the lines it gives are printed, and a `return` among them ends the run
    /// with `ReturnOutsideFunction`. Where `block_fail` says how they fail,
    /// the run ends with that error, the frames and instances are as it
    /// says, and exactly the lines printed before the failure are appended;
    /// no statement after the failing one runs.
    pub fn interpret(&mut self, statements: &Vec<Stmt>) -> (r: Result<(), RuntimeError<N>>)
        requires
            old(self).wf(),
        ensures
            Self::keeps(old(self), final(self)),
            old(self).block_now(
                u64::MAX as nat,
                old(self).current() as int,
                stmts_view(statements@),
            ) matches Some((frames, heap, lines, outcome)) ==> {
                &&& outcome is None ==> r is Ok
                &&& outcome is Some ==> r == Err::<(), RuntimeError<N>>(
                    RuntimeError::ReturnOutsideFunction,
                )
                &&& final(self).frames() == frames
                &&& final(self).heap() == heap
                &&& final(self).output_spec().len() == old(self).output_spec().len() + lines.len()
                &&& final(self).output_spec().subrange(0, old(self).output_spec().len() as int)
                    == old(self).output_spec()
                &&& forall|j: int|
                    0 <= j < lines.len() ==> (#[trigger] final(self).output_spec()[old(
                        self,
                    ).output_spec().len() + j])@ == lines[j]
            },
            old(self).block_fail_now(
                u64::MAX as nat,
                old(self).current() as int,
                stmts_view(statements@),
            ) matches Some((frames, heap, lines, x)) ==> {
                &&& r matches Err(e) && failure_of(e) == x
                &&& final(self).frames() == frames
                &&& final(self).heap() == heap
                &&& final(self).output_spec().len() == old(self).output_spec().len() + lines.len()
                &&& final(self).output_spec().subrange(0, old(self).output_spec().len() as int)
                    == old(self).output_spec()
                &&& forall|j: int|
                    0 <= j < lines.len() ==> (#[trigger] final(self).output_spec()[old(
                        self,
                    ).output_spec().len() + j])@ == lines[j]
            },
    {
        let env = self.environment;
        match self.execute_block(statements, env, u64::MAX) {
            Ok(()) => Ok(()),
            Err(c) => Err(c.into_runtime_error()),
        }
    }

    proof fn lemma_keeps_trans(a: &Self, b: &Self, c: &Self)
        requires
            Self::keeps(a, b),
            Self::keeps(b, c),
        ensures
            Self::keeps(a, c),
    {
        assert(c.output@.subrange(0, a.output@.len() as int) =~= c.output@.subrange(
            0,
            b.output@.len() as int,
        ).subrange(0, a.output@.len() as int));
    }

    proof fn lemma_keeps_refl(a: &Self)
        requires
            a.wf(),
        ensures
            Self::keeps(a, a),
    {
        assert(a.output@.subrange(0, a.output@.len() as int) =~= a.output@);
    }

    // ----- values -----

    /// The text `print` shows for a value.
    pub fn stringify(&self, value: &Value<N>) -> (s: String)
        ensures
            shown(value@, self.heap()) matches Some(t) && s@ == t,
    {
        match value {
            Value::Nil => String::from_str("nil"),
            Value::Bool(b) => if *b {
                String::from_str("true")
            } else {
                String::from_str("false")
            },
            Value::Number(n) => n.to_text(),
            Value::String(s) => s.clone(),
            Value::Native(f) => f.to_string(),
            Value::Function(f) => f.to_string(),
            Value::Class(c) => c.name().clone(),
            Value::Instance(h) => {
                if *h < self.instances.len() {
                    let mut s = self.instances[*h].class().name().clone();
                    push_str(&mut s, " instance");
                    s
                } else {
                    String::from_str("instance")
                }
            },
        }
    }

    /// Compares two values as `value_equal` says, looking into instances
    /// at most `depth` deep.
    pub fn values_equal(&self, a: &Value<N>, b: &Value<N>, depth: u64) -> (r: Option<bool>)
        requires
            self.wf(),
        ensures
            r == value_equal(a@, b@, self.heap(), depth as nat),
        decreases depth, 0nat, 0nat,
    {
        match (a, b) {
            (Value::Nil, Value::Nil) => Some(true),
            (Value::Bool(x), Value::Bool(y)) => Some(*x == *y),
            (Value::Number(x), Value::Number(y)) => Some(x.equals(*y)),
            (Value::String(x), Value::String(y)) => Some(*x == *y),
            (Value::Native(x), Value::Native(y)) => Some(x.arity() == y.arity()),
            (Value::Function(x), Value::Function(y)) => x.equal_to(y),
            (Value::Class(x), Value::Class(y)) => x.equal_to(y),
            (Value::Instance(x), Value::Instance(y)) => {
                if depth == 0 || *x >= self.instances.len() || *y >= self.instances.len() {
                    return None;
                }
                let ix = &self.instances[*x];
                let iy = &self.instances[*y];
                match ix.class().equal_to(iy.class()) {
                    Some(true) => {
                        let fx = ix.fields();
                        let fy = iy.fields();
                        if fx.len() != fy.len() {
                            Some(false)
                        } else {
                            proof {
                                assert(pairs_view(fx@).skip(0) =~= pairs_view(fx@));
                            }
                            self.fields_equal_from(fx, fy, 0, depth - 1)
                        }
                    },
                    other => other,
                }
            },
            _ => Some(false),
        }
    }

    /// Compares the fields of `f1` from the `i`th on with those of `f2`, as
    /// `fields_equal` says.
    fn fields_equal_from(
        &self,
        f1: &Vec<(String, Value<N>)>,
        f2: &Vec<(String, Value<N>)>,
        i: usize,
        depth: u64,
    ) -> (r: Option<bool>)
        requires
            self.wf(),
            i <= f1@.len(),
        ensures
            r == fields_equal(pairs_view(f1@).skip(i as int), pairs_view(f2@), self.heap(), depth as nat),
        decreases depth, 1nat, f1@.len() - i,
    {
        let ghost rest = pairs_view(f1@).skip(i as int);
        if i == f1.len() {
            return Some(true);
        }
        proof {
            assert(rest[0] == (f1@[i as int].0@, f1@[i as int].1@));
            assert(rest.drop_first() =~= pairs_view(f1@).skip(i + 1));
        }
        let first = match find_entry(f2, &f1[i].0) {
            Some(k) => self.values_equal(&f1[i].1, &f2[k].1, depth),
            None => Some(false),
        };
        let others = self.fields_equal_from(f1, f2, i + 1, depth);
        match (first, others) {
            (Some(x), Some(y)) => Some(x && y),
            _ => None,
        }
    }

    pub fn literal_value(value: &Literal) -> (v: Value<N>)
        ensures
            match *value {
                Literal::Nil => v@ == ValueView::<N>::Nil,
                Literal::Bool(b) => v@ == ValueView::<N>::Bool(b),
                Literal::String(s) => v@ == ValueView::<N>::Str(s@),
                Literal::Number(_) => v@ is Number,
            },
            literal_view_value::<N>(value@) == Some(v@),
    {
        match value {
            Literal::Nil => Value::Nil,
            Literal::Bool(b) => Value::Bool(*b),
            Literal::String(s) => Value::String(s.clone()),
            Literal::Number(text) => Value::Number(N::from_literal(text.as_str())),
        }
    }

    /// The result of a unary operator.
    pub fn unary_op(operator: &Token, right: Value<N>) -> (r: Result<Value<N>, RuntimeError<N>>)
        ensures
            operator.token_type == TokenType::Bang ==> (r matches Ok(v) && v@ == ValueView::<
                N,
            >::Bool(!truthy(right@))),
            operator.token_type == TokenType::Minus ==> (r is Ok <==> right@ is Number),
            operator.token_type == TokenType::Minus && right@ is Number ==> (r matches Ok(v)
                && v@ == ValueView::Number(right@->Number_0.negated_spec())),
            operator.token_type == TokenType::Minus && !(right@ is Number) ==> type_error(
                r,
                "Tried to apply '-' operator on a non-number"@,
                right@,
            ),
            !(operator.token_type == TokenType::Minus || operator.token_type == TokenType::Bang)
                ==> type_error(r, "Unknown unary operator"@, right@),
    {
        match operator.token_type {
            TokenType::Minus => match right {
                Value::Number(n) => Ok(Value::Number(n.negated())),
                _ => Err(
                    RuntimeError::TypeError {
                        message: String::from_str("Tried to apply '-' operator on a non-number"),
                        value: Box::new(right),
                    },
                ),
            },
            TokenType::Bang => Ok(right.not()),
            _ => Err(
                RuntimeError::TypeError {
                    message: String::from_str("Unknown unary operator"),
                    value: Box::new(right),
                },
            ),
        }
    }

    /// The result of a binary operator.
    pub fn binary_op(operator: &Token, left: Value<N>, right: Value<N>) -> (r: Result<
        Value<N>,
        RuntimeError<N>,
    >)
        requires
            operator.token_type != TokenType::EqualEqual,
            operator.token_type != TokenType::BangEqual,
        ensures
            arith_value(operator.token_type, left@, right@) matches Some(v) ==> (r matches Ok(x)
                && x@ == v),
            operator.token_type == TokenType::Plus && arith_value(operator.token_type, left@, right@)
                is None ==> type_error(r, "Operands must be either strings or numbers"@, left@),
            (operator.token_type == TokenType::Minus || operator.token_type == TokenType::Star
                || operator.token_type == TokenType::Slash) && arith_value(
                operator.token_type,
                left@,
                right@,
            ) is None ==> type_error(r, "Operands must be numbers"@, left@),
            !(operator.token_type == TokenType::Plus || operator.token_type == TokenType::Minus
                || operator.token_type == TokenType::Star || operator.token_type == TokenType::Slash
                || operator.token_type == TokenType::Greater || operator.token_type
                == TokenType::GreaterEqual || operator.token_type == TokenType::Less
                || operator.token_type == TokenType::LessEqual) ==> type_error(
                r,
                "Unknown binary operator"@,
                left@,
            ),
    {
        match operator.token_type {
            TokenType::Plus => match (left, right) {
                (Value::Number(a), Value::Number(b)) => Ok(Value::Number(a.plus(b))),
                (Value::String(a), Value::String(b)) => {
                    let mut s = a;
                    push_str(&mut s, b.as_str());
                    Ok(Value::String(s))
                },
                (left, _) => Err(
                    RuntimeError::TypeError {
                        message: String::from_str("Operands must be either strings or numbers"),
                        value: Box::new(left),
                    },
                ),
            },
            TokenType::Minus | TokenType::Star | TokenType::Slash => match (left, right) {
                (Value::Number(a), Value::Number(b)) => {
                    let n = if operator.token_type == TokenType::Minus {
                        a.minus(b)
                    } else if operator.token_type == TokenType::Star {
                        a.times(b)
                    } else {
                        a.divided_by(b)
                    };
                    Ok(Value::Number(n))
                },
                (left, _) => Err(
                    RuntimeError::TypeError {
                        message: String::from_str("Operands must be numbers"),
                        value: Box::new(left),
                    },
                ),
            },
            TokenType::Greater | TokenType::GreaterEqual | TokenType::Less
            | TokenType::LessEqual => match (left, right) {
                (Value::Number(a), Value::Number(b)) => {
                    let c = if operator.token_type == TokenType::Greater {
                        a.greater(b)
                    } else if operator.token_type == TokenType::GreaterEqual {
                        a.greater_equal(b)
                    } else if operator.token_type == TokenType::Less {
                        a.less(b)
                    } else {
                        a.less_equal(b)
                    };
                    Ok(Value::Bool(c))
                },
                _ => Ok(Value::Bool(false)),
            },
            _ => Err(
                RuntimeError::TypeError {
                    message: String::from_str("Unknown binary operator"),
                    value: Box::new(left),
                },
            ),
        }
    }

    // ----- evaluation -----

    #[verifier::spinoff_prover]
    #[verifier::rlimit(40)]
    fn eval(&mut self, expr: &Expr, fuel: u64) -> (r: Result<Value<N>, RuntimeControl<N>>)
        requires
            old(self).wf(),
        ensures
            Self::keeps(old(self), final(self)),
            old(self).eval_now(fuel as nat, expr@) matches Some((frames, heap, lines, v)) ==> (
            r matches Ok(x) && x@ == v && Self::ran(old(self), final(self), frames, heap, lines)),
            match *expr {
                Expr::Literal { value } => *final(self) == *old(self) && r is Ok && (value is Number
                    ==> r->Ok_0@ is Number),
                Expr::Variable { name, .. } => *final(self) == *old(self) && (old(self).variable(
                    expr_id(*expr),
                    name.lexeme@,
                ) is None ==> r == Err::<Value<N>, RuntimeControl<N>>(
                    RuntimeControl::Error(RuntimeError::Undefined { lexeme: name.lexeme }),
                )),
                Expr::This { keyword, .. } => *final(self) == *old(self) && (old(self).variable(
                    expr_id(*expr),
                    keyword.lexeme@,
                ) is None ==> r == Err::<Value<N>, RuntimeControl<N>>(
                    RuntimeControl::Error(RuntimeError::Undefined { lexeme: keyword.lexeme }),
                )),
                _ => true,
            },
            old(self).eval_fail_now(fuel as nat, expr@) matches Some(x) ==> Self::stopped(old(self), final(self), r, x),
        decreases fuel, 0nat, expr_size(*expr), 1nat,
    {
        let ghost s0 = *self;
        let ghost ok = s0.eval_now(fuel as nat, expr@) is Some;
        match expr {
            Expr::Literal { value } => {
                proof {
                    Self::lemma_keeps_refl(self);
                    Self::lemma_ran_refl(self);
                }
                Ok(Self::literal_value(value))
            },
            Expr::Grouping { expression } => self.eval(expression, fuel),
            Expr::Unary { operator, right } => {
                let right = match self.eval(right, fuel) {
                    Ok(v) => v,
                    Err(e) => {
                        return Err(e);
                    },
                };
                match Self::unary_op(operator, right) {
                    Ok(v) => Ok(v),
                    Err(e) => Err(RuntimeControl::Error(e)),
                }
            },
            Expr::Binary { left: le, operator, right: re } => {
                let left = match self.eval(le, fuel) {
                    Ok(v) => v,
                    Err(e) => {
                        return Err(e);
                    },
                };
                let ghost s1 = *self;
                let right = match self.eval(re, fuel) {
                    Ok(v) => v,
                    Err(e) => {
                        proof {
                            Self::lemma_keeps_trans(&s0, &s1, self);
                            Self::lemma_after_left(&s0, &s1, self, fuel as nat, (**le)@, (**re)@);
                        }
                        return Err(e);
                    },
                };
                proof {
                    Self::lemma_keeps_trans(&s0, &s1, self);
                    if s0.eval_now(fuel as nat, (**le)@) is Some && s1.eval_now(fuel as nat, (**re)@) is Some {
                        let (f1, h1, l1, a) = s0.eval_now(fuel as nat, (**le)@)->0;
                        let (f2, h2, l2, b) = s1.eval_now(fuel as nat, (**re)@)->0;
                        Self::lemma_ran_trans(&s0, &s1, self, f1, h1, l1, f2, h2, l2);
                    }
                }
                if operator.token_type == TokenType::EqualEqual || operator.token_type
                    == TokenType::BangEqual {
                    return match self.values_equal(&left, &right, u64::MAX) {
                        Some(b) => Ok(
                            Value::Bool(
                                if operator.token_type == TokenType::EqualEqual {
                                    b
                                } else {
                                    !b
                                },
                            ),
                        ),
                        None => Err(RuntimeControl::Error(RuntimeError::LimitExceeded)),
                    };
                }
                match Self::binary_op(operator, left, right) {
                    Ok(v) => Ok(v),
                    Err(e) => Err(RuntimeControl::Error(e)),
                }
            },
            Expr::Variable { name, .. } => {
                proof {
                    Self::lemma_keeps_refl(self);
                    Self::lemma_ran_refl(self);
                }
                match self.look_up_var(name, expr) {
                    Ok(v) => Ok(v),
                    Err(e) => Err(RuntimeControl::Error(e)),
                }
            },
            Expr::This { keyword, .. } => {
                proof {
                    Self::lemma_keeps_refl(self);
                    Self::lemma_ran_refl(self);
                }
                match self.look_up_var(keyword, expr) {
                    Ok(v) => Ok(v),
                    Err(e) => Err(RuntimeControl::Error(e)),
                }
            },
            Expr::Assign { id, name, value: value_expr } => {
                let value = match self.eval(value_expr, fuel) {
                    Ok(v) => v,
                    Err(e) => {
                        return Err(e);
                    },
                };
                let ghost s1 = *self;
                let stored = value.duplicate();
                let res = match self.locals.get(id) {
                    Some(distance) => self.environments.assign_at(
                        self.environment,
                        *distance,
                        name,
                        stored,
                    ),
                    None => self.environments.assign(self.globals, name, &stored),
                };
                proof {
                    Self::lemma_keeps_refl(&s1);
                    Self::lemma_keeps_trans(&s0, &s1, self);
                    if s0.eval_now(fuel as nat, (**value_expr)@) is Some {
                        let (f1, h1, l1, v) = s0.eval_now(fuel as nat, (**value_expr)@)->0;
                        Self::lemma_ran_quiet(&s1, self);
                        Self::lemma_ran_trans(
                            &s0,
                            &s1,
                            self,
                            f1,
                            h1,
                            l1,
                            self.environments@,
                            self.heap(),
                            Seq::empty(),
                        );
                        assert(l1 + Seq::<Seq<char>>::empty() =~= l1);
                    }
                }
                match res {
                    Ok(()) => Ok(value),
                    Err(e) => Err(RuntimeControl::Error(e)),
                }
            },
            Expr::Logical { left: le, operator, right: re } => {
                let left = match self.eval(le, fuel) {
                    Ok(v) => v,
                    Err(e) => {
                        return Err(e);
                    },
                };
                let ghost s1 = *self;
                let go_on = if operator.token_type == TokenType::Or {
                    !left.is_truthy()
                } else {
                    left.is_truthy()
                };
                if go_on {
                    let r = self.eval(re, fuel);
                    proof {
                        Self::lemma_keeps_trans(&s0, &s1, self);
                        if ok {
                            let (f1, h1, l1, a) = s0.eval_now(fuel as nat, (**le)@)->0;
                            let (f2, h2, l2, b) = s1.eval_now(fuel as nat, (**re)@)->0;
                            Self::lemma_ran_trans(&s0, &s1, self, f1, h1, l1, f2, h2, l2);
                        }
                        Self::lemma_after_left(&s0, &s1, self, fuel as nat, (**le)@, (**re)@);
                    }
                    r
                } else {
                    Ok(left)
                }
            },
            Expr::Call { .. } => self.eval_call(expr, fuel),
            Expr::Get { object: oe, name } => {
                let object = match self.eval(oe, fuel) {
                    Ok(v) => v,
                    Err(e) => {
                        return Err(e);
                    },
                };
                let ghost s1 = *self;
                let r = match object {
                    Value::Instance(h) => self.instance_get(h, name),
                    _ => Err(RuntimeError::PropertiesOnInstancesOnly),
                };
                proof {
                    Self::lemma_keeps_refl(&s1);
                    Self::lemma_keeps_trans(&s0, &s1, self);
                    if ok {
                        let (f1, h1, l1, ov) = s0.eval_now(fuel as nat, (**oe)@)->0;
                        let (f2, v) = get_spec(f1, h1, ov->Instance_0, name.lexeme@)->0;
                        Self::lemma_ran_trans(&s0, &s1, self, f1, h1, l1, f2, h1, Seq::empty());
                        assert(l1 + Seq::<Seq<char>>::empty() =~= l1);
                    }
                }
                match r {
                    Ok(v) => Ok(v),
                    Err(e) => Err(RuntimeControl::Error(e)),
                }
            },
            Expr::SetProperty { object: oe, name, value: ve } => {
                let object = match self.eval(oe, fuel) {
                    Ok(v) => v,
                    Err(e) => {
                        return Err(e);
                    },
                };
                let ghost s1 = *self;
                let value = match self.eval(ve, fuel) {
                    Ok(v) => v,
                    Err(e) => {
                        proof {
                            Self::lemma_keeps_trans(&s0, &s1, self);
                            Self::lemma_after_left(&s0, &s1, self, fuel as nat, (**oe)@, (**ve)@);
                        }
                        return Err(e);
                    },
                };
                let ghost s2 = *self;
                proof {
                    Self::lemma_keeps_trans(&s0, &s1, self);
                    if s0.eval_now(fuel as nat, (**oe)@) is Some && s1.eval_now(fuel as nat, (**ve)@) is Some {
                        let (f1, h1, l1, ov) = s0.eval_now(fuel as nat, (**oe)@)->0;
                        let (f2, h2, l2, v) = s1.eval_now(fuel as nat, (**ve)@)->0;
                        Self::lemma_ran_trans(&s0, &s1, self, f1, h1, l1, f2, h2, l2);
                    }
                }
                match object {
                    Value::Instance(h) => {
                        if h < self.instances.len() {
                            self.instances[h].set(name, value.duplicate());
                            proof {
                                Self::lemma_keeps_refl(&s2);
                                assert(Self::keeps(&s2, self));
                                Self::lemma_keeps_trans(&s0, &s2, self);
                                if ok {
                                    let (f1, h1, l1, ov) = s0.eval_now(fuel as nat, (**oe)@)->0;
                                    let (f2, h2, l2, v) = s1.eval_now(fuel as nat, (**ve)@)->0;
                                    let h3 = h2.update(
                                        h as int,
                                        InstanceView {
                                            class: h2[h as int].class,
                                            fields: store(h2[h as int].fields, name.lexeme@, v),
                                        },
                                    );
                                    assert(self.heap() =~= h3);
                                    Self::lemma_ran_quiet(&s2, self);
                                    Self::lemma_ran_trans(
                                        &s0,
                                        &s2,
                                        self,
                                        f2,
                                        h2,
                                        l1 + l2,
                                        f2,
                                        h3,
                                        Seq::empty(),
                                    );
                                    assert(l1 + l2 + Seq::<Seq<char>>::empty() =~= l1 + l2);
                                }
                            }
                            Ok(value)
                        } else {
                            Err(RuntimeControl::Error(RuntimeError::FieldsOnInstancesOnly))
                        }
                    },
                    _ => Err(RuntimeControl::Error(RuntimeError::FieldsOnInstancesOnly)),
                }
            },
            Expr::Super { id, keyword, method } => {
                proof {
                    Self::lemma_keeps_refl(self);
                    Self::lemma_ran_refl(self);
                }
                let distance = match self.locals.get(id) {
                    Some(d) => *d,
                    None => {
                        return Err(
                            RuntimeControl::Error(
                                RuntimeError::Undefined { lexeme: keyword.lexeme.clone() },
                            ),
                        );
                    },
                };
                let superclass = match self.environments.get_at(
                    self.environment,
                    distance,
                    &String::from_str("super"),
                ) {
                    Ok(Value::Class(c)) => c,
                    _ => {
                        return Err(
                            RuntimeControl::Error(
                                RuntimeError::Undefined { lexeme: keyword.lexeme.clone() },
                            ),
                        );
                    },
                };
                if distance == 0 {
                    return Err(
                        RuntimeControl::Error(
                            RuntimeError::Undefined { lexeme: keyword.lexeme.clone() },
                        ),
                    );
                }
                let object = match self.environments.get_at(
                    self.environment,
                    distance - 1,
                    &String::from_str("this"),
                ) {
                    Ok(Value::Instance(h)) => h,
                    _ => {
                        return Err(
                            RuntimeControl::Error(
                                RuntimeError::Undefined { lexeme: keyword.lexeme.clone() },
                            ),
                        );
                    },
                };
                match superclass.find_method(&method.lexeme) {
                    Some(m) => {
                        let r = self.bind(&m, object);
                        proof {
                            Self::lemma_keeps_trans(&s0, &s0, self);
                        }
                        match r {
                            Ok(f) => Ok(Value::Function(f)),
                            Err(e) => Err(RuntimeControl::Error(e)),
                        }
                    },
                    None => Err(
                        RuntimeControl::Error(
                            RuntimeError::Undefined { lexeme: method.lexeme.clone() },
                        ),
                    ),
                }
            },
        }
    }

    /// Evaluates a call: the callee, then the arguments from left to right,
    /// then the call itself with one call less left.
    #[verifier::rlimit(60)]
    fn eval_call(&mut self, expr: &Expr, fuel: u64) -> (r: Result<Value<N>, RuntimeControl<N>>)
        requires
            old(self).wf(),
            *expr is Call,
        ensures
            Self::keeps(old(self), final(self)),
            old(self).eval_now(fuel as nat, expr@) matches Some((frames, heap, lines, v)) ==> (
            r matches Ok(x) && x@ == v && Self::ran(old(self), final(self), frames, heap, lines)),
            old(self).eval_fail_now(fuel as nat, expr@) matches Some(x) ==> Self::stopped(old(self), final(self), r, x),
        decreases fuel, 0nat, expr_size(*expr), 0nat,
    {
        let ghost s0 = *self;
        let (callee_expr, paren, arguments) = match expr {
            Expr::Call { callee, paren, arguments } => (callee, paren, arguments),
            _ => {
                proof {
                    Self::lemma_keeps_refl(self);
                }
                return Err(RuntimeControl::Error(RuntimeError::LimitExceeded));
            },
        };
        let callee = match self.eval(callee_expr, fuel) {
            Ok(v) => v,
            Err(e) => {
                return Err(e);
            },
        };
        let ghost s1 = *self;
        let ghost ok = s0.eval_now(fuel as nat, expr@) is Some;
        let ghost head = s0.eval_now(fuel as nat, (**callee_expr)@) is Some;
        let ghost cf = s0.eval_fail_now(fuel as nat, expr@);
        let ghost l1c: Seq<Seq<char>> = if head {
            (s0.eval_now(fuel as nat, (**callee_expr)@)->0).2
        } else {
            Seq::empty()
        };
        proof {
            lemma_call_fail_unfold(
                fuel as nat,
                s0.frames(),
                s0.heap(),
                s0.current() as int,
                s0.globals_frame() as int,
                s0.locals_spec(),
                expr@,
            );
        }
        let ghost av: Seq<ExprView> = match expr@ {
            ExprView::Call { arguments, .. } => arguments,
            _ => Seq::empty(),
        };
        let ghost mut la: Seq<Seq<char>> = Seq::empty();
        let ghost mut alive = true;
        let mut args: Vec<Value<N>> = Vec::new();
        let mut i: usize = 0;
        proof {
            assert forall|j: int| 0 <= j < arguments@.len() implies expr_size(*arguments@[j])
                < expr_size(*expr) by {
                lemma_args_size(arguments@, j);
            }
            assert(av.len() == arguments@.len());
            assert forall|j: int| 0 <= j < arguments@.len() implies av[j] == (
            *arguments@[j])@ by {}
            Self::lemma_ran_refl(self);
            assert(av.take(0) =~= Seq::<ExprView>::empty());
            assert(values_view(args@) =~= Seq::<ValueView<N>>::empty());
        }
        while i < arguments.len()
            invariant
                Self::keeps(&s0, self),
                Self::keeps(&s0, &s1),
                s0 == *old(self),
                *expr is Call,
                i <= arguments@.len(),
                forall|j: int|
                    0 <= j < arguments@.len() ==> expr_size(*arguments@[j]) < expr_size(*expr),
                av.len() == arguments@.len(),
                forall|j: int| 0 <= j < arguments@.len() ==> av[j] == (*arguments@[j])@,
                ok == (s0.eval_now(fuel as nat, expr@) is Some),
                ok ==> s1.args_now(fuel as nat, av) is Some,
                alive == (s1.args_now(fuel as nat, av.take(i as int)) is Some),
                ok ==> alive,
                alive ==> {
                    &&& s1.args_now(fuel as nat, av.take(i as int)) == Some(
                        (self.environments@, self.heap(), la, values_view(args@)),
                    )
                    &&& Self::ran(&s1, self, self.environments@, self.heap(), la)
                },
                s1.args_fail_now(fuel as nat, av.take(i as int)) is None,
                cf == s0.eval_fail_now(fuel as nat, expr@),
                cf is Some ==> head,
                head ==> Self::ran(&s0, &s1, s1.frames(), s1.heap(), l1c),
                head ==> (s1.args_fail_now(fuel as nat, av) matches Some(x) ==> cf == prefixed(
                    l1c,
                    Some(x),
                )),
                head && s1.args_fail_now(fuel as nat, av) is None ==> match s1.args_now(
                    fuel as nat,
                    av,
                ) {
                    Some((f2, h2, l2, vs)) => cf == if fuel == 0 {
                        Some((f2, h2, l1c + l2, RunFailure::<N>::LimitExceeded))
                    } else {
                        prefixed(
                            l1c + l2,
                            call_value_fail(
                                (fuel - 1) as nat,
                                f2,
                                h2,
                                s1.globals_frame() as int,
                                s1.locals_spec(),
                                callee@,
                                vs,
                                paren.lexeme@,
                            ),
                        )
                    },
                    None => cf is None,
                },
            decreases arguments@.len() - i,
        {
            let ghost si = *self;
            proof {
                assert(av.take(i + 1).drop_last() =~= av.take(i as int));
                assert(av.take(i + 1).last() == av[i as int]);
                if ok {
                    lemma_args_prefix(
                        fuel as nat,
                        s1.frames(),
                        s1.heap(),
                        s1.current() as int,
                        s1.globals_frame() as int,
                        s1.locals_spec(),
                        av,
                        i + 1,
                    );
                }
            }
            let a = match self.eval(&arguments[i], fuel) {
                Ok(v) => v,
                Err(e) => {
                    proof {
                        Self::lemma_keeps_trans(&s0, &si, self);
                        lemma_args_fail_settled(
                            fuel as nat,
                            s1.frames(),
                            s1.heap(),
                            s1.current() as int,
                            s1.globals_frame() as int,
                            s1.locals_spec(),
                            av,
                            i + 1,
                        );
                        if s1.args_now(fuel as nat, av) is Some {
                            lemma_args_prefix(
                                fuel as nat,
                                s1.frames(),
                                s1.heap(),
                                s1.current() as int,
                                s1.globals_frame() as int,
                                s1.locals_spec(),
                                av,
                                i + 1,
                            );
                        }
                        if alive {
                            assert(s1.args_fail_now(fuel as nat, av.take(i + 1)) == prefixed(
                                la,
                                si.eval_fail_now(fuel as nat, av[i as int]),
                            ));
                            if si.eval_fail_now(fuel as nat, av[i as int]) is Some {
                                let (fx, hx, lx, x) = si.eval_fail_now(
                                    fuel as nat,
                                    av[i as int],
                                )->0;
                                Self::lemma_ran_trans(
                                    &s1,
                                    &si,
                                    self,
                                    si.environments@,
                                    si.heap(),
                                    la,
                                    fx,
                                    hx,
                                    lx,
                                );
                                if head {
                                    Self::lemma_ran_trans(
                                        &s0,
                                        &s1,
                                        self,
                                        s1.frames(),
                                        s1.heap(),
                                        l1c,
                                        fx,
                                        hx,
                                        la + lx,
                                    );
                                }
                            }
                        }
                    }
                    return Err(e);
                },
            };
            proof {
                Self::lemma_keeps_trans(&s0, &si, self);
                if alive {
                    if si.eval_now(fuel as nat, av[i as int]) is Some {
                        let (f2, h2, l2, v) = si.eval_now(fuel as nat, av[i as int])->0;
                        Self::lemma_ran_trans(
                            &s1,
                            &si,
                            self,
                            si.environments@,
                            si.heap(),
                            la,
                            f2,
                            h2,
                            l2,
                        );
                        la = la + l2;
                    }
                }
                alive = s1.args_now(fuel as nat, av.take(i + 1)) is Some;
            }
            args.push(a);
            proof {
                assert(values_view(args@) =~= values_view(args@.drop_last()).push(a@));
            }
            i = i + 1;
        }
        proof {
            assert(av.take(i as int) =~= av);
        }
        proof {
            if head && alive {
                Self::lemma_ran_trans(&s0, &s1, self, s1.frames(), s1.heap(), l1c, self.frames(), self.heap(), la);
            }
        }
        if fuel == 0 {
            return Err(RuntimeControl::Error(RuntimeError::LimitExceeded));
        }
        let ghost s2 = *self;
        let ghost vsa = values_view(args@);
        let ghost cva = callee@;
        let r = self.call_value(callee, args, paren, fuel - 1);
        proof {
            Self::lemma_keeps_trans(&s0, &s2, self);
            if ok {
                let (f1, h1, l1, cv) = s0.eval_now(fuel as nat, (**callee_expr)@)->0;
                let (f2, h2, l2, vs) = s1.args_now(fuel as nat, av)->0;
                let (f3, h3, l3, v) = s2.call_value_now((fuel - 1) as nat, cv, vs)->0;
                Self::lemma_ran_trans(&s0, &s1, &s2, f1, h1, l1, f2, h2, l2);
                Self::lemma_ran_trans(&s0, &s2, self, f2, h2, l1 + l2, f3, h3, l3);
            }
            if head && alive && s2.call_value_fail_now(
                (fuel - 1) as nat,
                cva,
                vsa,
                paren.lexeme@,
            ) is Some {
                let (f3, h3, l3, x) = s2.call_value_fail_now(
                    (fuel - 1) as nat,
                    cva,
                    vsa,
                    paren.lexeme@,
                )->0;
                Self::lemma_ran_trans(&s0, &s2, self, s2.frames(), s2.heap(), l1c + la, f3, h3, l3);
            }
        }
        match r {
            Ok(v) => Ok(v),
            Err(e) => Err(RuntimeControl::Error(e)),
        }
    }

    /// The value of a variable or `this`: from the frame the resolver found,
    /// or else from the globals.
    fn look_up_var(&self, name: &Token, expr: &Expr) -> (r: Result<Value<N>, RuntimeError<N>>)
        requires
            self.wf(),
        ensures
            match self.variable(expr_id(*expr), name.lexeme@) {
                Some(v) => r matches Ok(x) && x@ == v,
                None => r == Err::<Value<N>, RuntimeError<N>>(
                    RuntimeError::Undefined { lexeme: name.lexeme },
                ),
            },
    {
        match expr.id() {
            Some(id) => match self.locals.get(&id) {
                Some(distance) => self.environments.get_at(
                    self.environment,
                    *distance,
                    &name.lexeme,
                ),
                None => self.environments.get(self.globals, name),
            },
            None => self.environments.get(self.globals, name),
        }
    }

    /// The value of property `name` of instance `h`: a field, or else a
    /// method bound to the instance.
    fn instance_get(&mut self, h: usize, name: &Token) -> (r: Result<Value<N>, RuntimeError<N>>)
        requires
            old(self).wf(),
        ensures
            Self::keeps(old(self), final(self)),
            get_spec(old(self).frames(), old(self).heap(), h, name.lexeme@) matches Some(
                (frames, v),
            ) ==> (r matches Ok(x) && x@ == v && Self::ran(
                old(self),
                final(self),
                frames,
                old(self).heap(),
                Seq::empty(),
            )),
            h >= old(self).heap().len() ==> r == Err::<Value<N>, RuntimeError<N>>(
                RuntimeError::PropertiesOnInstancesOnly,
            ) && *final(self) == *old(self),
            h < old(self).heap().len() && lookup(old(self).heap()[h as int].fields, name.lexeme@)
                is None && find_method_spec(old(self).heap()[h as int].class, name.lexeme@) is None
                ==> r == Err::<Value<N>, RuntimeError<N>>(
                RuntimeError::Undefined { lexeme: name.lexeme },
            ) && *final(self) == *old(self),
    {
        proof {
            Self::lemma_ran_refl(self);
        }
        if h >= self.instances.len() {
            proof {
                Self::lemma_keeps_refl(self);
            }
            return Err(RuntimeError::PropertiesOnInstancesOnly);
        }
        proof {
            assert(self.heap()[h as int] == self.instances@[h as int]@);
        }
        match self.instances[h].get_field(&name.lexeme) {
            Some(v) => {
                proof {
                    Self::lemma_keeps_refl(self);
                }
                Ok(v)
            },
            None => match self.instances[h].class().find_method(&name.lexeme) {
                Some(m) => match self.bind(&m, h) {
                    Ok(f) => Ok(Value::Function(f)),
                    Err(e) => Err(e),
                },
                None => {
                    proof {
                        Self::lemma_keeps_refl(self);
                    }
                    Err(RuntimeError::Undefined { lexeme: name.lexeme.clone() })
                },
            },
        }
    }

    /// The method `f` bound to instance `h`: its closure gets a new frame in
    /// which `this` is the instance.
    fn bind(&mut self, f: &Function, h: usize) -> (r: Result<Function, RuntimeError<N>>)
        requires
            old(self).wf(),
        ensures
            Self::keeps(old(self), final(self)),
            bind_spec(old(self).frames(), f@, h) matches Some((frames, fv)) ==> (r matches Ok(g)
                && g@ == fv && Self::ran(old(self), final(self), frames, old(self).heap(), Seq::empty())),
    {
        if f.closure >= self.environments.len() {
            proof {
                Self::lemma_keeps_refl(self);
            }
            return Err(RuntimeError::NotCallable(String::from_str("Tried to bind a method")));
        }
        let env = Environment::new().with_enclosing(f.closure);
        proof {
            assert(env@.values =~= Seq::<(Seq<char>, ValueView<N>)>::empty());
        }
        let ghost s0 = *self;
        let handle = self.environments.add(env);
        self.environments.define(handle, String::from_str("this"), Some(Value::Instance(h)));
        proof {
            assert(self.output@.subrange(0, s0.output@.len() as int) =~= s0.output@);
            Self::lemma_ran_quiet(&s0, self);
        }
        Ok(
            Function {
                declaration: f.declaration.duplicate(),
                closure: handle,
                is_initializer: f.is_initializer,
            },
        )
    }

    /// Calls a value with arguments: a function or a class with as many
    /// parameters as there are arguments. A call of a class makes a new
    /// instance.
    #[verifier::spinoff_prover]
    #[verifier::rlimit(40)]
    fn call_value(&mut self, callee: Value<N>, args: Vec<Value<N>>, paren: &Token, fuel: u64) -> (r:
        Result<Value<N>, RuntimeError<N>>)
        requires
            old(self).wf(),
        ensures
            Self::keeps(old(self), final(self)),
            match callee@ {
                ValueView::Native(a) => {
                    &&& a != args@.len() ==> r == Err::<Value<N>, RuntimeError<N>>(
                        RuntimeError::Arity { expected: a, got: args@.len() as usize },
                    )
                    &&& a == args@.len() ==> (r matches Ok(v) && v@ is Number)
                },
                ValueView::Function(f) => arity_spec(f) != args@.len() ==> r == Err::<
                    Value<N>,
                    RuntimeError<N>,
                >(
                    RuntimeError::Arity {
                        expected: arity_spec(f) as usize,
                        got: args@.len() as usize,
                    },
                ),
                ValueView::Class(c) => {
                    let arity = match find_method_spec(c, "init"@) {
                        Some(init) => arity_spec(init),
                        None => 0,
                    };
                    &&& arity != args@.len() ==> r == Err::<Value<N>, RuntimeError<N>>(
                        RuntimeError::Arity { expected: arity as usize, got: args@.len() as usize },
                    )
                    &&& r is Ok ==> r->Ok_0@ == ValueView::<N>::Instance(
                        old(self).instances@.len() as usize,
                    )
                },
                _ => r == Err::<Value<N>, RuntimeError<N>>(
                    RuntimeError::NotCallable(paren.lexeme),
                ),
            },
            old(self).call_value_now(fuel as nat, callee@, values_view(args@)) matches Some(
                (frames, heap, lines, v),
            ) ==> (r matches Ok(x) && x@ == v && Self::ran(
                old(self),
                final(self),
                frames,
                heap,
                lines,
            )),
            old(self).call_value_fail_now(fuel as nat, callee@, values_view(args@), paren.lexeme@)
                matches Some(x) ==> Self::stopped_with(old(self), final(self), r, x),
        decreases fuel, 3nat, 0nat, 0nat,
    {
        let ghost cv = callee@;
        proof {
            Self::lemma_keeps_refl(self);
            Self::lemma_ran_refl(self);
        }
        match callee {
            Value::Native(function) => {
                if function.arity() != args.len() {
                    return Err(RuntimeError::Arity { expected: function.arity(), got: args.len() });
                }
                let time = system_now();
                // A clock set before the epoch reads as the epoch itself.
                let (seconds, nanos) = match since_epoch(&time) {
                    Some(span) => (whole_seconds(&span), nanos_part(&span)),
                    None => (0, 0),
                };
                Ok(Value::Number(N::from_timestamp(seconds, nanos)))
            },
            Value::Function(function) => {
                if function.arity() != args.len() {
                    return Err(RuntimeError::Arity { expected: function.arity(), got: args.len() });
                }
                proof {
                    assert(old(self).call_value_now(fuel as nat, cv, values_view(args@))
                        == old(self).call_now(fuel as nat, function@, values_view(args@)));
                }
                self.call_function(&function, args, fuel)
            },
            Value::Class(class) => {
                let arity = match class.find_method(&String::from_str("init")) {
                    Some(init) => init.arity(),
                    None => 0,
                };
                if arity != args.len() {
                    proof {
                        reveal(class_call_spec);
                        assert(old(self).call_value_now(fuel as nat, cv, values_view(args@))
                            == old(self).class_call_now(fuel as nat, class@, values_view(args@)));
                    }
                    return Err(RuntimeError::Arity { expected: arity, got: args.len() });
                }
                assert(old(self).call_value_now(fuel as nat, cv, values_view(args@))
                    == old(self).class_call_now(fuel as nat, class@, values_view(args@))) by {
                    reveal(class_call_spec);
                }
                self.call_class(class, args, fuel)
            },
            _ => Err(RuntimeError::NotCallable(paren.lexeme.clone())),
        }
    }

    /// Creates an instance of a class and runs its initializer, if it has
    /// one, on it.
    fn call_class(&mut self, class: Class, args: Vec<Value<N>>, fuel: u64) -> (r: Result<
        Value<N>,
        RuntimeError<N>,
    >)
        requires
            old(self).wf(),
        ensures
            Self::keeps(old(self), final(self)),
            r is Ok ==> r->Ok_0@ == ValueView::<N>::Instance(old(self).instances@.len() as usize),
            final(self).instances@.len() > old(self).instances@.len(),
            final(self).heap()[old(self).instances@.len() as int].class == class@,
            old(self).class_call_now(fuel as nat, class@, values_view(args@)) matches Some(
                (frames, heap, lines, v),
            ) ==> (r matches Ok(x) && x@ == v && Self::ran(
                old(self),
                final(self),
                frames,
                heap,
                lines,
            )),
            old(self).class_call_fail_now(fuel as nat, class@, values_view(args@)) matches Some(x)
                ==> Self::stopped_with(old(self), final(self), r, x),
        decreases fuel, 2nat, 0nat, 0nat,
    {
        let ghost sa = *self;
        let ghost cv = class@;
        proof {
            reveal(class_call_spec);
        }
        let init = class.find_method(&String::from_str("init"));
        let h = self.instances.len();
        let instance = Instance::new(class);
        let ghost iv = instance@;
        self.instances.push(instance);
        let ghost s0 = *self;
        proof {
            Self::lemma_keeps_refl(self);
            assert(s0.heap() =~= sa.heap().push(iv));
            Self::lemma_ran_quiet(&sa, &s0);
        }
        match init {
            Some(initializer) => {
                let r = self.run_initializer(&initializer, h, args, fuel);
                proof {
                    Self::lemma_keeps_trans(&sa, &s0, self);
                    if sa.class_call_now(fuel as nat, cv, values_view(args@)) is Some {
                        let (f1, fv) = bind_spec(s0.frames(), initializer@, h)->0;
                        let (f2, h2, l2, v) = call_spec(
                            fuel as nat,
                            f1,
                            s0.heap(),
                            s0.globals as int,
                            s0.locals@,
                            fv,
                            values_view(args@),
                        )->0;
                        Self::lemma_ran_trans(
                            &sa,
                            &s0,
                            self,
                            s0.environments@,
                            s0.heap(),
                            Seq::empty(),
                            f2,
                            h2,
                            l2,
                        );
                        assert(Seq::<Seq<char>>::empty() + l2 =~= l2);
                    }
                    if sa.class_call_fail_now(fuel as nat, cv, values_view(args@)) is Some {
                        let x = sa.class_call_fail_now(fuel as nat, cv, values_view(args@))->0;
                        Self::lemma_ran_trans(
                            &sa,
                            &s0,
                            self,
                            s0.environments@,
                            s0.heap(),
                            Seq::empty(),
                            x.0,
                            x.1,
                            x.2,
                        );
                        assert(Seq::<Seq<char>>::empty() + x.2 =~= x.2);
                    }
                }
                match r {
                    Ok(()) => {},
                    Err(e) => {
                        return Err(e);
                    },
                }
            },
            None => {},
        }
        Ok(Value::Instance(h))
    }

    /// Runs the initializer `initializer` on the instance with handle `h`.
    fn run_initializer(
        &mut self,
        initializer: &Function,
        h: usize,
        args: Vec<Value<N>>,
        fuel: u64,
    ) -> (r: Result<(), RuntimeError<N>>)
        requires
            old(self).wf(),
        ensures
            Self::keeps(old(self), final(self)),
            bind_spec(old(self).frames(), initializer@, h) matches Some((f1, fv)) ==> (call_spec(
                fuel as nat,
                f1,
                old(self).heap(),
                old(self).globals as int,
                old(self).locals@,
                fv,
                values_view(args@),
            ) matches Some((f2, h2, l2, v)) ==> (r is Ok && Self::ran(
                old(self),
                final(self),
                f2,
                h2,
                l2,
            ))),
            bind_spec(old(self).frames(), initializer@, h) matches Some((f1, fv)) ==> (call_fail(
                fuel as nat,
                f1,
                old(self).heap(),
                old(self).globals as int,
                old(self).locals@,
                fv,
                values_view(args@),
            ) matches Some(x) ==> Self::stopped_with(old(self), final(self), r, x)),
        decreases fuel, 1nat, 1nat, 0nat,
    {
        let ghost s0 = *self;
        let bound = self.bind(initializer, h)?;
        let ghost s1 = *self;
        let r = self.call_function(&bound, args, fuel);
        proof {
            Self::lemma_keeps_trans(&s0, &s1, self);
            if bind_spec(s0.frames(), initializer@, h) is Some {
                let (f1, fv) = bind_spec(s0.frames(), initializer@, h)->0;
                if s1.call_now(fuel as nat, fv, values_view(args@)) is Some {
                    let (f2, h2, l2, v) = s1.call_now(fuel as nat, fv, values_view(args@))->0;
                    Self::lemma_ran_trans(&s0, &s1, self, f1, s0.heap(), Seq::empty(), f2, h2, l2);
                    assert(Seq::<Seq<char>>::empty() + l2 =~= l2);
                }
                if s1.call_fail_now(fuel as nat, fv, values_view(args@)) is Some {
                    let x = s1.call_fail_now(fuel as nat, fv, values_view(args@))->0;
                    Self::lemma_ran_trans(&s0, &s1, self, f1, s0.heap(), Seq::empty(), x.0, x.1, x.2);
                    assert(Seq::<Seq<char>>::empty() + x.2 =~= x.2);
                }
            }
        }
        match r {
            Ok(_) => Ok(()),
            Err(e) => Err(e),
        }
    }

    /// Calls a user function: a new frame, enclosed by its closure, binds
    /// the parameters to the arguments, and the body runs in it.
    fn call_function(&mut self, function: &Function, args: Vec<Value<N>>, fuel: u64) -> (r: Result<
        Value<N>,
        RuntimeError<N>,
    >)
        requires
            old(self).wf(),
        ensures
            Self::keeps(old(self), final(self)),
            old(self).call_now(fuel as nat, function@, values_view(args@)) matches Some(
                (frames, heap, lines, v),
            ) ==> (r matches Ok(x) && x@ == v && Self::ran(
                old(self),
                final(self),
                frames,
                heap,
                lines,
            )),
            old(self).call_fail_now(fuel as nat, function@, values_view(args@)) matches Some(x)
                ==> Self::stopped_with(old(self), final(self), r, x),
        decreases fuel, 1nat, 0nat, 0nat,
    {
        proof {
            Self::lemma_keeps_refl(self);
        }
        match &function.declaration {
            Stmt::Function { params, body, .. } => {
                if function.closure >= self.environments.len() {
                    return Err(
                        RuntimeError::NotCallable(String::from_str("Tried to call a function")),
                    );
                }
                let ghost s0 = *self;
                let ghost ok = s0.call_now(fuel as nat, function@, values_view(args@)) is Some;
                let ghost fits = params@.len() == args@.len();
                let ghost pv = tokens_seq_view(params@);
                let ghost vs = values_view(args@);
                let frame = Environment::new().with_enclosing(function.closure);
                proof {
                    assert(frame@.values =~= Seq::<(Seq<char>, ValueView<N>)>::empty());
                }
                let env = self.environments.add(frame);
                let ghost pushed = self.environments@;
                let mut i: usize = 0;
                proof {
                    assert(pv.take(0) =~= Seq::<TokenView>::empty());
                }
                while i < params.len()
                    invariant
                        Self::keeps(&s0, self),
                        env < self.environments@.len(),
                        env == s0.environments@.len(),
                        i <= params@.len(),
                        pv == tokens_seq_view(params@),
                        vs == values_view(args@),
                        fits == (params@.len() == args@.len()),
                        self.globals == s0.globals,
                        self.instances == s0.instances,
                        self.locals == s0.locals,
                        self.output == s0.output,
                        fits ==> self.environments@ == bind_params(pushed, env as int, pv.take(i as int), vs),
                    decreases params@.len() - i,
                {
                    let arg = if i < args.len() {
                        Some(args[i].duplicate())
                    } else {
                        None
                    };
                    self.environments.define(env, params[i].lexeme.clone(), arg);
                    proof {
                        assert(pv.take(i + 1).drop_last() =~= pv.take(i as int));
                        assert(pv.take(i + 1).last() == params@[i as int]@);
                    }
                    i = i + 1;
                }
                proof {
                    assert(pv.take(i as int) =~= pv);
                    Self::lemma_ran_quiet(&s0, self);
                }
                let ghost s1 = *self;
                proof {
                    assert(function@.declaration->Function_body =~= stmts_view(body@));
                }
                let result = self.execute_block(body, env, fuel);
                let ghost s2 = *self;
                proof {
                    Self::lemma_keeps_trans(&s0, &s1, self);
                    if ok {
                        let (f2, h2, l2, o) = s1.block_now(fuel as nat, env as int, stmts_view(body@))->0;
                        Self::lemma_ran_trans(
                            &s0,
                            &s1,
                            self,
                            s1.environments@,
                            s1.heap(),
                            Seq::empty(),
                            f2,
                            h2,
                            l2,
                        );
                        assert(Seq::<Seq<char>>::empty() + l2 =~= l2);
                    }
                    if s1.block_fail_now(fuel as nat, env as int, stmts_view(body@)) is Some {
                        let x = s1.block_fail_now(fuel as nat, env as int, stmts_view(body@))->0;
                        Self::lemma_ran_trans(
                            &s0,
                            &s1,
                            self,
                            s1.environments@,
                            s1.heap(),
                            Seq::empty(),
                            x.0,
                            x.1,
                            x.2,
                        );
                        assert(Seq::<Seq<char>>::empty() + x.2 =~= x.2);
                    }
                }
                match result {
                    Ok(()) => {
                        if function.is_initializer {
                            self.environments.get_at(function.closure, 0, &String::from_str("this"))
                        } else {
                            Ok(Value::Nil)
                        }
                    },
                    Err(RuntimeControl::Return(value)) => {
                        if function.is_initializer {
                            self.environments.get_at(function.closure, 0, &String::from_str("this"))
                        } else {
                            Ok(value)
                        }
                    },
                    Err(RuntimeControl::Error(error)) => Err(error),
                }
            },
            _ => Err(RuntimeError::NotCallable(String::from_str("Tried to call a non-function value"))),
        }
    }

    // ----- statements -----

    /// Runs statements in frame `env`, and returns to the current frame
    /// afterwards, also where a statement stops early.
    fn execute_block(&mut self, statements: &Vec<Stmt>, env: usize, fuel: u64) -> (r: Result<
        (),
        RuntimeControl<N>,
    >)
        requires
            old(self).wf(),
            env < old(self).environments@.len(),
        ensures
            Self::keeps(old(self), final(self)),
            old(self).block_now(fuel as nat, env as int, stmts_view(statements@)) matches Some(
                (frames, heap, lines, o),
            ) ==> Self::ran(old(self), final(self), frames, heap, lines) && Self::ended(r, o),
            old(self).block_fail_now(fuel as nat, env as int, stmts_view(statements@)) matches Some(
                x,
            ) ==> Self::stopped(old(self), final(self), r, x),
        decreases fuel, 0nat, stmts_size(statements@), 0nat,
    {
        let previous = self.environment;
        let ghost s0 = *self;
        let ghost sv = stmts_view(statements@);
        let ghost ok = s0.block_now(fuel as nat, env as int, sv) is Some;
        let ghost mut alive = true;
        let ghost mut lines: Seq<Seq<char>> = Seq::empty();
        let ghost mut outcome: Option<ValueView<N>> = None;
        self.environment = env;
        let mut i: usize = 0;
        let mut result: Result<(), RuntimeControl<N>> = Ok(());
        proof {
            Self::lemma_ran_refl(&s0);
            assert(sv.take(0) =~= Seq::<StmtView>::empty());
            assert(self.output@.subrange(0, s0.output@.len() as int) =~= s0.output@);
            assert forall|j: int| 0 <= j < statements@.len() implies stmt_size(statements@[j]) < stmts_size(statements@) by {
                lemma_stmts_size(statements@, j);
            }
        }
        while i < statements.len() && result.is_ok()
            invariant
                self.wf(),
                self.environment == env,
                previous == s0.environment,
                s0.wf(),
                self.globals == s0.globals,
                self.locals@ == s0.locals@,
                s0.environments@.len() <= self.environments@.len(),
                s0.instances@.len() <= self.instances@.len(),
                forall|k: int|
                    0 <= k < s0.instances@.len() ==> (#[trigger] self.instances@[k])@.class
                        == s0.instances@[k]@.class,
                s0.output@.len() <= self.output@.len(),
                self.output@.subrange(0, s0.output@.len() as int) == s0.output@,
                i <= statements@.len(),
                forall|j: int|
                    0 <= j < statements@.len() ==> stmt_size(statements@[j]) < stmts_size(statements@),
                sv == stmts_view(statements@),
                ok == (s0.block_now(fuel as nat, env as int, sv) is Some),
                alive == (s0.block_now(fuel as nat, env as int, sv.take(i as int)) is Some),
                ok ==> alive,
                alive ==> {
                    &&& s0.block_now(fuel as nat, env as int, sv.take(i as int)) == Some(
                        (self.environments@, self.heap(), lines, outcome),
                    )
                    &&& Self::ran(&s0, self, self.environments@, self.heap(), lines)
                    &&& Self::ended(result, outcome)
                },
                s0.block_fail_now(fuel as nat, env as int, sv.take(i as int)) matches Some(x)
                    ==> Self::stopped(&s0, self, result, x),
            decreases statements@.len() - i,
        {
            let ghost s1 = *self;
            proof {
                assert(sv.take(i + 1).drop_last() =~= sv.take(i as int));
                assert(sv.take(i + 1).last() == statements@[i as int]@);
                if ok {
                    lemma_block_prefix(
                        fuel as nat,
                        s0.frames(),
                        s0.heap(),
                        env as int,
                        s0.globals as int,
                        s0.locals@,
                        sv,
                        i + 1,
                    );
                }
            }
            let r = self.execute(&statements[i], fuel);
            proof {
                assert(self.output@.subrange(0, s0.output@.len() as int) =~= self.output@.subrange(
                    0,
                    s1.output@.len() as int,
                ).subrange(0, s0.output@.len() as int));
                if alive && s1.exec_fail_now(fuel as nat, statements@[i as int]@) is Some {
                    let x = s1.exec_fail_now(fuel as nat, statements@[i as int]@)->0;
                    Self::lemma_ran_trans(
                        &s0,
                        &s1,
                        self,
                        s1.environments@,
                        s1.heap(),
                        lines,
                        x.0,
                        x.1,
                        x.2,
                    );
                }
                if alive && s1.exec_now(fuel as nat, statements@[i as int]@) is Some {
                    let (f2, h2, l2, o2) = s1.exec_now(fuel as nat, statements@[i as int]@)->0;
                    Self::lemma_ran_trans(
                        &s0,
                        &s1,
                        self,
                        s1.environments@,
                        s1.heap(),
                        lines,
                        f2,
                        h2,
                        l2,
                    );
                    lines = lines + l2;
                    outcome = o2;
                }
                alive = s0.block_now(fuel as nat, env as int, sv.take(i + 1)) is Some;
            }
            match r {
                Ok(()) => {},
                Err(c) => {
                    result = Err(c);
                },
            }
            i = i + 1;
        }
        proof {
            if ok {
                if outcome is Some {
                    lemma_block_returned(
                        fuel as nat,
                        s0.frames(),
                        s0.heap(),
                        env as int,
                        s0.globals as int,
                        s0.locals@,
                        sv,
                        i as int,
                    );
                } else {
                    assert(sv.take(i as int) =~= sv);
                }
            }
            if i == statements@.len() {
                assert(sv.take(i as int) =~= sv);
            } else {
                lemma_block_fail_settled(
                    fuel as nat,
                    s0.frames(),
                    s0.heap(),
                    env as int,
                    s0.globals as int,
                    s0.locals@,
                    sv,
                    i as int,
                );
            }
        }
        self.environment = previous;
        result
    }

    /// Runs a `while` loop: the condition is evaluated, and while it is true
    /// the body runs, each round with one less left.
    #[verifier::spinoff_prover]
    #[verifier::rlimit(40)]
    fn run_loop(&mut self, condition: &Expr, body: &Stmt, fuel: u64) -> (r: Result<
        (),
        RuntimeControl<N>,
    >)
        requires
            old(self).wf(),
        ensures
            Self::keeps(old(self), final(self)),
            old(self).loop_now(fuel as nat, (*condition)@, (*body)@) matches Some(
                (frames, heap, lines, o),
            ) ==> Self::ran(old(self), final(self), frames, heap, lines) && Self::ended(r, o),
            old(self).loop_fail_now(fuel as nat, (*condition)@, (*body)@) matches Some(x)
                ==> Self::stopped(old(self), final(self), r, x),
        decreases fuel, 0nat, expr_size(*condition) + stmt_size(*body), 0nat,
    {
        let ghost s0 = *self;
        let ghost cv = (*condition)@;
        let ghost bv = (*body)@;
        let ghost total = s0.loop_now(fuel as nat, cv, bv);
        let ghost lf = s0.loop_fail_now(fuel as nat, cv, bv);
        let ghost live = total is Some || lf is Some;
        let ghost mut done: Seq<Seq<char>> = Seq::empty();
        let mut f: u64 = fuel;
        proof {
            Self::lemma_keeps_refl(self);
            Self::lemma_ran_refl(self);
            assert(Seq::<Seq<char>>::empty() + (total->0).2 =~= (total->0).2);
            if lf is Some {
                assert(Seq::<Seq<char>>::empty() + (lf->0).2 =~= (lf->0).2);
            }
        }
        loop
            invariant
                s0 == *old(self),
                Self::keeps(&s0, self),
                f <= fuel,
                cv == (*condition)@,
                bv == (*body)@,
                total == s0.loop_now(fuel as nat, cv, bv),
                lf == s0.loop_fail_now(fuel as nat, cv, bv),
                live == (total is Some || lf is Some),
                live ==> Self::ran(&s0, self, self.frames(), self.heap(), done),
                total is Some ==> (self.loop_now(f as nat, cv, bv) matches Some((fr, hp, rest, o))
                    && total == Some((fr, hp, done + rest, o))),
                lf is Some ==> lf == prefixed(done, self.loop_fail_now(f as nat, cv, bv)),
            decreases f,
        {
            let ghost s1 = *self;
            let c = match self.eval(condition, f) {
                Ok(v) => v,
                Err(e) => {
                    proof {
                        Self::lemma_keeps_trans(&s0, &s1, self);
                        if lf is Some && s1.eval_fail_now(f as nat, cv) is Some {
                            let x = s1.eval_fail_now(f as nat, cv)->0;
                            Self::lemma_ran_trans(&s0, &s1, self, s1.frames(), s1.heap(), done, x.0, x.1, x.2);
                        }
                    }
                    return Err(e);
                },
            };
            proof {
                Self::lemma_keeps_trans(&s0, &s1, self);
                if live && s1.eval_now(f as nat, cv) is Some {
                    let (f1, h1, l1, v) = s1.eval_now(f as nat, cv)->0;
                    Self::lemma_ran_trans(&s0, &s1, self, s1.frames(), s1.heap(), done, f1, h1, l1);
                }
            }
            if !c.is_truthy() {
                proof {
                    if total is Some {
                        let (f1, h1, l1, v) = s1.eval_now(f as nat, cv)->0;
                        assert(done + l1 =~= done + (l1 + Seq::<Seq<char>>::empty()));
                    }
                }
                return Ok(());
            }
            if f == 0 {
                return Err(RuntimeControl::Error(RuntimeError::LimitExceeded));
            }
            f = f - 1;
            let ghost s2 = *self;
            let r = self.execute(body, f);
            proof {
                Self::lemma_keeps_trans(&s0, &s2, self);
                Self::lemma_keeps_trans(&s1, &s2, self);
                if live && s1.eval_now((f + 1) as nat, cv) is Some {
                    let (f1, h1, l1, v) = s1.eval_now((f + 1) as nat, cv)->0;
                    if s2.exec_now(f as nat, bv) is Some {
                        let (f2, h2, l2, o) = s2.exec_now(f as nat, bv)->0;
                        Self::lemma_ran_trans(&s0, &s2, self, f1, h1, done + l1, f2, h2, l2);
                        assert(done + l1 + l2 =~= done + (l1 + l2));
                        if o is None {
                            if total is Some {
                                let rest = (s1.loop_now((f + 1) as nat, cv, bv)->0).2;
                                let l3 = (self.loop_now(f as nat, cv, bv)->0).2;
                                assert(done + rest =~= (done + l1 + l2) + l3);
                            }
                            if lf is Some && self.loop_fail_now(f as nat, cv, bv) is Some {
                                let l3 = (self.loop_fail_now(f as nat, cv, bv)->0).2;
                                assert(done + ((l1 + l2) + l3) =~= (done + l1 + l2) + l3);
                            }
                            done = done + l1 + l2;
                        }
                    }
                    if s2.exec_fail_now(f as nat, bv) is Some {
                        let x = s2.exec_fail_now(f as nat, bv)->0;
                        Self::lemma_ran_trans(&s0, &s2, self, f1, h1, done + l1, x.0, x.1, x.2);
                        assert(done + l1 + x.2 =~= done + (l1 + x.2));
                    }
                }
            }
            match r {
                Ok(()) => {},
                Err(e) => {
                    return Err(e);
                },
            }
        }
    }

    #[verifier::spinoff_prover]
    #[verifier::rlimit(80)]
    fn execute(&mut self, stmt: &Stmt, fuel: u64) -> (r: Result<(), RuntimeControl<N>>)
        requires
            old(self).wf(),
        ensures
            Self::keeps(old(self), final(self)),
            old(self).exec_now(fuel as nat, stmt@) matches Some((frames, heap, lines, o)) ==> Self::ran(
                old(self),
                final(self),
                frames,
                heap,
                lines,
            ) && Self::ended(r, o),
            old(self).exec_fail_now(fuel as nat, stmt@) matches Some(x) ==> Self::stopped(
                old(self),
                final(self),
                r,
                x,
            ),
        decreases fuel, 0nat, stmt_size(*stmt), 0nat,
    {
        let ghost s0 = *self;
        proof {
            Self::lemma_keeps_refl(self);
        }
        match stmt {
            Stmt::Expression { expression } => {
                match self.eval(expression, fuel) {
                    Ok(_) => Ok(()),
                    Err(e) => Err(e),
                }
            },
            Stmt::Print { expression } => {
                let value = match self.eval(expression, fuel) {
                    Ok(v) => v,
                    Err(e) => {
                        return Err(e);
                    },
                };
                let ghost s1 = *self;
                let text = self.stringify(&value);
                self.output.push(text);
                proof {
                    assert(self.output@.subrange(0, s1.output@.len() as int) =~= s1.output@);
                    Self::lemma_keeps_trans(&s0, &s1, self);
                    if s0.exec_now(fuel as nat, stmt@) is Some {
                        let (f, hp, ls, v) = s0.eval_now(fuel as nat, (**expression)@)->0;
                        let t = shown(v, hp)->0;
                        assert(self.output@[s1.output@.len() as int] == text);
                        assert(self.heap() =~= s1.heap());
                        assert(Self::ran(&s1, self, f, hp, seq![t]));
                        Self::lemma_ran_trans(&s0, &s1, self, f, hp, ls, f, hp, seq![t]);
                        assert(ls + seq![t] =~= ls.push(t));
                    }
                }
                Ok(())
            },
            Stmt::Var { name, initializer } => {
                let value = match &**initializer {
                    Some(e) => match self.eval(e, fuel) {
                        Ok(v) => Some(v),
                        Err(c) => {
                            return Err(c);
                        },
                    },
                    None => None,
                };
                let ghost s1 = *self;
                self.environments.define(self.environment, name.lexeme.clone(), value);
                proof {
                    Self::lemma_keeps_refl(&s1);
                    Self::lemma_keeps_trans(&s0, &s1, self);
                    if s0.exec_now(fuel as nat, stmt@) is Some {
                        Self::lemma_ran_quiet(&s1, self);
                        if initializer.is_some() {
                            {
                                let e = initializer->0;
                                let (f, hp, ls, v) = s0.eval_now(fuel as nat, e@)->0;
                                Self::lemma_ran_trans(
                                    &s0,
                                    &s1,
                                    self,
                                    f,
                                    hp,
                                    ls,
                                    self.environments@,
                                    self.heap(),
                                    Seq::empty(),
                                );
                                assert(ls + Seq::<Seq<char>>::empty() =~= ls);
                            }
                        } else {
                            {
                                Self::lemma_ran_refl(&s0);
                                Self::lemma_ran_trans(
                                    &s0,
                                    &s1,
                                    self,
                                    s0.environments@,
                                    s0.heap(),
                                    Seq::empty(),
                                    self.environments@,
                                    self.heap(),
                                    Seq::empty(),
                                );
                                assert(Seq::<Seq<char>>::empty() + Seq::<Seq<char>>::empty()
                                    =~= Seq::<Seq<char>>::empty());
                            }
                        }
                    }
                }
                Ok(())
            },
            Stmt::Block { statements } => {
                let ghost s1 = *self;
                let frame = Environment::new().with_enclosing(self.environment);
                proof {
                    assert(frame@.values =~= Seq::<(Seq<char>, ValueView<N>)>::empty());
                }
                let env = self.environments.add(frame);
                proof {
                    Self::lemma_keeps_refl(&s1);
                    assert(Self::keeps(&s1, self));
                }
                let ghost s2 = *self;
                proof {
                    assert(s2.heap() =~= s1.heap());
                }
                proof {
                    assert(stmt@->Block_statements =~= stmts_view(statements@));
                }
                let r = self.execute_block(statements, env, fuel);
                proof {
                    Self::lemma_keeps_trans(&s1, &s2, self);
                    if s1.exec_now(fuel as nat, stmt@) is Some {
                        let (frames, heap, lines, o) = s1.exec_now(fuel as nat, stmt@)->0;
                        assert(Self::ran(&s1, self, frames, heap, lines));
                    }
                    if s1.exec_fail_now(fuel as nat, stmt@) is Some {
                        let x = s1.exec_fail_now(fuel as nat, stmt@)->0;
                        assert(Self::ran(&s1, self, x.0, x.1, x.2));
                    }
                }
                r
            },
            Stmt::If { condition, then_branch, else_branch } => {
                let c = match self.eval(condition, fuel) {
                    Ok(v) => v,
                    Err(e) => {
                        return Err(e);
                    },
                };
                let ghost s1 = *self;
                let ghost ok = s0.exec_now(fuel as nat, stmt@) is Some;
                if c.is_truthy() {
                    let r = self.execute(then_branch, fuel);
                    proof {
                        Self::lemma_keeps_trans(&s0, &s1, self);
                        if ok {
                            let (f1, h1, l1, cv) = s0.eval_now(fuel as nat, (**condition)@)->0;
                            let (f2, h2, l2, o) = s1.exec_now(fuel as nat, (**then_branch)@)->0;
                            Self::lemma_ran_trans(&s0, &s1, self, f1, h1, l1, f2, h2, l2);
                        }
                        if s0.eval_now(fuel as nat, (**condition)@) is Some && s1.exec_fail_now(
                            fuel as nat,
                            (**then_branch)@,
                        ) is Some {
                            let (f1, h1, l1, cv) = s0.eval_now(fuel as nat, (**condition)@)->0;
                            let x = s1.exec_fail_now(fuel as nat, (**then_branch)@)->0;
                            Self::lemma_ran_trans(&s0, &s1, self, f1, h1, l1, x.0, x.1, x.2);
                        }
                    }
                    r
                } else {
                    match else_branch {
                        Some(b) => {
                            let r = self.execute(b, fuel);
                            proof {
                                Self::lemma_keeps_trans(&s0, &s1, self);
                                if ok {
                                    let (f1, h1, l1, cv) = s0.eval_now(fuel as nat, (**condition)@)->0;
                                    let (f2, h2, l2, o) = s1.exec_now(fuel as nat, (**b)@)->0;
                                    Self::lemma_ran_trans(&s0, &s1, self, f1, h1, l1, f2, h2, l2);
                                }
                                if s0.eval_now(fuel as nat, (**condition)@) is Some && s1.exec_fail_now(
                                    fuel as nat,
                                    (**b)@,
                                ) is Some {
                                    let (f1, h1, l1, cv) = s0.eval_now(fuel as nat, (**condition)@)->0;
                                    let x = s1.exec_fail_now(fuel as nat, (**b)@)->0;
                                    Self::lemma_ran_trans(&s0, &s1, self, f1, h1, l1, x.0, x.1, x.2);
                                }
                            }
                            r
                        },
                        None => Ok(()),
                    }
                }
            },
            Stmt::While { condition, body } => {
                proof {
                    assert(s0.exec_now(fuel as nat, stmt@) == s0.loop_now(
                        fuel as nat,
                        (**condition)@,
                        (**body)@,
                    ));
                }
                self.run_loop(condition, body, fuel)
            },
            Stmt::Function { name, .. } => {
                let function = Value::Function(
                    Function {
                        declaration: stmt.duplicate(),
                        closure: self.environment,
                        is_initializer: false,
                    },
                );
                self.environments.define(self.environment, name.lexeme.clone(), Some(function));
                proof {
                    Self::lemma_keeps_refl(&s0);
                    assert(Self::keeps(&s0, self));
                    Self::lemma_ran_quiet(&s0, self);
                }
                Ok(())
            },
            Stmt::Return { value, .. } => {
                let v = match value {
                    Some(e) => match self.eval(e, fuel) {
                        Ok(v) => v,
                        Err(c) => {
                            return Err(c);
                        },
                    },
                    None => Value::Nil,
                };
                proof {
                    if value is None {
                        Self::lemma_ran_refl(&s0);
                    }
                }
                Err(RuntimeControl::Return(v))
            },
            Stmt::Class { name, super_class, methods } => {
                let superclass = match super_class {
                    Some(sc) => match self.eval(sc, fuel) {
                        Ok(Value::Class(c)) => Some(c),
                        Ok(_) => {
                            return Err(RuntimeControl::Error(RuntimeError::SuperclassMustBeClass));
                        },
                        Err(c) => {
                            return Err(c);
                        },
                    },
                    None => None,
                };
                let ghost s1 = *self;
                self.environments.define(self.environment, name.lexeme.clone(), None);
                let enclosing = self.environment;
                let mut method_env = self.environment;
                let ghost f1 = self.environments@;
                match &superclass {
                    Some(sc) => {
                        let frame = Environment::new().with_enclosing(self.environment);
                        proof {
                            assert(frame@.values =~= Seq::<(Seq<char>, ValueView<N>)>::empty());
                        }
                        let env = self.environments.add(frame);
                        self.environments.define(
                            env,
                            String::from_str("super"),
                            Some(Value::Class(sc.duplicate())),
                        );
                        method_env = env;
                    },
                    None => {},
                }
                let mut class_methods: Vec<(String, Function)> = Vec::new();
                let mut i: usize = 0;
                let ghost mv = stmts_view(methods@);
                proof {
                    assert(mv.take(0) =~= Seq::<StmtView>::empty());
                    assert(pairs_view(class_methods@) =~= Seq::<(Seq<char>, FunctionView)>::empty());
                }
                while i < methods.len()
                    invariant
                        i <= methods@.len(),
                        mv == stmts_view(methods@),
                        pairs_view(class_methods@) == declared_methods(mv.take(i as int), method_env),
                    decreases methods@.len() - i,
                {
                    proof {
                        assert(mv.take(i + 1).drop_last() =~= mv.take(i as int));
                        assert(mv.take(i + 1).last() == methods@[i as int]@);
                    }
                    match &methods[i] {
                        Stmt::Function { name: mname, .. } => {
                            let is_init = mname.lexeme == String::from_str("init");
                            store_entry(
                                &mut class_methods,
                                mname.lexeme.clone(),
                                Function {
                                    declaration: methods[i].duplicate(),
                                    closure: method_env,
                                    is_initializer: is_init,
                                },
                            );
                        },
                        _ => {},
                    }
                    i = i + 1;
                }
                proof {
                    assert(mv.take(i as int) =~= mv);
                    assert(stmt@->Class_methods =~= mv);
                }
                let boxed = match superclass {
                    Some(c) => Some(Box::new(c)),
                    None => None,
                };
                let class = Value::Class(Class::new(name.lexeme.clone(), boxed, class_methods));
                let ghost f2 = self.environments@;
                proof {
                    lemma_store(s1.environments@[enclosing as int].values, name.lexeme@, ValueView::Nil, name.lexeme@);
                    assert(f2[enclosing as int] == f1[enclosing as int]);
                }
                let r = self.environments.assign(enclosing, name, &class);
                proof {
                    assert(self.output@ == s1.output@);
                    Self::lemma_keeps_refl(&s1);
                    Self::lemma_keeps_trans(&s0, &s1, self);
                    if s0.exec_now(fuel as nat, stmt@) is Some {
                        Self::lemma_ran_quiet(&s1, self);
                        if super_class.is_some() {
                            {
                                let sc = super_class->0;
                                let (fa, ha, la, cv) = s0.eval_now(fuel as nat, sc@)->0;
                                Self::lemma_ran_trans(
                                    &s0,
                                    &s1,
                                    self,
                                    fa,
                                    ha,
                                    la,
                                    self.environments@,
                                    self.heap(),
                                    Seq::empty(),
                                );
                                assert(la + Seq::<Seq<char>>::empty() =~= la);
                            }
                        } else {
                            {
                                Self::lemma_ran_refl(&s0);
                                Self::lemma_ran_trans(
                                    &s0,
                                    &s1,
                                    self,
                                    s0.environments@,
                                    s0.heap(),
                                    Seq::empty(),
                                    self.environments@,
                                    self.heap(),
                                    Seq::empty(),
                                );
                                assert(Seq::<Seq<char>>::empty() + Seq::<Seq<char>>::empty()
                                    =~= Seq::<Seq<char>>::empty());
                            }
                        }
                    }
                }
                match r {
                    Ok(()) => Ok(()),
                    Err(e) => Err(RuntimeControl::Error(e)),
                }
            },
        }
    }
}

} // verus!
