use vstd::prelude::*;

use crate::error::CompiletimeError;
use crate::expression::ExprView;
use crate::resolver::{ClassType, FunctionType, innermost};
use crate::stmt::StmtView;
use crate::token::TokenView;
use crate::value::{lemma_store, lookup, store};

verus! {

// What resolving a program finds, stated as functions from what resolving
// has found so far to what it has found after a construct, or the first
// error in it. Statements and expressions are walked in the order they run.

/// What resolving has found so far: the scopes, innermost last (each maps a
/// name to whether its declaration is complete), the kinds of function and
/// class whose body is being walked, and the depth recorded for each local
/// reference, by id.
#[verifier::ext_equal]
pub struct Resolution {
    pub scopes: Seq<Seq<(Seq<char>, bool)>>,
    pub function: FunctionType,
    pub class: ClassType,
    pub locals: Map<usize, usize>,
}

/// An error that resolving finds.
pub enum ResolveError {
    InitializerError(TokenView),
    AlreadyDeclared(TokenView),
    InheritSelf(TokenView),
    ReturnOutsideFunction,
    ReturnFromInitializer,
    ThisOutsideClass,
    SuperOutsideClass,
    SuperWithoutSuperclass,
}

/// Where resolving a program starts: no scopes (only globals), outside
/// any function and class, nothing recorded.
pub open spec fn start_resolution() -> Resolution {
    Resolution {
        scopes: Seq::empty(),
        function: FunctionType::NoFunction,
        class: ClassType::NoClass,
        locals: Map::empty(),
    }
}

/// The resolution error a compile-time error stands for, where it is one.
pub open spec fn resolve_error_view(e: CompiletimeError) -> Option<ResolveError> {
    match e {
        CompiletimeError::InitializerError(t) => Some(ResolveError::InitializerError(t@)),
        CompiletimeError::AlreadyDeclared(t) => Some(ResolveError::AlreadyDeclared(t@)),
        CompiletimeError::InheritSelf(t) => Some(ResolveError::InheritSelf(t@)),
        CompiletimeError::ReturnOutsideFunction => Some(ResolveError::ReturnOutsideFunction),
        CompiletimeError::ReturnFromInitializer => Some(ResolveError::ReturnFromInitializer),
        CompiletimeError::ThisOutsideClass => Some(ResolveError::ThisOutsideClass),
        CompiletimeError::SuperOutsideClass => Some(ResolveError::SuperOutsideClass),
        CompiletimeError::SuperWithoutSuperclass => Some(ResolveError::SuperWithoutSuperclass),
        _ => None,
    }
}

pub open spec fn with_scopes(r: Resolution, scopes: Seq<Seq<(Seq<char>, bool)>>) -> Resolution {
    Resolution { scopes, function: r.function, class: r.class, locals: r.locals }
}

pub open spec fn with_function(r: Resolution, function: FunctionType) -> Resolution {
    Resolution { scopes: r.scopes, function, class: r.class, locals: r.locals }
}

pub open spec fn with_class(r: Resolution, class: ClassType) -> Resolution {
    Resolution { scopes: r.scopes, function: r.function, class, locals: r.locals }
}

/// A new innermost scope.
pub open spec fn r_begin(r: Resolution) -> Resolution {
    with_scopes(r, r.scopes.push(Seq::empty()))
}

/// The innermost scope left.
pub open spec fn r_end(r: Resolution) -> Resolution {
    if r.scopes.len() > 0 {
        with_scopes(r, r.scopes.drop_last())
    } else {
        r
    }
}

/// `name` declared in the innermost scope, not yet ready; declaring it a
/// second time in that scope is an error. Globals are not tracked.
pub open spec fn r_declare(r: Resolution, name: TokenView) -> Result<Resolution, ResolveError> {
    if r.scopes.len() == 0 {
        Ok(r)
    } else if lookup(r.scopes.last(), name.lexeme) is Some {
        Err(ResolveError::AlreadyDeclared(name))
    } else {
        Ok(
            with_scopes(
                r,
                r.scopes.update(r.scopes.len() - 1, store(r.scopes.last(), name.lexeme, false)),
            ),
        )
    }
}

/// `name` marked ready in the innermost scope.
pub open spec fn r_define(r: Resolution, name: Seq<char>) -> Resolution {
    if r.scopes.len() == 0 {
        r
    } else {
        with_scopes(r, r.scopes.update(r.scopes.len() - 1, store(r.scopes.last(), name, true)))
    }
}

/// The reference with id `id` to `name` recorded with the depth of the
/// innermost scope that declares the name; nothing for a global.
pub open spec fn r_local(r: Resolution, id: usize, name: Seq<char>) -> Resolution {
    match innermost(r.scopes, name) {
        Some(d) => Resolution {
            scopes: r.scopes,
            function: r.function,
            class: r.class,
            locals: r.locals.insert(id, d as usize),
        },
        None => r,
    }
}

/// What resolving an expression finds: each variable, assignment, `this`
/// and `super` recorded, in the order the expression is evaluated. A
/// variable read in its own initializer, `this` outside a class and
/// `super` outside a subclass are errors.
pub open spec fn r_expr(r: Resolution, e: ExprView) -> Result<Resolution, ResolveError>
    decreases e, 0nat,
{
    match e {
        ExprView::Variable { id, name } => if r.scopes.len() > 0 && lookup(
            r.scopes.last(),
            name.lexeme,
        ) == Some(false) {
            Err(ResolveError::InitializerError(name))
        } else {
            Ok(r_local(r, id, name.lexeme))
        },
        ExprView::Assign { id, name, value } => match r_expr(r, *value) {
            Ok(r1) => Ok(r_local(r1, id, name.lexeme)),
            Err(x) => Err(x),
        },
        ExprView::Binary { left, right, .. } => match r_expr(r, *left) {
            Ok(r1) => r_expr(r1, *right),
            Err(x) => Err(x),
        },
        ExprView::Logical { left, right, .. } => match r_expr(r, *left) {
            Ok(r1) => r_expr(r1, *right),
            Err(x) => Err(x),
        },
        ExprView::Call { callee, arguments, .. } => match r_expr(r, *callee) {
            Ok(r1) => r_args(r1, arguments),
            Err(x) => Err(x),
        },
        ExprView::Grouping { expression } => r_expr(r, *expression),
        ExprView::Unary { right, .. } => r_expr(r, *right),
        ExprView::Literal { .. } => Ok(r),
        ExprView::Get { object, .. } => r_expr(r, *object),
        ExprView::SetProperty { object, value, .. } => match r_expr(r, *value) {
            Ok(r1) => r_expr(r1, *object),
            Err(x) => Err(x),
        },
        ExprView::This { id, keyword } => if r.class == ClassType::NoClass {
            Err(ResolveError::ThisOutsideClass)
        } else {
            Ok(r_local(r, id, keyword.lexeme))
        },
        ExprView::Super { id, keyword, .. } => if r.class == ClassType::NoClass {
            Err(ResolveError::SuperOutsideClass)
        } else if r.class == ClassType::Class {
            Err(ResolveError::SuperWithoutSuperclass)
        } else {
            Ok(r_local(r, id, keyword.lexeme))
        },
    }
}

/// What resolving call arguments from left to right finds.
pub open spec fn r_args(r: Resolution, args: Seq<ExprView>) -> Result<Resolution, ResolveError>
    decreases args, 1nat,
{
    if args.len() == 0 {
        Ok(r)
    } else {
        match r_args(r, args.drop_last()) {
            Ok(r1) => r_expr(r1, args.last()),
            Err(x) => Err(x),
        }
    }
}

/// What resolving a statement finds. A block has a scope of its own; a
/// variable is declared before its initializer and ready after it; a
/// function is ready before its body; a class declares `this` around its
/// methods, and `super` around those where it has a superclass. A `return`
/// outside a function, a `return` with a value in an initializer, a class
/// that inherits from itself and a second declaration in one local scope
/// are errors.
pub open spec fn r_stmt(r: Resolution, s: StmtView) -> Result<Resolution, ResolveError>
    decreases s, 1nat,
{
    match s {
        StmtView::Block { statements } => match r_stmts(r_begin(r), statements) {
            Ok(r1) => Ok(r_end(r1)),
            Err(x) => Err(x),
        },
        StmtView::Expression { expression } => r_expr(r, expression),
        StmtView::Print { expression } => r_expr(r, expression),
        StmtView::Var { name, initializer } => match r_declare(r, name) {
            Err(x) => Err(x),
            Ok(r1) => match initializer {
                Some(e) => match r_expr(r1, e) {
                    Ok(r2) => Ok(r_define(r2, name.lexeme)),
                    Err(x) => Err(x),
                },
                None => Ok(r_define(r1, name.lexeme)),
            },
        },
        StmtView::If { condition, then_branch, else_branch } => match r_expr(r, condition) {
            Err(x) => Err(x),
            Ok(r1) => match r_stmt(r1, *then_branch) {
                Err(x) => Err(x),
                Ok(r2) => match else_branch {
                    Some(b) => r_stmt(r2, *b),
                    None => Ok(r2),
                },
            },
        },
        StmtView::While { condition, body } => match r_expr(r, condition) {
            Ok(r1) => r_stmt(r1, *body),
            Err(x) => Err(x),
        },
        StmtView::Function { name, .. } => match r_declare(r, name) {
            Ok(r1) => r_function(r_define(r1, name.lexeme), s, FunctionType::Function),
            Err(x) => Err(x),
        },
        StmtView::Return { value, .. } => if r.function == FunctionType::NoFunction {
            Err(ResolveError::ReturnOutsideFunction)
        } else {
            match value {
                Some(v) => if r.function == FunctionType::Initializer {
                    Err(ResolveError::ReturnFromInitializer)
                } else {
                    r_expr(r, v)
                },
                None => Ok(r),
            }
        },
        StmtView::Class { name, super_class, methods } => match r_declare(
            with_class(r, ClassType::Class),
            name,
        ) {
            Err(x) => Err(x),
            Ok(r1) => {
                let r2 = r_define(r1, name.lexeme);
                let inner = match super_class {
                    Some(sc) => if sc matches ExprView::Variable { name: t, .. } && t.lexeme
                        == name.lexeme {
                        Err(ResolveError::InheritSelf(name))
                    } else {
                        match r_expr(with_class(r2, ClassType::Subclass), sc) {
                            Ok(r3) => Ok(r_define(r_begin(r3), "super"@)),
                            Err(x) => Err(x),
                        }
                    },
                    None => Ok(r2),
                };
                match inner {
                    Err(x) => Err(x),
                    Ok(r4) => class_end(
                        r_methods(r_define(r_begin(r4), "this"@), methods),
                        super_class is Some,
                        r.class,
                    ),
                }
            },
        },
    }
}

/// What resolving a class finds after its methods: the scope of `this`
/// left, and that of `super` where there is a superclass, and the kind of
/// class `enclosing` back.
pub open spec fn class_end(
    methods: Result<Resolution, ResolveError>,
    has_superclass: bool,
    enclosing: ClassType,
) -> Result<Resolution, ResolveError> {
    match methods {
        Err(x) => Err(x),
        Ok(r5) => {
            let r6 = r_end(r5);
            Ok(
                with_class(
                    if has_superclass {
                        r_end(r6)
                    } else {
                        r6
                    },
                    enclosing,
                ),
            )
        },
    }
}

/// What resolving statements in order finds, up to the first error.
pub open spec fn r_stmts(r: Resolution, stmts: Seq<StmtView>) -> Result<Resolution, ResolveError>
    decreases stmts, 2nat,
{
    if stmts.len() == 0 {
        Ok(r)
    } else {
        match r_stmts(r, stmts.drop_last()) {
            Ok(r1) => r_stmt(r1, stmts.last()),
            Err(x) => Err(x),
        }
    }
}

/// The kind of a method: `init` is the initializer.
pub open spec fn method_kind(m: StmtView) -> FunctionType {
    if m matches StmtView::Function { name, .. } && name.lexeme == "init"@ {
        FunctionType::Initializer
    } else {
        FunctionType::Method
    }
}

/// What resolving methods in order finds, up to the first error.
pub open spec fn r_methods(r: Resolution, methods: Seq<StmtView>) -> Result<Resolution, ResolveError>
    decreases methods, 2nat,
{
    if methods.len() == 0 {
        Ok(r)
    } else {
        match r_methods(r, methods.drop_last()) {
            Ok(r1) => r_function(r1, methods.last(), method_kind(methods.last())),
            Err(x) => Err(x),
        }
    }
}

/// What resolving a function of kind `kind` finds: in a new scope its
/// parameters are declared and ready, then its body is resolved.
pub open spec fn r_function(r: Resolution, f: StmtView, kind: FunctionType) -> Result<
    Resolution,
    ResolveError,
>
    decreases f, 0nat,
{
    match f {
        StmtView::Function { params, body, .. } => match r_params(
            r_begin(with_function(r, kind)),
            params,
        ) {
            Err(x) => Err(x),
            Ok(r1) => match r_stmts(r1, body) {
                Err(x) => Err(x),
                Ok(r2) => Ok(with_function(r_end(r2), r.function)),
            },
        },
        _ => Ok(r),
    }
}

/// Parameters declared and ready in order, up to the first one declared
/// twice.
pub open spec fn r_params(r: Resolution, params: Seq<TokenView>) -> Result<Resolution, ResolveError>
    decreases params.len(),
{
    if params.len() == 0 {
        Ok(r)
    } else {
        match r_params(r, params.drop_last()) {
            Ok(r1) => match r_declare(r1, params.last()) {
                Ok(r2) => Ok(r_define(r2, params.last().lexeme)),
                Err(x) => Err(x),
            },
            Err(x) => Err(x),
        }
    }
}

/// Resolving arguments fails where resolving a prefix of them fails, with
/// the same error.
pub proof fn lemma_r_args_prefix(r: Resolution, args: Seq<ExprView>, i: int)
    requires
        0 <= i <= args.len(),
        r_args(r, args.take(i)) is Err,
    ensures
        r_args(r, args) == r_args(r, args.take(i)),
    decreases args.len(),
{
    if i == args.len() {
        assert(args.take(i) =~= args);
    } else {
        assert(args.drop_last().take(i) =~= args.take(i));
        lemma_r_args_prefix(r, args.drop_last(), i);
    }
}

/// Resolving statements fails where resolving a prefix of them fails, with
/// the same error.
pub proof fn lemma_r_stmts_prefix(r: Resolution, stmts: Seq<StmtView>, i: int)
    requires
        0 <= i <= stmts.len(),
        r_stmts(r, stmts.take(i)) is Err,
    ensures
        r_stmts(r, stmts) == r_stmts(r, stmts.take(i)),
    decreases stmts.len(),
{
    if i == stmts.len() {
        assert(stmts.take(i) =~= stmts);
    } else {
        assert(stmts.drop_last().take(i) =~= stmts.take(i));
        lemma_r_stmts_prefix(r, stmts.drop_last(), i);
    }
}

/// Resolving methods fails where resolving a prefix of them fails, with
/// the same error.
pub proof fn lemma_r_methods_prefix(r: Resolution, methods: Seq<StmtView>, i: int)
    requires
        0 <= i <= methods.len(),
        r_methods(r, methods.take(i)) is Err,
    ensures
        r_methods(r, methods) == r_methods(r, methods.take(i)),
    decreases methods.len(),
{
    if i == methods.len() {
        assert(methods.take(i) =~= methods);
    } else {
        assert(methods.drop_last().take(i) =~= methods.take(i));
        lemma_r_methods_prefix(r, methods.drop_last(), i);
    }
}

/// Declaring parameters fails where declaring a prefix of them fails, with
/// the same error.
pub proof fn lemma_r_params_prefix(r: Resolution, params: Seq<TokenView>, i: int)
    requires
        0 <= i <= params.len(),
        r_params(r, params.take(i)) is Err,
    ensures
        r_params(r, params) == r_params(r, params.take(i)),
    decreases params.len(),
{
    if i == params.len() {
        assert(params.take(i) =~= params);
    } else {
        assert(params.drop_last().take(i) =~= params.take(i));
        lemma_r_params_prefix(r, params.drop_last(), i);
    }
}


/// `r2` keeps what `r` found about scopes: as many scopes, every scope but
/// the innermost as it was, every name of the innermost still there, and
/// the same kinds of function and class.
pub open spec fn keeps_scopes(r: Resolution, r2: Resolution) -> bool {
    &&& r2.scopes.len() == r.scopes.len()
    &&& forall|k: int| 0 <= k < r.scopes.len() - 1 ==> #[trigger] r2.scopes[k] == r.scopes[k]
    &&& forall|n: Seq<char>|
        r.scopes.len() > 0 && #[trigger] lookup(r.scopes.last(), n) is Some ==> lookup(
            r2.scopes.last(),
            n,
        ) is Some
    &&& r2.function == r.function
    &&& r2.class == r.class
}

proof fn lemma_keeps_scopes_trans(a: Resolution, b: Resolution, c: Resolution)
    requires
        keeps_scopes(a, b),
        keeps_scopes(b, c),
    ensures
        keeps_scopes(a, c),
{
    assert forall|n: Seq<char>| a.scopes.len() > 0 && #[trigger] lookup(a.scopes.last(), n) is Some
        implies lookup(c.scopes.last(), n) is Some by {
        assert(lookup(b.scopes.last(), n) is Some);
    }
}

proof fn lemma_keeps_scopes_refl(a: Resolution)
    ensures
        keeps_scopes(a, a),
{
}

/// Declaring a name, or marking it ready, keeps the scopes.
proof fn lemma_declare_define_keep(r: Resolution, name: TokenView)
    ensures
        r_declare(r, name) matches Ok(r1) ==> keeps_scopes(r, r1),
        keeps_scopes(r, r_define(r, name.lexeme)),
{
    if r.scopes.len() > 0 {
        assert forall|n: Seq<char>| r.scopes.len() > 0 && #[trigger] lookup(r.scopes.last(), n) is Some
            implies lookup(store(r.scopes.last(), name.lexeme, true), n) is Some by {
            lemma_store(r.scopes.last(), name.lexeme, true, n);
        }
        assert forall|n: Seq<char>| r.scopes.len() > 0 && #[trigger] lookup(r.scopes.last(), n) is Some
            implies lookup(store(r.scopes.last(), name.lexeme, false), n) is Some by {
            lemma_store(r.scopes.last(), name.lexeme, false, n);
        }
    }
}

/// Resolving an expression changes no scope and no kind.
proof fn lemma_r_expr_scopes(r: Resolution, e: ExprView)
    ensures
        r_expr(r, e) matches Ok(r1) ==> r1.scopes == r.scopes && r1.function == r.function
            && r1.class == r.class,
    decreases e, 0nat,
{
    match e {
        ExprView::Assign { value, .. } => lemma_r_expr_scopes(r, *value),
        ExprView::Binary { left, right, .. } => {
            lemma_r_expr_scopes(r, *left);
            if let Ok(r1) = r_expr(r, *left) {
                lemma_r_expr_scopes(r1, *right);
            }
        },
        ExprView::Logical { left, right, .. } => {
            lemma_r_expr_scopes(r, *left);
            if let Ok(r1) = r_expr(r, *left) {
                lemma_r_expr_scopes(r1, *right);
            }
        },
        ExprView::Call { callee, arguments, .. } => {
            lemma_r_expr_scopes(r, *callee);
            if let Ok(r1) = r_expr(r, *callee) {
                lemma_r_args_scopes(r1, arguments);
            }
        },
        ExprView::Grouping { expression } => lemma_r_expr_scopes(r, *expression),
        ExprView::Unary { right, .. } => lemma_r_expr_scopes(r, *right),
        ExprView::Get { object, .. } => lemma_r_expr_scopes(r, *object),
        ExprView::SetProperty { object, value, .. } => {
            lemma_r_expr_scopes(r, *value);
            if let Ok(r1) = r_expr(r, *value) {
                lemma_r_expr_scopes(r1, *object);
            }
        },
        _ => {},
    }
}

proof fn lemma_r_args_scopes(r: Resolution, args: Seq<ExprView>)
    ensures
        r_args(r, args) matches Ok(r1) ==> r1.scopes == r.scopes && r1.function == r.function
            && r1.class == r.class,
    decreases args, 1nat,
{
    if args.len() > 0 {
        lemma_r_args_scopes(r, args.drop_last());
        if let Ok(r1) = r_args(r, args.drop_last()) {
            lemma_r_expr_scopes(r1, args.last());
        }
    }
}

/// Resolving parameters declares them in the innermost scope only.
proof fn lemma_r_params_scopes(r: Resolution, params: Seq<TokenView>)
    ensures
        r_params(r, params) matches Ok(r1) ==> keeps_scopes(r, r1),
    decreases params.len(),
{
    if params.len() == 0 {
        lemma_keeps_scopes_refl(r);
    } else {
        lemma_r_params_scopes(r, params.drop_last());
        if let Ok(r1) = r_params(r, params.drop_last()) {
            lemma_declare_define_keep(r1, params.last());
            if let Ok(r2) = r_declare(r1, params.last()) {
                lemma_declare_define_keep(r2, params.last());
                lemma_keeps_scopes_trans(r, r1, r2);
                lemma_keeps_scopes_trans(r, r2, r_define(r2, params.last().lexeme));
            }
        }
    }
}

/// Leaving a scope entered before a run that kept scopes gives back the
/// scopes from before it was entered.
proof fn lemma_begin_end(r: Resolution, r2: Resolution)
    requires
        keeps_scopes(r_begin(r), r2),
    ensures
        r_end(r2).scopes == r.scopes,
{
    assert(r_end(r2).scopes =~= r.scopes);
}

/// Resolving a function changes no scope and no kind.
proof fn lemma_r_function_scopes(r: Resolution, f: StmtView, kind: FunctionType)
    ensures
        r_function(r, f, kind) matches Ok(r1) ==> r1.scopes == r.scopes && r1.function
            == r.function && r1.class == r.class,
    decreases f, 0nat,
{
    if let StmtView::Function { params, body, .. } = f {
        let r0 = r_begin(with_function(r, kind));
        lemma_r_params_scopes(r0, params);
        if let Ok(r1) = r_params(r0, params) {
            lemma_r_stmts_scopes(r1, body);
            if let Ok(r2) = r_stmts(r1, body) {
                lemma_keeps_scopes_trans(r0, r1, r2);
                lemma_begin_end(with_function(r, kind), r2);
            }
        }
    }
}

proof fn lemma_r_methods_scopes(r: Resolution, methods: Seq<StmtView>)
    ensures
        r_methods(r, methods) matches Ok(r1) ==> r1.scopes == r.scopes && r1.function
            == r.function && r1.class == r.class,
    decreases methods, 2nat,
{
    if methods.len() > 0 {
        lemma_r_methods_scopes(r, methods.drop_last());
        if let Ok(r1) = r_methods(r, methods.drop_last()) {
            lemma_r_function_scopes(r1, methods.last(), method_kind(methods.last()));
        }
    }
}

proof fn lemma_r_stmts_scopes(r: Resolution, stmts: Seq<StmtView>)
    ensures
        r_stmts(r, stmts) matches Ok(r1) ==> keeps_scopes(r, r1),
    decreases stmts, 2nat,
{
    if stmts.len() == 0 {
        lemma_keeps_scopes_refl(r);
    } else {
        lemma_r_stmts_scopes(r, stmts.drop_last());
        if let Ok(r1) = r_stmts(r, stmts.drop_last()) {
            law_resolving_keeps_outer_scopes(r1, stmts.last());
            if let Ok(r2) = r_stmt(r1, stmts.last()) {
                lemma_keeps_scopes_trans(r, r1, r2);
            }
        }
    }
}

/// Resolving a class declaration keeps the scopes around it.
proof fn lemma_class_keeps_scopes(r: Resolution, s: StmtView)
    requires
        s is Class,
    ensures
        r_stmt(r, s) matches Ok(r1) ==> keeps_scopes(r, r1),
    decreases s, 0nat,
{
    let name = s->Class_name;
    let super_class = s->Class_super_class;
    let methods = s->Class_methods;
    let rc = with_class(r, ClassType::Class);
    lemma_declare_define_keep(rc, name);
    if let Ok(r1) = r_declare(rc, name) {
        let r2 = r_define(r1, name.lexeme);
        lemma_declare_define_keep(r1, name);
        let inner = match super_class {
            Some(sc) => if sc matches ExprView::Variable { name: t, .. } && t.lexeme
                == name.lexeme {
                Err(ResolveError::InheritSelf(name))
            } else {
                match r_expr(with_class(r2, ClassType::Subclass), sc) {
                    Ok(r3) => Ok(r_define(r_begin(r3), "super"@)),
                    Err(x) => Err(x),
                }
            },
            None => Ok(r2),
        };
        if let Some(sc) = super_class {
            lemma_r_expr_scopes(with_class(r2, ClassType::Subclass), sc);
        }
        if let Ok(r4) = inner {
            let r5 = r_define(r_begin(r4), "this"@);
            lemma_r_methods_scopes(r5, methods);
            if let Ok(r6) = r_methods(r5, methods) {
                assert(r_end(r6).scopes =~= r4.scopes);
                if super_class is Some {
                    let r3 = r_expr(with_class(r2, ClassType::Subclass), super_class->0)->Ok_0;
                    assert(r4.scopes.drop_last() =~= r3.scopes);
                    assert(r_end(r_end(r6)).scopes =~= r2.scopes);
                }
                lemma_keeps_scopes_trans(rc, r1, r2);
                assert forall|n: Seq<char>| r.scopes.len() > 0 && #[trigger] lookup(
                    r.scopes.last(),
                    n,
                ) is Some implies lookup(r2.scopes.last(), n) is Some by {
                    assert(lookup(rc.scopes.last(), n) is Some);
                }
            }
        }
    }
}

/// Resolving a statement keeps the scopes around it: as many scopes as
/// before, every scope but the innermost unchanged, every name of the
/// innermost still declared, and the kinds of function and class as they
/// were. Only the innermost scope can gain names.
pub proof fn law_resolving_keeps_outer_scopes(r: Resolution, s: StmtView)
    ensures
        r_stmt(r, s) matches Ok(r1) ==> keeps_scopes(r, r1),
    decreases s, 1nat,
{
    match s {
        StmtView::Block { statements } => {
            lemma_r_stmts_scopes(r_begin(r), statements);
            if let Ok(r1) = r_stmts(r_begin(r), statements) {
                lemma_begin_end(r, r1);
                assert(r_end(r1).scopes =~= r.scopes);
            }
        },
        StmtView::Expression { expression } => lemma_r_expr_scopes(r, expression),
        StmtView::Print { expression } => lemma_r_expr_scopes(r, expression),
        StmtView::Var { name, initializer } => {
            lemma_declare_define_keep(r, name);
            if let Ok(r1) = r_declare(r, name) {
                match initializer {
                    Some(e) => {
                        lemma_r_expr_scopes(r1, e);
                        if let Ok(r2) = r_expr(r1, e) {
                            lemma_declare_define_keep(r2, name);
                            lemma_keeps_scopes_trans(r, r1, r2);
                            lemma_keeps_scopes_trans(r, r2, r_define(r2, name.lexeme));
                        }
                    },
                    None => {
                        lemma_declare_define_keep(r1, name);
                        lemma_keeps_scopes_trans(r, r1, r_define(r1, name.lexeme));
                    },
                }
            }
        },
        StmtView::If { condition, then_branch, else_branch } => {
            lemma_r_expr_scopes(r, condition);
            if let Ok(r1) = r_expr(r, condition) {
                law_resolving_keeps_outer_scopes(r1, *then_branch);
                if let Ok(r2) = r_stmt(r1, *then_branch) {
                    lemma_keeps_scopes_trans(r, r1, r2);
                    if let Some(b) = else_branch {
                        law_resolving_keeps_outer_scopes(r2, *b);
                        if let Ok(r3) = r_stmt(r2, *b) {
                            lemma_keeps_scopes_trans(r, r2, r3);
                        }
                    }
                }
            }
        },
        StmtView::While { condition, body } => {
            lemma_r_expr_scopes(r, condition);
            if let Ok(r1) = r_expr(r, condition) {
                law_resolving_keeps_outer_scopes(r1, *body);
                if let Ok(r2) = r_stmt(r1, *body) {
                    lemma_keeps_scopes_trans(r, r1, r2);
                }
            }
        },
        StmtView::Function { name, .. } => {
            lemma_declare_define_keep(r, name);
            if let Ok(r1) = r_declare(r, name) {
                let r2 = r_define(r1, name.lexeme);
                lemma_declare_define_keep(r1, name);
                lemma_keeps_scopes_trans(r, r1, r2);
                lemma_r_function_scopes(r2, s, FunctionType::Function);
            }
        },
        StmtView::Return { value, .. } => {
            if let Some(v) = value {
                lemma_r_expr_scopes(r, v);
            }
        },
        StmtView::Class { .. } => lemma_class_keeps_scopes(r, s),
    }
}


/// An `if` resolves its condition, then its branch, then its `else` branch:
/// resolving it with an `else` branch is resolving it without one and then
/// the `else` branch. So every reference in either branch is recorded, and
/// an error in either is reported.
pub proof fn law_if_resolves_both_branches(
    r: Resolution,
    condition: ExprView,
    then_branch: StmtView,
    else_branch: StmtView,
)
    ensures
        r_stmt(
            r,
            StmtView::If {
                condition,
                then_branch: Box::new(then_branch),
                else_branch: Some(Box::new(else_branch)),
            },
        ) == match r_stmt(
            r,
            StmtView::If { condition, then_branch: Box::new(then_branch), else_branch: None },
        ) {
            Ok(r2) => r_stmt(r2, else_branch),
            Err(x) => Err(x),
        },
        r_stmt(
            r,
            StmtView::If { condition, then_branch: Box::new(then_branch), else_branch: None },
        ) == match r_expr(r, condition) {
            Ok(r1) => r_stmt(r1, then_branch),
            Err(x) => Err(x),
        },
{
}

/// A `while` loop resolves its condition, then its body.
pub proof fn law_while_resolves_condition_and_body(
    r: Resolution,
    condition: ExprView,
    body: StmtView,
)
    ensures
        r_stmt(r, StmtView::While { condition, body: Box::new(body) }) == match r_expr(
            r,
            condition,
        ) {
            Ok(r1) => r_stmt(r1, body),
            Err(x) => Err(x),
        },
{
}

/// Both operands of a binary or logical operator are resolved, the left one
/// first.
pub proof fn law_operands_resolve_left_to_right(
    r: Resolution,
    left: ExprView,
    operator: TokenView,
    right: ExprView,
)
    ensures
        r_expr(r, ExprView::Binary { left: Box::new(left), operator, right: Box::new(right) })
            == match r_expr(r, left) {
            Ok(r1) => r_expr(r1, right),
            Err(x) => Err(x),
        },
        r_expr(r, ExprView::Logical { left: Box::new(left), operator, right: Box::new(right) })
            == match r_expr(r, left) {
            Ok(r1) => r_expr(r1, right),
            Err(x) => Err(x),
        },
{
}

/// A reference to a variable declared in a local scope is recorded with the
/// number of scopes between it and the innermost scope that declares the
/// name; a reference to a global records nothing.
pub proof fn law_reference_records_depth(r: Resolution, id: usize, name: TokenView)
    ensures
        r_expr(r, ExprView::Variable { id, name }) matches Ok(r1) ==> match innermost(
            r.scopes,
            name.lexeme,
        ) {
            Some(d) => r1.locals == r.locals.insert(id, d as usize),
            None => r1.locals == r.locals,
        },
{
}

} // verus!
