use vstd::prelude::*;

use crate::error::CompiletimeError;
use crate::expression::{Expr, expr_id, expr_size, expr_view, lemma_args_size};
use crate::interpreter::Interpreter;
use crate::parser::stmts_view;
use crate::resolution::{
    Resolution, ResolveError, r_args, r_begin, r_declare, r_define, r_end, r_expr, r_function,
    r_local, r_methods, r_params, r_stmt, r_stmts, resolve_error_view, method_kind, with_class,
    with_function, lemma_r_args_prefix, lemma_r_stmts_prefix, lemma_r_methods_prefix,
    lemma_r_params_prefix, class_end,
};
use crate::expression::ExprView;
use crate::stmt::{Stmt, StmtView, lemma_stmts_size, stmt_size, stmts_size, tokens_seq_view};
use crate::token::{Token, TokenView};
use crate::value::{LoxNumber, find_entry, lookup, pairs_view, store, store_entry};

verus! {

broadcast use vstd::std_specs::vec::group_vec_axioms;

/// The kind of function whose body is being resolved.
#[derive(Clone, Copy, Debug, PartialEq, Eq, Structural)]
pub enum FunctionType {
    NoFunction,
    Function,
    Initializer,
    Method,
}

/// The kind of class whose body is being resolved.
#[derive(Clone, Copy, Debug, PartialEq, Eq, Structural)]
pub enum ClassType {
    NoClass,
    Class,
    Subclass,
}

/// How many scopes out from the innermost one the nearest scope that
/// declares `name` lies.
pub open spec fn innermost(scopes: Seq<Seq<(Seq<char>, bool)>>, name: Seq<char>) -> Option<nat>
    decreases scopes.len(),
{
    if scopes.len() == 0 {
        None
    } else if lookup(scopes.last(), name) is Some {
        Some(0)
    } else {
        match innermost(scopes.drop_last(), name) {
            Some(d) => Some(d + 1),
            None => None,
        }
    }
}

pub proof fn lemma_innermost_take(scopes: Seq<Seq<(Seq<char>, bool)>>, name: Seq<char>, i: int)
    requires
        0 <= i <= scopes.len(),
        forall|k: int| i <= k < scopes.len() ==> lookup(#[trigger] scopes[k], name) is None,
    ensures
        innermost(scopes, name) == match innermost(scopes.take(i), name) {
            Some(d) => Some(d + (scopes.len() - i) as nat),
            None => None::<nat>,
        },
    decreases scopes.len() - i,
{
    if i < scopes.len() {
        assert(scopes.drop_last().take(i) =~= scopes.take(i));
        lemma_innermost_take(scopes.drop_last(), name, i);
    } else {
        assert(scopes.take(i) =~= scopes);
    }
}

/// A resolver's result read as the expected one: where resolving finds
/// `Ok(x)`, it succeeded and what it found is `x`; where it finds an error,
/// it failed with that error.
pub open spec fn resolved(
    expected: Result<Resolution, ResolveError>,
    r: Result<(), CompiletimeError>,
    after: Resolution,
) -> bool {
    match expected {
        Ok(x) => r is Ok && after == x,
        Err(e) => r matches Err(c) && resolve_error_view(c) == Some(e),
    }
}

/// Walks a program before it runs: finds the scope each local variable
/// reference resolves to and records it in the interpreter, and rejects
/// misplaced `return`, `this` and `super`, variables read in their own
/// initializer and variables declared twice in one scope.
pub struct Resolver {
    scopes: Vec<Vec<(String, bool)>>,
    current_function: FunctionType,
    current_class: ClassType,
}

impl Resolver {
    /// The scopes, innermost last: each maps a name to whether its
    /// declaration is complete.
    pub closed spec fn scopes_view(&self) -> Seq<Seq<(Seq<char>, bool)>> {
        Seq::new(self.scopes@.len(), |i: int| pairs_view(self.scopes@[i]@))
    }

    /// What resolving has found so far, with the recorded depths `locals`.
    pub open spec fn resolution(&self, locals: Map<usize, usize>) -> Resolution {
        Resolution {
            scopes: self.scopes_view(),
            function: self.function_type(),
            class: self.class_type(),
            locals,
        }
    }

    pub closed spec fn function_type(&self) -> FunctionType {
        self.current_function
    }

    pub closed spec fn class_type(&self) -> ClassType {
        self.current_class
    }

    pub fn new() -> (r: Resolver)
        ensures
            forall|l: Map<usize, usize>|
                #[trigger] r.resolution(l) == (Resolution {
                    scopes: Seq::empty(),
                    function: FunctionType::NoFunction,
                    class: ClassType::NoClass,
                    locals: l,
                }),
            r.scopes_view().len() == 0,
            r.function_type() == FunctionType::NoFunction,
            r.class_type() == ClassType::NoClass,
    {
        Resolver { scopes: Vec::new(), current_function: FunctionType::NoFunction, current_class: ClassType::NoClass }
    }

    /// Resolves statements in order, stopping at the first error.
    pub fn resolve_statements<N: LoxNumber>(
        &mut self,
        interpreter: &mut Interpreter<N>,
        statements: &Vec<Stmt>,
    ) -> (r: Result<(), CompiletimeError>)
        requires
            old(interpreter).wf(),
        ensures
            final(interpreter).wf(),
            Interpreter::same_program_state(old(interpreter), final(interpreter)),
            r is Ok ==> final(self).scopes_view().len() == old(self).scopes_view().len(),
            r is Ok ==> final(self).function_type() == old(self).function_type()
                && final(self).class_type() == old(self).class_type(),
            resolved(r_stmts(old(self).resolution(old(interpreter).locals_spec()), stmts_view(statements@)), r, final(self).resolution(final(interpreter).locals_spec())),
        decreases stmts_size(statements@), 2nat,
    {
        let mut i: usize = 0;
        let ghost sv = stmts_view(statements@);
        let ghost r0 = self.resolution(interpreter.locals_spec());
        proof {
            assert forall|j: int| 0 <= j < statements@.len() implies stmt_size(statements@[j])
                < stmts_size(statements@) by {
                lemma_stmts_size(statements@, j);
            }
            assert(sv.take(0) =~= Seq::<StmtView>::empty());
        }
        while i < statements.len()
            invariant
                sv == stmts_view(statements@),
                r0 == old(self).resolution(old(interpreter).locals_spec()),
                r_stmts(r0, sv.take(i as int)) == Ok::<Resolution, ResolveError>(
                    self.resolution(interpreter.locals_spec()),
                ),
                interpreter.wf(),
                Interpreter::same_program_state(old(interpreter), interpreter),
                self.scopes_view().len() == old(self).scopes_view().len(),
                self.current_function == old(self).current_function,
                self.current_class == old(self).current_class,
                i <= statements@.len(),
                forall|j: int|
                    0 <= j < statements@.len() ==> stmt_size(statements@[j]) < stmts_size(
                        statements@,
                    ),
            decreases statements@.len() - i,
        {
            proof {
                assert(sv.take(i + 1).drop_last() =~= sv.take(i as int));
                assert(sv.take(i + 1).last() == statements@[i as int]@);
            }
            match self.resolve_statement(interpreter, &statements[i]) {
                Ok(()) => {},
                Err(e) => {
                    proof {
                        lemma_r_stmts_prefix(r0, sv, i + 1);
                    }
                    return Err(e);
                },
            }
            i = i + 1;
        }
        proof {
            assert(sv.take(i as int) =~= sv);
        }
        Ok(())
    }

    /// Resolves statements in a new scope.
    pub fn resolve_block<N: LoxNumber>(
        &mut self,
        interpreter: &mut Interpreter<N>,
        block: &Vec<Stmt>,
    ) -> (r: Result<(), CompiletimeError>)
        requires
            old(interpreter).wf(),
        ensures
            final(interpreter).wf(),
            Interpreter::same_program_state(old(interpreter), final(interpreter)),
            r is Ok ==> final(self).scopes_view().len() == old(self).scopes_view().len(),
            r is Ok ==> final(self).function_type() == old(self).function_type()
                && final(self).class_type() == old(self).class_type(),
            resolved(r_stmt(old(self).resolution(old(interpreter).locals_spec()), StmtView::Block { statements: stmts_view(block@) }), r, final(self).resolution(final(interpreter).locals_spec())),
        decreases stmts_size(block@), 3nat,
    {
        self.begin_scope();
        let result = self.resolve_statements(interpreter, block);
        self.end_scope();
        result
    }

    #[verifier::spinoff_prover]
    #[verifier::rlimit(40)]
    fn resolve_statement<N: LoxNumber>(&mut self, interpreter: &mut Interpreter<N>, stmt: &Stmt) -> (r:
        Result<(), CompiletimeError>)
        requires
            old(interpreter).wf(),
        ensures
            final(interpreter).wf(),
            Interpreter::same_program_state(old(interpreter), final(interpreter)),
            r is Ok ==> final(self).scopes_view().len() == old(self).scopes_view().len(),
            r is Ok ==> final(self).function_type() == old(self).function_type()
                && final(self).class_type() == old(self).class_type(),
            resolved(r_stmt(old(self).resolution(old(interpreter).locals_spec()), (*stmt)@), r, final(self).resolution(final(interpreter).locals_spec())),
        decreases stmt_size(*stmt), 1nat,
    {
        let ghost l0 = interpreter.locals_spec();
        let ghost r0 = self.resolution(l0);
        match stmt {
            Stmt::Block { statements } => {
                proof {
                    assert(((*stmt)@)->Block_statements =~= stmts_view(statements@));
                }
                self.resolve_block(interpreter, statements)
            },
            Stmt::Expression { expression } => self.resolve_expression(interpreter, expression),
            Stmt::Print { expression } => self.resolve_expression(interpreter, expression),
            Stmt::Var { name, initializer } => {
                self.declare(name)?;
                let ghost rb = self.resolution(l0);
                assert(r_declare(r0, name@) == Ok::<Resolution, ResolveError>(rb));
                match &**initializer {
                    Some(init) => {
                        self.resolve_expression(interpreter, init)?;
                    },
                    None => {},
                }
                self.define(name);
                Ok(())
            },
            Stmt::If { condition, then_branch, else_branch } => {
                self.resolve_expression(interpreter, condition)?;
                self.resolve_statement(interpreter, then_branch)?;
                match else_branch {
                    Some(b) => {
                        self.resolve_statement(interpreter, b)?;
                    },
                    None => {},
                }
                Ok(())
            },
            Stmt::While { condition, body } => {
                self.resolve_expression(interpreter, condition)?;
                self.resolve_statement(interpreter, body)
            },
            Stmt::Function { name, .. } => {
                self.declare(name)?;
                let ghost rb = self.resolution(l0);
                assert(r_declare(r0, name@) == Ok::<Resolution, ResolveError>(rb));
                self.define(name);
                assert(self.resolution(l0) == r_define(rb, name@.lexeme));
                self.resolve_function(interpreter, stmt, FunctionType::Function)
            },
            Stmt::Return { value, .. } => {
                if self.current_function == FunctionType::NoFunction {
                    return Err(CompiletimeError::ReturnOutsideFunction);
                }
                match value {
                    Some(v) => {
                        if self.current_function == FunctionType::Initializer {
                            return Err(CompiletimeError::ReturnFromInitializer);
                        }
                        self.resolve_expression(interpreter, v)?;
                    },
                    None => {},
                }
                Ok(())
            },
            Stmt::Class { .. } => self.resolve_class(interpreter, stmt),
        }
    }

    /// Resolves a class declaration: its name, its superclass, and its
    /// methods with `this` (and `super`) in scope.
    #[verifier::spinoff_prover]
    #[verifier::rlimit(40)]
    fn resolve_class<N: LoxNumber>(&mut self, interpreter: &mut Interpreter<N>, stmt: &Stmt) -> (r:
        Result<(), CompiletimeError>)
        requires
            old(interpreter).wf(),
            *stmt is Class,
        ensures
            final(interpreter).wf(),
            Interpreter::same_program_state(old(interpreter), final(interpreter)),
            r is Ok ==> final(self).scopes_view().len() == old(self).scopes_view().len(),
            r is Ok ==> final(self).function_type() == old(self).function_type()
                && final(self).class_type() == old(self).class_type(),
            resolved(r_stmt(old(self).resolution(old(interpreter).locals_spec()), (*stmt)@), r, final(self).resolution(final(interpreter).locals_spec())),
        decreases stmt_size(*stmt), 0nat,
    {
        match stmt {
            Stmt::Class { name, super_class, methods } => {
                let ghost mv = stmts_view(methods@);
                proof {
                    assert((*stmt)@ matches StmtView::Class { methods: m, .. } && m =~= mv);
                }
                let ghost l0 = interpreter.locals_spec();
                let ghost r0 = self.resolution(l0);
                let ghost sup_v = match super_class {
                    Some(e) => Some(e@),
                    None => None,
                };
                proof {
                    assert((*stmt)@ == StmtView::Class { name: name@, super_class: sup_v, methods: mv });
                }
                let enclosing_class = self.current_class;
                self.current_class = ClassType::Class;
                let ghost ra = self.resolution(l0);
                assert(ra == with_class(r0, ClassType::Class));
                self.declare(name)?;
                let ghost rb = self.resolution(l0);
                assert(r_declare(ra, name@) == Ok::<Resolution, ResolveError>(rb));
                self.define(name);
                let ghost rc = self.resolution(l0);
                assert(rc == r_define(rb, name@.lexeme));
                match super_class {
                    Some(sc) => {
                        match sc.as_superclass() {
                            Some(token) => {
                                if token.lexeme == name.lexeme {
                                    proof {
                                        assert(token@.lexeme == name@.lexeme);
                                    }
                                    return Err(CompiletimeError::InheritSelf(name.duplicate()));
                                }
                            },
                            None => {},
                        }
                        proof {
                            assert(!(sc@ matches ExprView::Variable { name: t, .. } && t.lexeme
                                == name@.lexeme));
                        }
                        self.current_class = ClassType::Subclass;
                        assert(self.resolution(l0) == with_class(rc, ClassType::Subclass));
                        match self.resolve_expression(interpreter, sc) {
                            Ok(()) => {},
                            Err(e) => {
                                return Err(e);
                            },
                        }
                        let ghost r3 = self.resolution(interpreter.locals_spec());
                        self.begin_scope();
                        self.put_in_last_scope(String::from_str("super"));
                        assert(self.resolution(interpreter.locals_spec()) == r_define(
                            r_begin(r3),
                            "super"@,
                        ));
                    },
                    None => {},
                }
                let ghost r4 = self.resolution(interpreter.locals_spec());
                self.begin_scope();
                self.put_in_last_scope(String::from_str("this"));
                assert(self.resolution(interpreter.locals_spec()) == r_define(r_begin(r4), "this"@));
                let ghost depth = self.scopes@.len();
                let ghost cls = self.current_class;
                let ghost rm = self.resolution(interpreter.locals_spec());
                proof {
                    assert forall|j: int| 0 <= j < methods@.len() implies stmt_size(methods@[j])
                        < stmt_size(*stmt) by {
                        lemma_stmts_size(methods@, j);
                    }
                    assert(r_stmt(old(self).resolution(old(interpreter).locals_spec()), (*stmt)@) == class_end(
                        r_methods(rm, mv),
                        super_class is Some,
                        enclosing_class,
                    ));
                    assert(mv.take(0) =~= Seq::<StmtView>::empty());
                }
                let mut i: usize = 0;
                while i < methods.len()
                    invariant
                        interpreter.wf(),
                        Interpreter::same_program_state(old(interpreter), interpreter),
                        self.scopes@.len() == depth,
                        self.current_class == cls,
                        self.current_function == old(self).current_function,
                        i <= methods@.len(),
                        forall|j: int|
                            0 <= j < methods@.len() ==> stmt_size(methods@[j]) < stmt_size(
                                *stmt,
                            ),
                        mv == stmts_view(methods@),
                        r_stmt(old(self).resolution(old(interpreter).locals_spec()), (*stmt)@) == class_end(
                            r_methods(rm, mv),
                            super_class is Some,
                            enclosing_class,
                        ),
                        r_methods(rm, mv.take(i as int)) == Ok::<Resolution, ResolveError>(
                            self.resolution(interpreter.locals_spec()),
                        ),
                    decreases methods@.len() - i,
                {
                    proof {
                        assert(mv.take(i + 1).drop_last() =~= mv.take(i as int));
                        assert(mv.take(i + 1).last() == methods@[i as int]@);
                    }
                    let declaration = match &methods[i] {
                        Stmt::Function { name: mname, .. } => {
                            if mname.lexeme == String::from_str("init") {
                                FunctionType::Initializer
                            } else {
                                FunctionType::Method
                            }
                        },
                        _ => FunctionType::Method,
                    };
                    assert(declaration == method_kind(methods@[i as int]@));
                    match self.resolve_function(interpreter, &methods[i], declaration) {
                        Ok(()) => {},
                        Err(e) => {
                            proof {
                                lemma_r_methods_prefix(rm, mv, i + 1);
                            }
                            return Err(e);
                        },
                    }
                    i = i + 1;
                }
                proof {
                    assert(mv.take(i as int) =~= mv);
                }
                self.end_scope();
                if super_class.is_some() {
                    self.end_scope();
                }
                self.current_class = enclosing_class;
                Ok(())
            },
            _ => Ok(()),
        }
    }

    fn resolve_expression<N: LoxNumber>(&mut self, interpreter: &mut Interpreter<N>, expr: &Expr) -> (r:
        Result<(), CompiletimeError>)
        requires
            old(interpreter).wf(),
        ensures
            final(interpreter).wf(),
            Interpreter::same_program_state(old(interpreter), final(interpreter)),
            final(self).scopes_view() == old(self).scopes_view(),
            final(self).function_type() == old(self).function_type(),
            final(self).class_type() == old(self).class_type(),
            resolved(
                r_expr(old(self).resolution(old(interpreter).locals_spec()), (*expr)@),
                r,
                final(self).resolution(final(interpreter).locals_spec()),
            ),
        decreases expr_size(*expr), 1nat,
    {
        match expr {
            Expr::Variable { name, .. } => {
                if self.scopes.len() > 0 {
                    let last = self.scopes.len() - 1;
                    proof {
                        assert(self.scopes_view().last() == pairs_view(self.scopes@[last as int]@));
                    }
                    match find_entry(&self.scopes[last], &name.lexeme) {
                        Some(k) => {
                            if !self.scopes[last][k].1 {
                                proof {
                                    assert(self.scopes@[last as int]@[k as int].1@ == false);
                                    assert(lookup(self.scopes_view().last(), name.lexeme@) == Some(
                                        false,
                                    ));
                                }
                                return Err(CompiletimeError::InitializerError(name.duplicate()));
                            }
                        },
                        None => {},
                    }
                }
                self.resolve_local(interpreter, expr, name);
                Ok(())
            },
            Expr::Assign { name, value, .. } => {
                self.resolve_expression(interpreter, value)?;
                self.resolve_local(interpreter, expr, name);
                Ok(())
            },
            Expr::Binary { left, right, .. } => {
                self.resolve_expression(interpreter, left)?;
                self.resolve_expression(interpreter, right)
            },
            Expr::Logical { left, right, .. } => {
                self.resolve_expression(interpreter, left)?;
                self.resolve_expression(interpreter, right)
            },
            Expr::Call { callee, arguments, .. } => {
                self.resolve_expression(interpreter, callee)?;
                let ghost r1 = self.resolution(interpreter.locals_spec());
                let ghost av = Seq::new(arguments@.len(), |j: int| expr_view(*arguments@[j]));
                proof {
                    assert((*expr)@ matches ExprView::Call { arguments: a, .. } && a =~= av);
                    assert(av.take(0) =~= Seq::<ExprView>::empty());
                }
                proof {
                    assert forall|j: int| 0 <= j < arguments@.len() implies expr_size(
                        *arguments@[j],
                    ) < expr_size(*expr) by {
                        lemma_args_size(arguments@, j);
                    }
                }
                let mut i: usize = 0;
                while i < arguments.len()
                    invariant
                        interpreter.wf(),
                        Interpreter::same_program_state(old(interpreter), interpreter),
                        self.scopes_view() == old(self).scopes_view(),
                        self.current_function == old(self).current_function,
                        self.current_class == old(self).current_class,
                        i <= arguments@.len(),
                        forall|j: int|
                            0 <= j < arguments@.len() ==> expr_size(*arguments@[j]) < expr_size(
                                *expr,
                            ),
                        av == Seq::new(arguments@.len(), |j: int| expr_view(*arguments@[j])),
                        r_expr(old(self).resolution(old(interpreter).locals_spec()), (*expr)@)
                            == r_args(r1, av),
                        r_args(r1, av.take(i as int)) == Ok::<Resolution, ResolveError>(
                            self.resolution(interpreter.locals_spec()),
                        ),
                    decreases arguments@.len() - i,
                {
                    proof {
                        assert(av.take(i + 1).drop_last() =~= av.take(i as int));
                        assert(av.take(i + 1).last() == av[i as int]);
                    }
                    match self.resolve_expression(interpreter, &arguments[i]) {
                        Ok(()) => {},
                        Err(e) => {
                            proof {
                                lemma_r_args_prefix(r1, av, i + 1);
                            }
                            return Err(e);
                        },
                    }
                    i = i + 1;
                }
                proof {
                    assert(av.take(i as int) =~= av);
                }
                Ok(())
            },
            Expr::Grouping { expression } => self.resolve_expression(interpreter, expression),
            Expr::Unary { right, .. } => self.resolve_expression(interpreter, right),
            Expr::Literal { .. } => Ok(()),
            Expr::Get { object, .. } => self.resolve_expression(interpreter, object),
            Expr::SetProperty { object, value, .. } => {
                self.resolve_expression(interpreter, value)?;
                self.resolve_expression(interpreter, object)
            },
            Expr::This { keyword, .. } => {
                if self.current_class == ClassType::NoClass {
                    return Err(CompiletimeError::ThisOutsideClass);
                }
                self.resolve_local(interpreter, expr, keyword);
                Ok(())
            },
            Expr::Super { keyword, .. } => {
                if self.current_class == ClassType::NoClass {
                    return Err(CompiletimeError::SuperOutsideClass);
                }
                if self.current_class == ClassType::Class {
                    return Err(CompiletimeError::SuperWithoutSuperclass);
                }
                self.resolve_local(interpreter, expr, keyword);
                Ok(())
            },
        }
    }

    /// Resolves a function's parameters and body in a new scope.
    #[verifier::spinoff_prover]
    #[verifier::rlimit(40)]
    fn resolve_function<N: LoxNumber>(
        &mut self,
        interpreter: &mut Interpreter<N>,
        function: &Stmt,
        function_type: FunctionType,
    ) -> (r: Result<(), CompiletimeError>)
        requires
            old(interpreter).wf(),
        ensures
            final(interpreter).wf(),
            Interpreter::same_program_state(old(interpreter), final(interpreter)),
            r is Ok ==> final(self).scopes_view().len() == old(self).scopes_view().len(),
            final(self).function_type() == old(self).function_type(),
            r is Ok ==> final(self).class_type() == old(self).class_type(),
            resolved(r_function(old(self).resolution(old(interpreter).locals_spec()), (*function)@, function_type), r, final(self).resolution(final(interpreter).locals_spec())),
        decreases stmt_size(*function), 0nat,
    {
        let ghost l0 = interpreter.locals_spec();
        let ghost r0 = self.resolution(l0);
        let enclosing_function = self.current_function;
        self.current_function = function_type;
        let result = match function {
            Stmt::Function { params, body, .. } => {
                self.begin_scope();
                let ghost depth = self.scopes@.len();
                let ghost rp = self.resolution(l0);
                let ghost pv = tokens_seq_view(params@);
                proof {
                    assert(rp == r_begin(with_function(r0, function_type)));
                    assert(pv.take(0) =~= Seq::<TokenView>::empty());
                    assert(((*function)@)->Function_body =~= stmts_view(body@));
                }
                let mut i: usize = 0;
                let mut failed: Option<CompiletimeError> = None;
                while i < params.len()
                    invariant_except_break
                        failed is None,
                        r_params(rp, pv.take(i as int)) == Ok::<Resolution, ResolveError>(
                            self.resolution(l0),
                        ),
                    invariant
                        self.scopes@.len() == depth,
                        depth > 0,
                        self.current_class == old(self).current_class,
                        self.current_function == function_type,
                        i <= params@.len(),
                        pv == tokens_seq_view(params@),
                    ensures
                        self.scopes@.len() == depth,
                        self.current_class == old(self).current_class,
                        self.current_function == function_type,
                        match failed {
                            None => i == params@.len() && r_params(rp, pv.take(i as int)) == Ok::<
                                Resolution,
                                ResolveError,
                            >(self.resolution(l0)),
                            Some(e) => r_params(rp, pv) matches Err(x) && resolve_error_view(e)
                                == Some(x),
                        },
                    decreases params@.len() - i,
                {
                    proof {
                        assert(pv.take(i + 1).drop_last() =~= pv.take(i as int));
                        assert(pv.take(i + 1).last() == params@[i as int]@);
                    }
                    let ghost ri = self.resolution(l0);
                    match self.declare(&params[i]) {
                        Ok(()) => {},
                        Err(e) => {
                            proof {
                                assert(r_declare(ri, params@[i as int]@) is Err);
                                lemma_r_params_prefix(rp, pv, i + 1);
                            }
                            failed = Some(e);
                            break;
                        },
                    }
                    let ghost rd = self.resolution(l0);
                    self.define(&params[i]);
                    proof {
                        assert(self.resolution(l0) == r_define(rd, params@[i as int]@.lexeme));
                    }
                    i = i + 1;
                }
                proof {
                    if failed is None {
                        assert(pv.take(i as int) =~= pv);
                    }
                }
                let result = match failed {
                    Some(e) => Err(e),
                    None => self.resolve_statements(interpreter, body),
                };
                self.end_scope();
                result
            },
            _ => Ok(()),
        };
        self.current_function = enclosing_function;
        result
    }

    fn begin_scope(&mut self)
        ensures
            final(self).scopes_view() == old(self).scopes_view().push(Seq::empty()),
            forall|l: Map<usize, usize>| #[trigger] final(self).resolution(l) == r_begin(old(self).resolution(l)),
            final(self).scopes@.len() == old(self).scopes@.len() + 1,
            final(self).current_function == old(self).current_function,
            final(self).current_class == old(self).current_class,
    {
        self.scopes.push(Vec::new());
        proof {
            assert(pairs_view(self.scopes@.last()@) =~= Seq::<(Seq<char>, bool)>::empty());
            assert(self.scopes_view() =~= old(self).scopes_view().push(Seq::empty()));
        }
    }

    fn end_scope(&mut self)
        ensures
            old(self).scopes_view().len() > 0 ==> final(self).scopes_view() == old(
                self,
            ).scopes_view().drop_last(),
            old(self).scopes_view().len() == 0 ==> final(self).scopes_view().len() == 0,
            forall|l: Map<usize, usize>| #[trigger] final(self).resolution(l) == r_end(old(self).resolution(l)),
            final(self).current_function == old(self).current_function,
            final(self).current_class == old(self).current_class,
    {
        self.scopes.pop();
        proof {
            if old(self).scopes@.len() > 0 {
                assert(self.scopes_view() =~= old(self).scopes_view().drop_last());
            }
        }
    }

    /// Marks `name` as declared and ready in the innermost scope.
    fn put_in_last_scope(&mut self, name: String)
        ensures
            final(self).scopes_view().len() == old(self).scopes_view().len(),
            forall|l: Map<usize, usize>| #[trigger] final(self).resolution(l) == r_define(old(self).resolution(l), name@),
            final(self).current_function == old(self).current_function,
            final(self).current_class == old(self).current_class,
    {
        if self.scopes.len() > 0 {
            let last = self.scopes.len() - 1;
            store_entry(&mut self.scopes[last], name, true);
        }
    }

    /// Records in the interpreter how many scopes out `name` resolves, if it
    /// is local.
    fn resolve_local<N: LoxNumber>(&self, interpreter: &mut Interpreter<N>, expr: &Expr, name: &Token)
        requires
            old(interpreter).wf(),
        ensures
            final(interpreter).wf(),
            Interpreter::same_program_state(old(interpreter), final(interpreter)),
            expr_id(*expr) matches Some(id) ==> final(interpreter).locals_spec() == r_local(
                self.resolution(old(interpreter).locals_spec()),
                id,
                name.lexeme@,
            ).locals,
            final(interpreter).locals_spec() == match innermost(self.scopes_view(), name.lexeme@) {
                Some(d) => match expr_id(*expr) {
                    Some(id) => old(interpreter).locals_spec().insert(id, d as usize),
                    None => old(interpreter).locals_spec(),
                },
                None => old(interpreter).locals_spec(),
            },
    {
        let ghost sv = self.scopes_view();
        let n = self.scopes.len();
        let mut i = n;
        while i > 0
            invariant
                sv == self.scopes_view(),
                n == sv.len(),
                i <= n,
                interpreter.wf(),
                *interpreter == *old(interpreter),
                forall|k: int| i <= k < n ==> lookup(#[trigger] sv[k], name.lexeme@) is None,
            decreases i,
        {
            proof {
                assert(sv[i - 1] == pairs_view(self.scopes@[i - 1]@));
            }
            if find_entry(&self.scopes[i - 1], &name.lexeme).is_some() {
                proof {
                    lemma_innermost_take(sv, name.lexeme@, i as int);
                    assert(sv.take(i as int).last() == sv[i - 1]);
                }
                match expr.id() {
                    Some(id) => interpreter.resolve_id(id, n - i),
                    None => {},
                }
                return;
            }
            i = i - 1;
        }
        proof {
            lemma_innermost_take(sv, name.lexeme@, 0);
        }
    }

    /// Declares `name` in the innermost scope, not yet ready; a second
    /// declaration in that scope is an error.
    fn declare(&mut self, name: &Token) -> (r: Result<(), CompiletimeError>)
        ensures
            final(self).scopes_view().len() == old(self).scopes_view().len(),
            final(self).current_function == old(self).current_function,
            final(self).current_class == old(self).current_class,
            forall|l: Map<usize, usize>|
                resolved(#[trigger] r_declare(old(self).resolution(l), name@), r, final(self).resolution(l)),
            old(self).scopes_view().len() == 0 ==> r is Ok,
            old(self).scopes_view().len() > 0 ==> match lookup(
                old(self).scopes_view().last(),
                name.lexeme@,
            ) {
                Some(_) => (r matches Err(CompiletimeError::AlreadyDeclared(t)) && t@ == name@),
                None => r is Ok && final(self).scopes_view() == old(self).scopes_view().update(
                    old(self).scopes_view().len() - 1,
                    store(old(self).scopes_view().last(), name.lexeme@, false),
                ),
            },
    {
        if self.scopes.len() > 0 {
            let last = self.scopes.len() - 1;
            proof {
                assert(self.scopes_view().last() == pairs_view(self.scopes@[last as int]@));
            }
            if find_entry(&self.scopes[last], &name.lexeme).is_some() {
                return Err(CompiletimeError::AlreadyDeclared(name.duplicate()));
            }
            let ghost before = self.scopes_view();
            store_entry(&mut self.scopes[last], name.lexeme.clone(), false);
            proof {
                assert(self.scopes_view() =~= before.update(
                    last as int,
                    store(before.last(), name.lexeme@, false),
                ));
            }
        }
        Ok(())
    }

    /// Marks `name` as ready in the innermost scope.
    fn define(&mut self, name: &Token)
        ensures
            final(self).scopes_view().len() == old(self).scopes_view().len(),
            forall|l: Map<usize, usize>| #[trigger] final(self).resolution(l) == r_define(old(self).resolution(l), name.lexeme@),
            final(self).current_function == old(self).current_function,
            final(self).current_class == old(self).current_class,
            old(self).scopes_view().len() > 0 ==> final(self).scopes_view() == old(
                self,
            ).scopes_view().update(
                old(self).scopes_view().len() - 1,
                store(old(self).scopes_view().last(), name.lexeme@, true),
            ),
    {
        if self.scopes.len() > 0 {
            let last = self.scopes.len() - 1;
            let ghost before = self.scopes_view();
            proof {
                assert(before.last() == pairs_view(self.scopes@[last as int]@));
            }
            store_entry(&mut self.scopes[last], name.lexeme.clone(), true);
            proof {
                assert(self.scopes_view() =~= before.update(
                    last as int,
                    store(before.last(), name.lexeme@, true),
                ));
            }
        }
    }
}

} // verus!
