use vstd::prelude::*;

use crate::text::{decimal, push_decimal, push_quoted, push_str, quoted};
use crate::token::{Token, literal_debug_spec, type_name_spec};
use crate::value::{LoxNumber, Value, ValueView};

verus! {

/// Errors found before a program runs: while scanning, parsing or resolving.
#[derive(Debug)]
pub enum CompiletimeError {
    ScannerError { line: usize, location: String, message: String },
    TokenError { line: usize },
    StringError { line: usize },
    NumberError { line: usize },
    ParseError { line: usize, message: String, lexeme: String },
    InitializerError(Token),
    AlreadyDeclared(Token),
    ReturnOutsideFunction,
    ReturnFromInitializer,
    ThisOutsideClass,
    SuperOutsideClass,
    SuperWithoutSuperclass,
    InheritSelf(Token),
}

/// Errors that stop a running program.
#[derive(Debug)]
pub enum RuntimeError<N> {
    TypeError { message: String, value: Box<Value<N>> },
    Undefined { lexeme: String },
    NotCallable(String),
    Arity { expected: usize, got: usize },
    ReturnOutsideFunction,
    FieldsOnInstancesOnly,
    PropertiesOnInstancesOnly,
    SuperclassMustBeClass,
    /// A program nested calls or repeated a loop more often than the
    /// interpreter counts.
    LimitExceeded,
}

/// The text of a token, with numbers as the number type `N` shows them.
pub open spec fn token_text<N: LoxNumber>(t: Token) -> Option<Seq<char>> {
    match literal_debug_spec::<N>(t@.literal) {
        Some(d) => Some(type_name_spec(t.token_type) + " "@ + t@.lexeme + " "@ + d),
        None => None,
    }
}

/// The message of a compile-time error, with numbers in tokens as the number
/// type `N` shows them.
pub open spec fn compiletime_message<N: LoxNumber>(e: CompiletimeError) -> Option<Seq<char>> {
    match e {
        CompiletimeError::ScannerError { line, location, message } => Some(
            "[line "@ + decimal(line as nat) + "] Error "@ + quoted(location@) + ": "@ + quoted(
                message@,
            ),
        ),
        CompiletimeError::TokenError { line } => Some(
            "Unexpected character at line "@ + decimal(line as nat),
        ),
        CompiletimeError::StringError { line } => Some("Unterminated String "@ + decimal(line as nat)),
        CompiletimeError::NumberError { line } => Some(
            "Number parsing error "@ + decimal(line as nat),
        ),
        CompiletimeError::ParseError { line, message, lexeme } => Some(
            "[line "@ + decimal(line as nat) + "] Parsing error. "@ + quoted(message@)
                + ", found "@ + quoted(lexeme@),
        ),
        CompiletimeError::InitializerError(t) => match token_text::<N>(t) {
            Some(x) => Some("Cannot read local variable in its own initialiser: "@ + x),
            None => None,
        },
        CompiletimeError::AlreadyDeclared(t) => match token_text::<N>(t) {
            Some(x) => Some("Already a variable with this name in this scope: "@ + x),
            None => None,
        },
        CompiletimeError::ReturnOutsideFunction => Some("Can't return from top-level code."@),
        CompiletimeError::ReturnFromInitializer => Some(
            "Can't return a value from an initializer."@,
        ),
        CompiletimeError::ThisOutsideClass => Some("Can't use 'this' outside of a class."@),
        CompiletimeError::SuperOutsideClass => Some("Can't use 'super' outside of a class."@),
        CompiletimeError::SuperWithoutSuperclass => Some(
            "Can't use 'super' in a class with no superclass."@,
        ),
        CompiletimeError::InheritSelf(_) => Some("A class can't inherit from itself."@),
    }
}

impl CompiletimeError {
    /// The error's message. A number in a token shows as the number type `N`
    /// shows it.
    pub fn message<N: LoxNumber>(&self) -> (s: String)
        ensures
            compiletime_message::<N>(*self) matches Some(m) ==> s@ == m,
    {
        let mut s = String::new();
        match self {
            CompiletimeError::ScannerError { line, location, message } => {
                push_str(&mut s, "[line ");
                push_decimal(&mut s, *line);
                push_str(&mut s, "] Error ");
                push_quoted(&mut s, location);
                push_str(&mut s, ": ");
                push_quoted(&mut s, message);
            },
            CompiletimeError::TokenError { line } => {
                push_str(&mut s, "Unexpected character at line ");
                push_decimal(&mut s, *line);
            },
            CompiletimeError::StringError { line } => {
                push_str(&mut s, "Unterminated String ");
                push_decimal(&mut s, *line);
            },
            CompiletimeError::NumberError { line } => {
                push_str(&mut s, "Number parsing error ");
                push_decimal(&mut s, *line);
            },
            CompiletimeError::ParseError { line, message, lexeme } => {
                push_str(&mut s, "[line ");
                push_decimal(&mut s, *line);
                push_str(&mut s, "] Parsing error. ");
                push_quoted(&mut s, message);
                push_str(&mut s, ", found ");
                push_quoted(&mut s, lexeme);
            },
            CompiletimeError::InitializerError(t) => {
                push_str(&mut s, "Cannot read local variable in its own initialiser: ");
                let text = t.to_string::<N>();
                push_str(&mut s, text.as_str());
            },
            CompiletimeError::AlreadyDeclared(t) => {
                push_str(&mut s, "Already a variable with this name in this scope: ");
                let text = t.to_string::<N>();
                push_str(&mut s, text.as_str());
            },
            CompiletimeError::ReturnOutsideFunction => {
                push_str(&mut s, "Can't return from top-level code.");
            },
            CompiletimeError::ReturnFromInitializer => {
                push_str(&mut s, "Can't return a value from an initializer.");
            },
            CompiletimeError::ThisOutsideClass => {
                push_str(&mut s, "Can't use 'this' outside of a class.");
            },
            CompiletimeError::SuperOutsideClass => {
                push_str(&mut s, "Can't use 'super' outside of a class.");
            },
            CompiletimeError::SuperWithoutSuperclass => {
                push_str(&mut s, "Can't use 'super' in a class with no superclass.");
            },
            CompiletimeError::InheritSelf(_) => {
                push_str(&mut s, "A class can't inherit from itself.");
            },
        }
        proof {
            match compiletime_message::<N>(*self) {
                Some(m) => {
                    assert(s@ =~= m);
                },
                None => {},
            }
        }
        s
    }
}

/// How a value shows in an error message: a number as the number type shows
/// it for debugging. Functions are left open.
pub open spec fn value_debug<N: LoxNumber>(v: ValueView<N>) -> Option<Seq<char>> {
    match v {
        ValueView::Nil => Some("Nil"@),
        ValueView::Bool(b) => Some(
            if b {
                "Bool(true)"@
            } else {
                "Bool(false)"@
            },
        ),
        ValueView::Str(s) => Some("String("@ + quoted(s) + ")"@),
        ValueView::Native(a) => Some(
            "Native(NativeFunction { arity: "@ + decimal(a as nat) + " })"@,
        ),
        ValueView::Class(c) => Some("Class("@ + c.name + ")"@),
        ValueView::Instance(h) => Some("Instance("@ + decimal(h as nat) + ")"@),
        ValueView::Number(n) => Some("Number("@ + n.debug_text_spec() + ")"@),
        _ => None,
    }
}

/// The message of a runtime error, where it does not depend on the number
/// type.
pub open spec fn runtime_message<N: LoxNumber>(e: RuntimeError<N>) -> Option<Seq<char>> {
    match e {
        RuntimeError::TypeError { message, value } => match value_debug((*value)@) {
            Some(d) => Some("Type Error: "@ + quoted(message@) + ". Found: "@ + d),
            None => None,
        },
        RuntimeError::Undefined { lexeme } => Some("Undefined variable "@ + quoted(lexeme@)),
        RuntimeError::NotCallable(s) => Some("Expression not callable "@ + s@),
        RuntimeError::Arity { expected, got } => Some(
            "Expected "@ + decimal(expected as nat) + " arguments but got "@ + decimal(
                got as nat,
            ),
        ),
        RuntimeError::ReturnOutsideFunction => Some("Can't return from top-level code."@),
        RuntimeError::FieldsOnInstancesOnly => Some("Only instances have fields."@),
        RuntimeError::PropertiesOnInstancesOnly => Some("Only instances have properties."@),
        RuntimeError::SuperclassMustBeClass => Some("Superclass must be a class."@),
        RuntimeError::LimitExceeded => Some("Execution limit exceeded."@),
    }
}

/// Appends how a value shows in an error message.
fn push_value_debug<N: LoxNumber>(s: &mut String, v: &Value<N>)
    ensures
        value_debug(v@) matches Some(d) ==> final(s)@ == old(s)@ + d,
{
    match v {
        Value::Nil => push_str(s, "Nil"),
        Value::Bool(b) => if *b {
            push_str(s, "Bool(true)")
        } else {
            push_str(s, "Bool(false)")
        },
        Value::Number(n) => {
            push_str(s, "Number(");
            let t = n.debug_text();
            push_str(s, t.as_str());
            push_str(s, ")");
            proof {
                assert(s@ =~= old(s)@ + ("Number("@ + n.debug_text_spec() + ")"@));
            }
        },
        Value::String(t) => {
            push_str(s, "String(");
            push_quoted(s, t);
            push_str(s, ")");
            proof {
                assert(s@ =~= old(s)@ + ("String("@ + quoted(t@) + ")"@));
            }
        },
        Value::Native(f) => {
            push_str(s, "Native(NativeFunction { arity: ");
            push_decimal(s, f.arity());
            push_str(s, " })");
            proof {
                assert(s@ =~= old(s)@ + ("Native(NativeFunction { arity: "@ + decimal(
                    f.arity_spec() as nat,
                ) + " })"@));
            }
        },
        Value::Function(f) => {
            push_str(s, "Function(");
            let t = f.to_string();
            push_str(s, t.as_str());
            push_str(s, ")");
        },
        Value::Class(c) => {
            push_str(s, "Class(");
            push_str(s, c.name().as_str());
            push_str(s, ")");
            proof {
                assert(s@ =~= old(s)@ + ("Class("@ + c@.name + ")"@));
            }
        },
        Value::Instance(h) => {
            push_str(s, "Instance(");
            push_decimal(s, *h);
            push_str(s, ")");
            proof {
                assert(s@ =~= old(s)@ + ("Instance("@ + decimal(*h as nat) + ")"@));
            }
        },
    }
}

impl<N: LoxNumber> RuntimeError<N> {
    /// The error's message.
    pub fn message(&self) -> (s: String)
        ensures
            runtime_message(*self) matches Some(m) ==> s@ == m,
    {
        let mut s = String::new();
        match self {
            RuntimeError::TypeError { message, value } => {
                push_str(&mut s, "Type Error: ");
                push_quoted(&mut s, message);
                push_str(&mut s, ". Found: ");
                push_value_debug(&mut s, &**value);
            },
            RuntimeError::Undefined { lexeme } => {
                push_str(&mut s, "Undefined variable ");
                push_quoted(&mut s, lexeme);
            },
            RuntimeError::NotCallable(t) => {
                push_str(&mut s, "Expression not callable ");
                push_str(&mut s, t.as_str());
            },
            RuntimeError::Arity { expected, got } => {
                push_str(&mut s, "Expected ");
                push_decimal(&mut s, *expected);
                push_str(&mut s, " arguments but got ");
                push_decimal(&mut s, *got);
            },
            RuntimeError::ReturnOutsideFunction => {
                push_str(&mut s, "Can't return from top-level code.");
            },
            RuntimeError::FieldsOnInstancesOnly => {
                push_str(&mut s, "Only instances have fields.");
            },
            RuntimeError::PropertiesOnInstancesOnly => {
                push_str(&mut s, "Only instances have properties.");
            },
            RuntimeError::SuperclassMustBeClass => {
                push_str(&mut s, "Superclass must be a class.");
            },
            RuntimeError::LimitExceeded => {
                push_str(&mut s, "Execution limit exceeded.");
            },
        }
        proof {
            match runtime_message(*self) {
                Some(m) => {
                    assert(s@ =~= m);
                },
                None => {},
            }
        }
        s
    }
}

} // verus!
