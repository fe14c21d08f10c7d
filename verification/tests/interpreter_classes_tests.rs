use lex::cli::{Cli, Outcome};
use lex::value::LoxNumber;

/// Lox numbers as double-precision floats, printed as Rust prints an `f64`.
#[derive(Clone, Copy, Debug)]
struct F64(f64);

impl LoxNumber for F64 {
    fn from_literal(text: &str) -> Self {
        F64(text.parse().unwrap())
    }
    fn from_timestamp(seconds: u64, nanos: u32) -> Self {
        F64(seconds as f64 + nanos as f64 / 1e9)
    }
    fn plus(self, other: Self) -> Self {
        F64(self.0 + other.0)
    }
    fn minus(self, other: Self) -> Self {
        F64(self.0 - other.0)
    }
    fn times(self, other: Self) -> Self {
        F64(self.0 * other.0)
    }
    fn divided_by(self, other: Self) -> Self {
        F64(self.0 / other.0)
    }
    fn negated(self) -> Self {
        F64(-self.0)
    }
    fn less(self, other: Self) -> bool {
        self.0 < other.0
    }
    fn less_equal(self, other: Self) -> bool {
        self.0 <= other.0
    }
    fn greater(self, other: Self) -> bool {
        self.0 > other.0
    }
    fn greater_equal(self, other: Self) -> bool {
        self.0 >= other.0
    }
    fn equals(self, other: Self) -> bool {
        self.0 == other.0
    }
    fn to_text(self) -> String {
        format!("{}", self.0)
    }
    fn debug_text(self) -> String {
        format!("{:?}", self.0)
    }
}

/// Runs a program, named after the script it comes from.
fn run_fixture(_path: &str, source: &str) -> Outcome<F64> {
    let cli = Cli { path: None, tokens: false, ast: false };
    cli.exec::<F64>(source)
}

fn stdout_of(outcome: &Outcome<F64>) -> String {
    let mut stdout = String::new();
    for line in &outcome.output {
        stdout.push_str(line);
        stdout.push('\n');
    }
    stdout
}

fn assert_success(path: &str, source: &str, expected_stdout: &str) {
    let output = run_fixture(path, source);

    if let Err(error) = &output.result {
        panic!("expected success for {path}, stderr was:\n{}", error.message());
    }
    assert_eq!(expected_stdout, stdout_of(&output));
}

fn assert_error(path: &str, source: &str, expected_stderr_fragment: &str) {
    let output = run_fixture(path, source);

    match &output.result {
        Ok(()) => panic!("expected failure for {path}, stdout was:\n{}", stdout_of(&output)),
        Err(error) => assert!(
            error.message().contains(expected_stderr_fragment),
            "stderr for {path} did not contain {expected_stderr_fragment:?}. actual stderr:\n{}",
            error.message()
        ),
    }
}

const BLOCK_SCOPE: &str = r#"var a = "outer";

{
  var a = "inner";
  print a; // expect: inner
}

print a; // expect: outer
"#;

const ASSIGNMENT_GLOBAL: &str = r#"var a = "before";
print a; // expect: before

a = "after";
print a; // expect: after

print a = "arg"; // expect: arg
print a; // expect: arg
"#;

const IF_ELSE: &str = r#"// Evaluate the 'else' expression if the condition is false.
if (true) print "good"; else print "bad"; // expect: good
if (false) print "bad"; else print "good"; // expect: good

// Allow block body.
if (false) nil; else { print "block"; } // expect: block
"#;

const WHILE_SYNTAX: &str = r#"// Single-expression body.
var c = 0;
while (c < 3) print c = c + 1;
// expect: 1
// expect: 2
// expect: 3

// Block body.
var a = 0;
while (a < 3) {
  print a;
  a = a + 1;
}
// expect: 0
// expect: 1
// expect: 2

// Statement bodies.
while (false) if (true) 1; else 2;
while (false) while (true) 1;
while (false) for (;;) 1;
"#;

const FOR_SCOPE: &str = r#"{
  var i = "before";

  // New variable is in inner scope.
  for (var i = 0; i < 1; i = i + 1) {
    print i; // expect: 0

    // Loop body is in second inner scope.
    var i = -1;
    print i; // expect: -1
  }
}

{
  // New variable shadows outer variable.
  for (var i = 0; i > 0; i = i + 1) {}

  // Goes out of scope after loop.
  var i = "after";
  print i; // expect: after

  // Can reuse an existing variable.
  for (i = 0; i < 1; i = i + 1) {
    print i; // expect: 0
  }
}
"#;

const FUNCTION_RECURSION: &str = r#"fun fib(n) {
  if (n < 2) return n;
  return fib(n - 1) + fib(n - 2);
}

print fib(8); // expect: 21
"#;

const LOGICAL_OR: &str = r#"// Note: These tests implicitly depend on ints being truthy.

// Return the first true argument.
print 1 or true; // expect: 1
print false or 1; // expect: 1
print false or false or true; // expect: true

// Return the last argument if all are false.
print false or false; // expect: false
print false or false or false; // expect: false

// Short-circuit at the first true argument.
var a = "before";
var b = "before";
(a = false) or
    (b = true) or
    (a = "bad");
print a; // expect: false
print b; // expect: true
"#;

const CLASS_EMPTY: &str = r#"class Foo {}

print Foo; // expect: Foo
"#;

const FIELD_METHOD: &str = r#"class Foo {
  bar(arg) {
    print arg;
  }
}

var bar = Foo().bar;
print "got method"; // expect: got method
bar("arg"); // expect: arg
"#;

const FIELD_ON_INSTANCE: &str = r#"class Foo {}

var foo = Foo();

print foo.bar = "bar value"; // expect: bar value
print foo.baz = "baz value"; // expect: baz value

print foo.bar; // expect: bar value
print foo.baz; // expect: baz value
"#;

const THIS_IN_METHOD: &str = r#"class Foo {
  bar() { return this; }
  baz() { return "baz"; }
}

print Foo().bar().baz(); // expect: baz
"#;

const SUPER_CALL_SAME_METHOD: &str = r#"class Base {
  foo() {
    print "Base.foo()";
  }
}

class Derived < Base {
  foo() {
    print "Derived.foo()";
    super.foo();
  }
}

Derived().foo();
// expect: Derived.foo()
// expect: Base.foo()
"#;

const INHERITANCE_SET_FIELDS_FROM_BASE_CLASS: &str = r#"class Foo {
  foo(a, b) {
    this.field1 = a;
    this.field2 = b;
  }

  fooPrint() {
    print this.field1;
    print this.field2;
  }
}

class Bar < Foo {
  bar(a, b) {
    this.field1 = a;
    this.field2 = b;
  }

  barPrint() {
    print this.field1;
    print this.field2;
  }
}

var bar = Bar();
bar.foo("foo 1", "foo 2");
bar.fooPrint();
// expect: foo 1
// expect: foo 2

bar.bar("bar 1", "bar 2");
bar.barPrint();
// expect: bar 1
// expect: bar 2

bar.fooPrint();
// expect: bar 1
// expect: bar 2
"#;

const RETURN_AT_TOP_LEVEL: &str = r#"return "wat"; // Error at 'return': Can't return from top-level code.
"#;

const THIS_AT_TOP_LEVEL: &str = r#"this; // Error at 'this': Can't use 'this' outside of a class.
"#;

const SUPER_AT_TOP_LEVEL: &str = r#"super.foo("bar"); // Error at 'super': Can't use 'super' outside of a class.
super.foo; // Error at 'super': Can't use 'super' outside of a class.
"#;

const INHERIT_FROM_NUMBER: &str = r#"var Number = 123;
class Foo < Number {} // expect runtime error: Superclass must be a class.
"#;

const FIELD_SET_ON_NUM: &str = r#"123.foo = "value"; // expect runtime error: Only instances have fields.
"#;

const SUPER_NO_SUPERCLASS_METHOD: &str = r#"class Base {}

class Derived < Base {
  foo() {
    super.doesNotExist(1); // expect runtime error: Undefined property 'doesNotExist'.
  }
}

Derived().foo();
"#;

const CONSTRUCTOR_RETURN_VALUE: &str = r#"class Foo {
  init() {
    return "result"; // Error at 'return': Can't return a value from an initializer.
  }
}
"#;

#[test]
fn executes_block_scope() {
    assert_success(
        "tests/test_files/interpreter/block/scope.lox",
        BLOCK_SCOPE,
        "inner\nouter\n",
    );
}

#[test]
fn executes_global_assignment() {
    assert_success(
        "tests/test_files/interpreter/assignment/global.lox",
        ASSIGNMENT_GLOBAL,
        "before\nafter\narg\narg\n",
    );
}

#[test]
fn executes_if_else_statements() {
    assert_success(
        "tests/test_files/interpreter/if/else.lox",
        IF_ELSE,
        "good\ngood\nblock\n",
    );
}

#[test]
fn executes_while_loops() {
    assert_success(
        "tests/test_files/interpreter/while/syntax.lox",
        WHILE_SYNTAX,
        "1\n2\n3\n0\n1\n2\n",
    );
}

#[test]
fn executes_for_loop_desugaring() {
    assert_success(
        "tests/test_files/interpreter/for/scope.lox",
        FOR_SCOPE,
        "0\n-1\nafter\n0\n",
    );
}

#[test]
fn executes_recursive_functions() {
    assert_success(
        "tests/test_files/interpreter/function/recursion.lox",
        FUNCTION_RECURSION,
        "21\n",
    );
}

#[test]
fn executes_logical_operators() {
    assert_success(
        "tests/test_files/interpreter/logical_operator/or.lox",
        LOGICAL_OR,
        "1\n1\ntrue\nfalse\nfalse\nfalse\ntrue\n",
    );
}

#[test]
fn instantiates_and_prints_classes() {
    assert_success("tests/test_files/interpreter/class/empty.lox", CLASS_EMPTY, "Foo\n");
}

#[test]
fn executes_methods_and_field_access() {
    assert_success(
        "tests/test_files/interpreter/field/method.lox",
        FIELD_METHOD,
        "got method\narg\n",
    );
}

#[test]
fn stores_fields_on_instances() {
    assert_success(
        "tests/test_files/interpreter/field/on_instance.lox",
        FIELD_ON_INSTANCE,
        "bar value\nbaz value\nbar value\nbaz value\n",
    );
}

#[test]
fn binds_this_inside_methods() {
    assert_success(
        "tests/test_files/interpreter/this/this_in_method.lox",
        THIS_IN_METHOD,
        "baz\n",
    );
}

#[test]
fn dispatches_inherited_and_super_methods() {
    assert_success(
        "tests/test_files/interpreter/super/call_same_method.lox",
        SUPER_CALL_SAME_METHOD,
        "Derived.foo()\nBase.foo()\n",
    );
}

#[test]
fn inherits_fields_initialized_in_base_class() {
    assert_success(
        "tests/test_files/interpreter/inheritance/set_fields_from_base_class.lox",
        INHERITANCE_SET_FIELDS_FROM_BASE_CLASS,
        "foo 1\nfoo 2\nbar 1\nbar 2\nbar 1\nbar 2\n",
    );
}

#[test]
fn reports_top_level_return_error() {
    assert_error(
        "tests/test_files/interpreter/return/at_top_level.lox",
        RETURN_AT_TOP_LEVEL,
        "Can't return from top-level code.",
    );
}

#[test]
fn reports_this_outside_class_error() {
    assert_error(
        "tests/test_files/interpreter/this/this_at_top_level.lox",
        THIS_AT_TOP_LEVEL,
        "Can't use 'this' outside of a class.",
    );
}

#[test]
fn reports_super_outside_class_error() {
    assert_error(
        "tests/test_files/interpreter/super/super_at_top_level.lox",
        SUPER_AT_TOP_LEVEL,
        "Can't use 'super' outside of a class.",
    );
}

#[test]
fn rejects_non_class_superclasses() {
    assert_error(
        "tests/test_files/interpreter/inheritance/inherit_from_number.lox",
        INHERIT_FROM_NUMBER,
        "Superclass must be a class.",
    );
}

#[test]
fn rejects_field_access_on_non_instances() {
    assert_error(
        "tests/test_files/interpreter/field/set_on_num.lox",
        FIELD_SET_ON_NUM,
        "Only instances have fields.",
    );
}

#[test]
fn rejects_missing_super_methods() {
    assert_error(
        "tests/test_files/interpreter/super/no_superclass_method.lox",
        SUPER_NO_SUPERCLASS_METHOD,
        "Undefined variable \"doesNotExist\"",
    );
}

#[test]
fn rejects_returning_value_from_initializer() {
    assert_error(
        "tests/test_files/interpreter/constructor/return_value.lox",
        CONSTRUCTOR_RETURN_VALUE,
        "Can't return a value from an initializer.",
    );
}
