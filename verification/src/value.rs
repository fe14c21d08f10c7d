use vstd::prelude::*;

use crate::stmt::{Stmt, StmtView, stmt_view, tokens_seq_view};
use crate::token::same_token;
use crate::text::push_str;

verus! {

/// The numbers a Lox program computes with. The interpreter leaves all
/// arithmetic, comparison and printing of numbers to this type. Each
/// operation gives what its `*_spec` function names: it depends on its
/// operands alone. Verified code never looks inside the spec functions: for
/// a number type it knows only that each operation gives what they name.
/// They have bodies only because an implementation in plain Rust cannot give
/// spec functions of its own; such an implementation is trusted to compute
/// each operation as a function of its operands.
pub trait LoxNumber: Copy {
    /// The number the decimal text `text` stands for.
    closed spec fn literal_spec(text: Seq<char>) -> Self {
        vstd::pervasive::arbitrary()
    }

    /// The sum, difference, product and quotient of two numbers, and the
    /// negation of one.
    closed spec fn plus_spec(self, other: Self) -> Self {
        vstd::pervasive::arbitrary()
    }

    closed spec fn minus_spec(self, other: Self) -> Self {
        vstd::pervasive::arbitrary()
    }

    closed spec fn times_spec(self, other: Self) -> Self {
        vstd::pervasive::arbitrary()
    }

    closed spec fn divided_by_spec(self, other: Self) -> Self {
        vstd::pervasive::arbitrary()
    }

    closed spec fn negated_spec(self) -> Self {
        vstd::pervasive::arbitrary()
    }

    /// How two numbers compare.
    closed spec fn less_spec(self, other: Self) -> bool {
        vstd::pervasive::arbitrary()
    }

    closed spec fn less_equal_spec(self, other: Self) -> bool {
        vstd::pervasive::arbitrary()
    }

    closed spec fn greater_spec(self, other: Self) -> bool {
        vstd::pervasive::arbitrary()
    }

    closed spec fn greater_equal_spec(self, other: Self) -> bool {
        vstd::pervasive::arbitrary()
    }

    closed spec fn equals_spec(self, other: Self) -> bool {
        vstd::pervasive::arbitrary()
    }

    /// The text `print` shows for the number, and its debugging form.
    closed spec fn text_spec(self) -> Seq<char> {
        vstd::pervasive::arbitrary()
    }

    closed spec fn debug_text_spec(self) -> Seq<char> {
        vstd::pervasive::arbitrary()
    }

    /// The number written as the decimal text `text` (digits, optionally a
    /// dot and more digits).
    fn from_literal(text: &str) -> (r: Self)
        ensures
            r == Self::literal_spec(text@),
    ;

    /// The number of seconds since the Unix epoch, given as whole seconds and
    /// nanoseconds.
    fn from_timestamp(seconds: u64, nanos: u32) -> Self;

    fn plus(self, other: Self) -> (r: Self)
        ensures
            r == self.plus_spec(other),
    ;

    fn minus(self, other: Self) -> (r: Self)
        ensures
            r == self.minus_spec(other),
    ;

    fn times(self, other: Self) -> (r: Self)
        ensures
            r == self.times_spec(other),
    ;

    fn divided_by(self, other: Self) -> (r: Self)
        ensures
            r == self.divided_by_spec(other),
    ;

    fn negated(self) -> (r: Self)
        ensures
            r == self.negated_spec(),
    ;

    fn less(self, other: Self) -> (r: bool)
        ensures
            r == self.less_spec(other),
    ;

    fn less_equal(self, other: Self) -> (r: bool)
        ensures
            r == self.less_equal_spec(other),
    ;

    fn greater(self, other: Self) -> (r: bool)
        ensures
            r == self.greater_spec(other),
    ;

    fn greater_equal(self, other: Self) -> (r: bool)
        ensures
            r == self.greater_equal_spec(other),
    ;

    fn equals(self, other: Self) -> (r: bool)
        ensures
            r == self.equals_spec(other),
    ;

    /// The text `print` shows for the number.
    fn to_text(self) -> (r: String)
        ensures
            r@ == self.text_spec(),
    ;

    /// The text the number shows in a debugging form.
    fn debug_text(self) -> (r: String)
        ensures
            r@ == self.debug_text_spec(),
    ;
}

// ----- association lists -----

/// The value stored under `name`: the first entry with that name.
pub open spec fn lookup<V>(entries: Seq<(Seq<char>, V)>, name: Seq<char>) -> Option<V>
    decreases entries.len(),
{
    if entries.len() == 0 {
        None
    } else if entries[0].0 == name {
        Some(entries[0].1)
    } else {
        lookup(entries.drop_first(), name)
    }
}

pub proof fn lemma_lookup_skip<V>(entries: Seq<(Seq<char>, V)>, name: Seq<char>, i: int)
    requires
        0 <= i <= entries.len(),
        forall|j: int| 0 <= j < i ==> entries[j].0 != name,
    ensures
        lookup(entries, name) == lookup(entries.skip(i), name),
    decreases i,
{
    if i > 0 {
        lemma_lookup_skip(entries.drop_first(), name, i - 1);
        assert(entries.drop_first().skip(i - 1) =~= entries.skip(i));
    } else {
        assert(entries.skip(0) =~= entries);
    }
}

pub proof fn lemma_lookup_found<V>(entries: Seq<(Seq<char>, V)>, name: Seq<char>, i: int)
    requires
        0 <= i < entries.len(),
        forall|j: int| 0 <= j < i ==> entries[j].0 != name,
        entries[i].0 == name,
    ensures
        lookup(entries, name) == Some(entries[i].1),
{
    lemma_lookup_skip(entries, name, i);
}

pub proof fn lemma_lookup_absent<V>(entries: Seq<(Seq<char>, V)>, name: Seq<char>)
    requires
        forall|j: int| 0 <= j < entries.len() ==> entries[j].0 != name,
    ensures
        lookup(entries, name) is None,
{
    lemma_lookup_skip(entries, name, entries.len() as int);
    assert(entries.skip(entries.len() as int).len() == 0);
}

/// After storing `value` under `name` (in place of the first entry with that
/// name, or as a new entry at the end), `name` gives `value` and every other
/// name gives what it gave before.
pub proof fn lemma_lookup_store<V>(
    before: Seq<(Seq<char>, V)>,
    after: Seq<(Seq<char>, V)>,
    name: Seq<char>,
    value: V,
    k: Seq<char>,
)
    requires
        (exists|i: int|
            0 <= i < before.len() && before[i].0 == name && (forall|j: int|
                0 <= j < i ==> before[j].0 != name) && after == before.update(i, (name, value)))
            || ((forall|j: int| 0 <= j < before.len() ==> before[j].0 != name) && after
            == before.push((name, value))),
    ensures
        lookup(after, k) == if k == name {
            Some(value)
        } else {
            lookup(before, k)
        },
    decreases before.len(),
{
    if before.len() == 0 {
        assert(after.drop_first() =~= Seq::<(Seq<char>, V)>::empty());
    } else if exists|i: int|
        0 <= i < before.len() && before[i].0 == name && (forall|j: int|
            0 <= j < i ==> before[j].0 != name) && after == before.update(i, (name, value)) {
        let i = choose|i: int|
            0 <= i < before.len() && before[i].0 == name && (forall|j: int|
                0 <= j < i ==> before[j].0 != name) && after == before.update(i, (name, value));
        if i == 0 {
            assert(after.drop_first() =~= before.drop_first());
        } else {
            assert(after.drop_first() =~= before.drop_first().update(i - 1, (name, value)));
            lemma_lookup_store(before.drop_first(), after.drop_first(), name, value, k);
        }
    } else {
        assert(after.drop_first() =~= before.drop_first().push((name, value)));
        lemma_lookup_store(before.drop_first(), after.drop_first(), name, value, k);
    }
}

/// The index of the first entry named `name`.
pub open spec fn first_index<V>(entries: Seq<(Seq<char>, V)>, name: Seq<char>) -> Option<int>
    decreases entries.len(),
{
    if entries.len() == 0 {
        None
    } else if entries[0].0 == name {
        Some(0)
    } else {
        match first_index(entries.drop_first(), name) {
            Some(i) => Some(i + 1),
            None => None,
        }
    }
}

/// The entries with `value` stored under `name`: in place of the first
/// entry with that name, or as a new entry at the end.
pub open spec fn store<V>(entries: Seq<(Seq<char>, V)>, name: Seq<char>, value: V) -> Seq<
    (Seq<char>, V),
> {
    match first_index(entries, name) {
        Some(i) => entries.update(i, (name, value)),
        None => entries.push((name, value)),
    }
}

pub proof fn lemma_first_index<V>(entries: Seq<(Seq<char>, V)>, name: Seq<char>, i: int)
    requires
        0 <= i < entries.len(),
        forall|j: int| 0 <= j < i ==> entries[j].0 != name,
        entries[i].0 == name,
    ensures
        first_index(entries, name) == Some(i),
    decreases i,
{
    if i > 0 {
        lemma_first_index(entries.drop_first(), name, i - 1);
    }
}

pub proof fn lemma_first_index_absent<V>(entries: Seq<(Seq<char>, V)>, name: Seq<char>)
    requires
        forall|j: int| 0 <= j < entries.len() ==> entries[j].0 != name,
    ensures
        first_index(entries, name) is None,
    decreases entries.len(),
{
    if entries.len() > 0 {
        lemma_first_index_absent(entries.drop_first(), name);
    }
}

pub proof fn lemma_first_index_props<V>(entries: Seq<(Seq<char>, V)>, name: Seq<char>)
    ensures
        match first_index(entries, name) {
            Some(i) => 0 <= i < entries.len() && entries[i].0 == name && forall|j: int|
                0 <= j < i ==> entries[j].0 != name,
            None => forall|j: int| 0 <= j < entries.len() ==> entries[j].0 != name,
        },
    decreases entries.len(),
{
    if entries.len() > 0 {
        lemma_first_index_props(entries.drop_first(), name);
        if entries[0].0 != name {
            match first_index(entries.drop_first(), name) {
                Some(i) => {
                    assert forall|j: int| 0 <= j < i + 1 implies entries[j].0 != name by {
                        if j > 0 {
                            assert(entries[j] == entries.drop_first()[j - 1]);
                        }
                    }
                },
                None => {
                    assert forall|j: int| 0 <= j < entries.len() implies entries[j].0
                        != name by {
                        if j > 0 {
                            assert(entries[j] == entries.drop_first()[j - 1]);
                        }
                    }
                },
            }
        }
    }
}

/// Storing a value under a name: that name then gives the value, and every
/// other name gives what it gave before.
pub proof fn lemma_store<V>(entries: Seq<(Seq<char>, V)>, name: Seq<char>, value: V, k: Seq<char>)
    ensures
        lookup(store(entries, name, value), k) == if k == name {
            Some(value)
        } else {
            lookup(entries, k)
        },
{
    lemma_first_index_props(entries, name);
    match first_index(entries, name) {
        Some(i) => {
            assert(exists|i: int|
                0 <= i < entries.len() && entries[i].0 == name && (forall|j: int|
                    0 <= j < i ==> entries[j].0 != name) && store(entries, name, value)
                    == entries.update(i, (name, value)));
        },
        None => {},
    }
    lemma_lookup_store(entries, store(entries, name, value), name, value, k);
}

// ----- mathematical values -----

/// The value of a function: its declaration, the environment it closes over
/// and whether it is a class's initializer.
pub struct FunctionView {
    pub declaration: StmtView,
    pub closure: usize,
    pub is_initializer: bool,
}

/// The value of a class: its name, its superclass and its methods.
pub struct ClassView {
    pub name: Seq<char>,
    pub superclass: Option<Box<ClassView>>,
    pub methods: Seq<(Seq<char>, FunctionView)>,
}

/// The value of a Lox value. Numbers are kept as they are; an instance is
/// known by its handle.
pub enum ValueView<N> {
    Nil,
    Bool(bool),
    Number(N),
    Str(Seq<char>),
    Native(usize),
    Function(FunctionView),
    Class(ClassView),
    Instance(usize),
}

/// A native function, known by its arity.
#[derive(Debug)]
pub struct NativeFunction {
    arity: usize,
}

impl NativeFunction {
    pub closed spec fn arity_spec(&self) -> usize {
        self.arity
    }

    pub fn new(arity: usize) -> (f: NativeFunction)
        ensures
            f.arity_spec() == arity,
    {
        NativeFunction { arity }
    }

    pub fn arity(&self) -> (r: usize)
        ensures
            r == self.arity_spec(),
    {
        self.arity
    }

    /// `<native fn>`.
    pub fn to_string(&self) -> (s: String)
        ensures
            s@ == "<native fn>"@,
    {
        String::from_str("<native fn>")
    }
}

/// A user function: its declaration, the handle of the environment it closes
/// over, and whether it is a class's initializer.
#[derive(Debug)]
pub struct Function {
    pub declaration: Stmt,
    pub closure: usize,
    pub is_initializer: bool,
}

impl View for Function {
    type V = FunctionView;

    open spec fn view(&self) -> FunctionView {
        FunctionView {
            declaration: self.declaration@,
            closure: self.closure,
            is_initializer: self.is_initializer,
        }
    }
}

/// The number of parameters a function declaration has.
pub open spec fn arity_spec(f: FunctionView) -> nat {
    match f.declaration {
        StmtView::Function { params, .. } => params.len(),
        _ => 0,
    }
}

impl Function {
    pub fn duplicate(&self) -> (r: Function)
        ensures
            r@ == self@,
    {
        Function {
            declaration: self.declaration.duplicate(),
            closure: self.closure,
            is_initializer: self.is_initializer,
        }
    }

    /// The number of parameters.
    pub fn arity(&self) -> (r: usize)
        ensures
            r == arity_spec(self@),
    {
        match &self.declaration {
            Stmt::Function { params, .. } => params.len(),
            _ => 0,
        }
    }

    /// `<fn name>`.
    pub fn to_string(&self) -> (s: String)
        ensures
            match self@.declaration {
                StmtView::Function { name, .. } => s@ == "<fn "@ + name.lexeme + ">"@,
                _ => s@ == "<fn>"@,
            },
    {
        match &self.declaration {
            Stmt::Function { name, .. } => {
                let mut s = String::from_str("<fn ");
                push_str(&mut s, name.lexeme.as_str());
                push_str(&mut s, ">");
                s
            },
            _ => String::from_str("<fn>"),
        }
    }
}

/// The value of a list of named entries.
pub open spec fn pairs_view<T: View>(m: Seq<(String, T)>) -> Seq<(Seq<char>, T::V)> {
    Seq::new(m.len(), |i: int| (m[i].0@, m[i].1@))
}

/// The value of a list of methods.
pub open spec fn methods_view(m: Seq<(String, Function)>) -> Seq<(Seq<char>, FunctionView)> {
    pairs_view(m)
}

/// A class: its name, its superclass and its methods.
#[derive(Debug)]
pub struct Class {
    name: String,
    superclass: Option<Box<Class>>,
    methods: Vec<(String, Function)>,
}

pub closed spec fn class_view(c: Class) -> ClassView
    decreases c,
{
    ClassView {
        name: c.name@,
        superclass: match c.superclass {
            Some(s) => Some(Box::new(class_view(*s))),
            None => None,
        },
        methods: methods_view(c.methods@),
    }
}

impl View for Class {
    type V = ClassView;

    open spec fn view(&self) -> ClassView {
        class_view(*self)
    }
}

/// The method a class has under `name`: its own, or else its superclass's.
pub open spec fn find_method_spec(c: ClassView, name: Seq<char>) -> Option<FunctionView>
    decreases c,
{
    match lookup(c.methods, name) {
        Some(f) => Some(f),
        None => match c.superclass {
            Some(s) => find_method_spec(*s, name),
            None => None,
        },
    }
}

/// Finds the first entry named `name`.
pub fn find_entry<T: View>(entries: &Vec<(String, T)>, name: &String) -> (r: Option<usize>)
    ensures
        match r {
            Some(i) => first_index(pairs_view(entries@), name@) == Some(i as int),
            None => first_index(pairs_view(entries@), name@) is None,
        },
        match r {
            Some(i) => i < entries@.len() && lookup(pairs_view(entries@), name@) == Some(
                entries@[i as int].1@,
            ),
            None => lookup(pairs_view(entries@), name@) is None,
        },
{
    let ghost v = pairs_view(entries@);
    let mut i: usize = 0;
    while i < entries.len()
        invariant
            v == pairs_view(entries@),
            i <= entries@.len(),
            forall|j: int| 0 <= j < i ==> v[j].0 != name@,
        decreases entries@.len() - i,
    {
        if entries[i].0 == *name {
            proof {
                lemma_lookup_found(v, name@, i as int);
                lemma_first_index(v, name@, i as int);
            }
            return Some(i);
        }
        i = i + 1;
    }
    proof {
        lemma_lookup_absent(v, name@);
        lemma_first_index_absent(v, name@);
    }
    None
}

/// Stores `value` under `name`: in place of the first entry with that name,
/// or as a new entry at the end.
pub fn store_entry<T: View>(entries: &mut Vec<(String, T)>, name: String, value: T)
    ensures
        pairs_view(final(entries)@) == store(pairs_view(old(entries)@), name@, value@),
{
    let ghost before = pairs_view(entries@);
    let ghost nv = name@;
    let ghost vv = value@;
    match find_entry(entries, &name) {
        Some(i) => {
            entries.set(i, (name, value));
            proof {
                assert(pairs_view(entries@) =~= before.update(i as int, (nv, vv)));
            }
        },
        None => {
            entries.push((name, value));
            proof {
                assert(pairs_view(entries@) =~= before.push((nv, vv)));
            }
        },
    }
}

/// Whether two functions are equal, where that is decided without
/// comparing their closures: functions whose declarations differ in name
/// or parameters are unequal. Comparing closures compares the frames they
/// hold, which hold the functions themselves; that is left undecided.
pub open spec fn function_equal(x: FunctionView, y: FunctionView) -> Option<bool> {
    match x.declaration {
        StmtView::Function { name: n1, params: p1, .. } => match y.declaration {
            StmtView::Function { name: n2, params: p2, .. } => if n1 != n2 || p1 != p2 {
                Some(false)
            } else {
                None
            },
            _ => None,
        },
        _ => None,
    }
}

/// Whether two classes are equal, compared by name, then superclass, then
/// methods: classes with different names, superclasses or numbers of
/// methods are unequal, and classes equal in name and superclass without
/// methods are equal. Comparing methods compares their closures, which is
/// left undecided (see `function_equal`).
pub open spec fn class_equal(x: ClassView, y: ClassView) -> Option<bool>
    decreases x,
{
    if x.name != y.name {
        Some(false)
    } else {
        let sup = match x.superclass {
            Some(a) => match y.superclass {
                Some(b) => class_equal(*a, *b),
                None => Some(false),
            },
            None => match y.superclass {
                Some(_) => Some(false),
                None => Some(true),
            },
        };
        match sup {
            Some(true) => if x.methods.len() != y.methods.len() {
                Some(false)
            } else if x.methods.len() == 0 {
                Some(true)
            } else {
                None
            },
            other => other,
        }
    }
}

impl Function {
    /// Compares two functions as `function_equal` says.
    pub fn equal_to(&self, other: &Function) -> (r: Option<bool>)
        ensures
            r == function_equal(self@, other@),
    {
        match (&self.declaration, &other.declaration) {
            (
                Stmt::Function { name: n1, params: p1, .. },
                Stmt::Function { name: n2, params: p2, .. },
            ) => {
                let ghost v1 = tokens_seq_view(p1@);
                let ghost v2 = tokens_seq_view(p2@);
                proof {
                    assert(self@.declaration matches StmtView::Function { name, params, .. }
                        && name == n1@ && params == v1);
                    assert(other@.declaration matches StmtView::Function { name, params, .. }
                        && name == n2@ && params == v2);
                }
                if !same_token(n1, n2) || p1.len() != p2.len() {
                    proof {
                        if p1.len() != p2.len() {
                            assert(v1.len() != v2.len());
                        }
                    }
                    return Some(false);
                }
                let mut i: usize = 0;
                while i < p1.len()
                    invariant
                        p1.len() == p2.len(),
                        i <= p1.len(),
                        v1 == tokens_seq_view(p1@),
                        v2 == tokens_seq_view(p2@),
                        forall|j: int| 0 <= j < i ==> v1[j] == v2[j],
                        self@.declaration matches StmtView::Function { name, params, .. } && name
                            == n1@ && params == v1,
                        other@.declaration matches StmtView::Function { name, params, .. } && name
                            == n2@ && params == v2,
                        n1@ == n2@,
                    decreases p1.len() - i,
                {
                    if !same_token(&p1[i], &p2[i]) {
                        proof {
                            assert(v1[i as int] != v2[i as int]);
                        }
                        return Some(false);
                    }
                    i = i + 1;
                }
                proof {
                    assert(v1 =~= v2);
                }
                None
            },
            _ => None,
        }
    }
}

impl Class {
    pub fn new(name: String, superclass: Option<Box<Class>>, methods: Vec<(String, Function)>) -> (c:
        Class)
        ensures
            c@.name == name@,
            c@.superclass == match superclass {
                Some(s) => Some(Box::new(s@)),
                None => None::<Box<ClassView>>,
            },
            c@.methods == methods_view(methods@),
    {
        Class { name, superclass, methods }
    }

    /// Compares two classes as `class_equal` says.
    pub fn equal_to(&self, other: &Class) -> (r: Option<bool>)
        ensures
            r == class_equal(self@, other@),
        decreases self,
    {
        proof {
            assert(self@ == class_view(*self));
            assert(other@ == class_view(*other));
            assert(self@.methods.len() == self.methods@.len());
            assert(other@.methods.len() == other.methods@.len());
            assert(self.superclass is None <==> self@.superclass is None);
            assert(other.superclass is None <==> other@.superclass is None);
            if self.superclass is Some {
                assert(*self@.superclass->0 == (*self.superclass->0)@);
            }
            if other.superclass is Some {
                assert(*other@.superclass->0 == (*other.superclass->0)@);
            }
        }
        if self.name != other.name {
            return Some(false);
        }
        let sup = match (&self.superclass, &other.superclass) {
            (Some(a), Some(b)) => a.equal_to(b),
            (None, None) => Some(true),
            _ => Some(false),
        };
        match sup {
            Some(true) => if self.methods.len() != other.methods.len() {
                Some(false)
            } else if self.methods.len() == 0 {
                Some(true)
            } else {
                None
            },
            other => other,
        }
    }

    pub fn name(&self) -> (r: &String)
        ensures
            r@ == self@.name,
    {
        &self.name
    }

    /// The method the class has under `name`: its own, or else the one its
    /// superclass has.
    pub fn find_method(&self, name: &String) -> (r: Option<Function>)
        ensures
            match r {
                Some(f) => find_method_spec(self@, name@) == Some(f@),
                None => find_method_spec(self@, name@) is None,
            },
        decreases self,
    {
        match find_entry(&self.methods, name) {
            Some(i) => Some(self.methods[i].1.duplicate()),
            None => match &self.superclass {
                Some(s) => (**s).find_method(name),
                None => None,
            },
        }
    }

    pub fn duplicate(&self) -> (r: Class)
        ensures
            r@ == self@,
        decreases self,
    {
        let superclass = match &self.superclass {
            Some(s) => Some(Box::new((**s).duplicate())),
            None => None,
        };
        let mut methods: Vec<(String, Function)> = Vec::new();
        let mut i: usize = 0;
        while i < self.methods.len()
            invariant
                i <= self.methods@.len(),
                methods@.len() == i,
                forall|j: int|
                    0 <= j < i ==> (methods@[j].0@, methods@[j].1@) == (
                        self.methods@[j].0@,
                        self.methods@[j].1@,
                    ),
            decreases self.methods@.len() - i,
        {
            methods.push((self.methods[i].0.clone(), self.methods[i].1.duplicate()));
            i = i + 1;
        }
        let r = Class { name: self.name.clone(), superclass, methods };
        proof {
            assert(methods_view(r.methods@) =~= methods_view(self.methods@));
        }
        r
    }
}

/// A Lox value. A number is of the interpreter's number type; an instance
/// is known by its handle in the interpreter's heap.
#[derive(Debug)]
pub enum Value<N> {
    Nil,
    Bool(bool),
    Number(N),
    String(String),
    Native(NativeFunction),
    Function(Function),
    Class(Class),
    Instance(usize),
}

impl<N: LoxNumber> View for Value<N> {
    type V = ValueView<N>;

    open spec fn view(&self) -> ValueView<N> {
        match self {
            Value::Nil => ValueView::Nil,
            Value::Bool(b) => ValueView::Bool(*b),
            Value::Number(n) => ValueView::Number(*n),
            Value::String(s) => ValueView::Str(s@),
            Value::Native(f) => ValueView::Native(f.arity_spec()),
            Value::Function(f) => ValueView::Function(f@),
            Value::Class(c) => ValueView::Class(c@),
            Value::Instance(i) => ValueView::Instance(*i),
        }
    }
}

/// The value an optional value stands for: `nil` where there is none.
pub open spec fn or_nil<N: LoxNumber>(v: Option<Value<N>>) -> ValueView<N> {
    match v {
        Some(v) => v@,
        None => ValueView::Nil,
    }
}

/// `nil` and `false` are falsey; every other value is truthy.
pub open spec fn truthy<N>(v: ValueView<N>) -> bool {
    match v {
        ValueView::Nil => false,
        ValueView::Bool(b) => b,
        _ => true,
    }
}

/// Whether a value is truthy.
pub trait IsTruthy {
    fn is_truthy(&self) -> bool;
}

impl<N: LoxNumber> IsTruthy for Value<N> {
    /// `nil` and `false` are falsey; every other value is truthy.
    fn is_truthy(&self) -> (b: bool)
        ensures
            b == truthy(self@),
    {
        match self {
            Value::Nil => false,
            Value::Bool(b) => *b,
            _ => true,
        }
    }
}

impl<N: LoxNumber> Value<N> {
    pub fn duplicate(&self) -> (r: Value<N>)
        ensures
            r@ == self@,
    {
        match self {
            Value::Nil => Value::Nil,
            Value::Bool(b) => Value::Bool(*b),
            Value::Number(n) => Value::Number(*n),
            Value::String(s) => Value::String(s.clone()),
            Value::Native(f) => Value::Native(NativeFunction { arity: f.arity }),
            Value::Function(f) => Value::Function(f.duplicate()),
            Value::Class(c) => Value::Class(c.duplicate()),
            Value::Instance(i) => Value::Instance(*i),
        }
    }

    /// `!v`: the negation of its truthiness.
    pub fn not(&self) -> (r: Value<N>)
        ensures
            r@ == ValueView::<N>::Bool(!truthy(self@)),
    {
        Value::Bool(!self.is_truthy())
    }
}

/// The value of an instance: its class and its fields.
pub struct InstanceView<N> {
    pub class: ClassView,
    pub fields: Seq<(Seq<char>, ValueView<N>)>,
}

/// An instance of a class, with its fields.
#[derive(Debug)]
pub struct Instance<N> {
    class: Class,
    fields: Vec<(String, Value<N>)>,
}

impl<N: LoxNumber> View for Instance<N> {
    type V = InstanceView<N>;

    closed spec fn view(&self) -> InstanceView<N> {
        InstanceView { class: self.class@, fields: pairs_view(self.fields@) }
    }
}

impl<N: LoxNumber> Instance<N> {
    /// An instance of `class` with no fields.
    pub fn new(class: Class) -> (i: Instance<N>)
        ensures
            i@ == (InstanceView::<N> { class: class@, fields: Seq::empty() }),
    {
        let i = Instance { class, fields: Vec::new() };
        proof {
            assert(i@.fields =~= Seq::<(Seq<char>, ValueView<N>)>::empty());
        }
        i
    }

    /// The fields, in the order they were first set.
    pub fn fields(&self) -> (r: &Vec<(String, Value<N>)>)
        ensures
            pairs_view(r@) == self@.fields,
    {
        &self.fields
    }

    pub fn class(&self) -> (c: &Class)
        ensures
            c@ == self@.class,
    {
        &self.class
    }

    /// The value of field `name`, where the instance has one.
    pub fn get_field(&self, name: &String) -> (r: Option<Value<N>>)
        ensures
            match r {
                Some(v) => lookup(self@.fields, name@) == Some(v@),
                None => lookup(self@.fields, name@) is None,
            },
    {
        match find_entry(&self.fields, name) {
            Some(i) => Some(self.fields[i].1.duplicate()),
            None => None,
        }
    }

    /// Sets field `name` to `value`.
    pub fn set(&mut self, name: &crate::token::Token, value: Value<N>)
        ensures
            final(self)@.class == old(self)@.class,
            final(self)@.fields == store(old(self)@.fields, name.lexeme@, value@),
    {
        store_entry(&mut self.fields, name.lexeme.clone(), value);
    }
}

} // verus!
