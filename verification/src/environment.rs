use vstd::prelude::*;

use crate::error::RuntimeError;
use crate::token::Token;
use crate::value::{
    LoxNumber, Value, ValueView, find_entry, or_nil, lemma_store, lookup, pairs_view, store, store_entry,
};

verus! {

/// The value of one environment frame: its bindings and the handle of the
/// frame that encloses it.
pub struct FrameView<N> {
    pub values: Seq<(Seq<char>, ValueView<N>)>,
    pub enclosing: Option<usize>,
}

/// One frame of variable bindings.
#[derive(Debug)]
pub struct Environment<N> {
    values: Vec<(String, Value<N>)>,
    enclosing: Option<usize>,
}

impl<N: LoxNumber> View for Environment<N> {
    type V = FrameView<N>;

    closed spec fn view(&self) -> FrameView<N> {
        FrameView { values: pairs_view(self.values@), enclosing: self.enclosing }
    }
}

impl<N: LoxNumber> Environment<N> {
    /// A frame with no bindings and no enclosing frame.
    pub fn new() -> (e: Environment<N>)
        ensures
            e@.values.len() == 0,
            e@.enclosing is None,
    {
        let e = Environment { values: Vec::new(), enclosing: None };
        proof {
            assert(e@.values =~= Seq::<(Seq<char>, ValueView<N>)>::empty());
        }
        e
    }

    /// The frame, enclosed by the frame with handle `enclosing`.
    pub fn with_enclosing(self, enclosing: usize) -> (e: Environment<N>)
        ensures
            e@.values == self@.values,
            e@.enclosing == Some(enclosing),
    {
        let mut this = self;
        this.enclosing = Some(enclosing);
        this
    }

    /// Binds `k` to `v`, or to `nil` where `v` is `None`.
    pub fn define(&mut self, k: String, v: Option<Value<N>>)
        ensures
            final(self)@.enclosing == old(self)@.enclosing,
            final(self)@.values == store(old(self)@.values, k@, or_nil(v)),
    {
        let value = match v {
            Some(v) => v,
            None => Value::Nil,
        };
        store_entry(&mut self.values, k, value);
    }

    /// The value bound to `name` in this frame alone.
    pub fn get_local(&self, name: &String) -> (r: Option<Value<N>>)
        ensures
            match r {
                Some(v) => lookup(self@.values, name@) == Some(v@),
                None => lookup(self@.values, name@) is None,
            },
    {
        match find_entry(&self.values, name) {
            Some(i) => Some(self.values[i].1.duplicate()),
            None => None,
        }
    }

    pub fn enclosing(&self) -> (r: Option<usize>)
        ensures
            r == self@.enclosing,
    {
        self.enclosing
    }
}

/// A frame's enclosing frame has a smaller handle.
pub open spec fn frames_wf<N>(frames: Seq<FrameView<N>>) -> bool {
    forall|i: int|
        0 <= i < frames.len() ==> match #[trigger] frames[i].enclosing {
            Some(p) => p < i,
            None => true,
        }
}

/// The value `name` has, seen from frame `env`: the innermost binding along
/// the chain of enclosing frames.
pub open spec fn resolve<N>(frames: Seq<FrameView<N>>, env: int, name: Seq<char>) -> Option<
    ValueView<N>,
>
    decreases env,
{
    if env < 0 || env >= frames.len() {
        None
    } else {
        match lookup(frames[env].values, name) {
            Some(v) => Some(v),
            None => match frames[env].enclosing {
                Some(p) => if p < env {
                    resolve(frames, p as int, name)
                } else {
                    None
                },
                None => None,
            },
        }
    }
}

/// The frame that binds `name`, seen from frame `env`.
pub open spec fn binder<N>(frames: Seq<FrameView<N>>, env: int, name: Seq<char>) -> Option<int>
    decreases env,
{
    if env < 0 || env >= frames.len() {
        None
    } else {
        match lookup(frames[env].values, name) {
            Some(_) => Some(env),
            None => match frames[env].enclosing {
                Some(p) => if p < env {
                    binder(frames, p as int, name)
                } else {
                    None
                },
                None => None,
            },
        }
    }
}

/// The frame `distance` steps out from frame `env`.
pub open spec fn ancestor<N>(frames: Seq<FrameView<N>>, env: int, distance: nat) -> Option<int>
    decreases distance,
{
    if env < 0 || env >= frames.len() {
        None
    } else if distance == 0 {
        Some(env)
    } else {
        match frames[env].enclosing {
            Some(p) => ancestor(frames, p as int, (distance - 1) as nat),
            None => None,
        }
    }
}

/// The frames with `value` stored under `name` in frame `at`.
pub open spec fn store_at<N>(
    frames: Seq<FrameView<N>>,
    at: int,
    name: Seq<char>,
    value: ValueView<N>,
) -> Seq<FrameView<N>> {
    frames.update(
        at,
        FrameView { values: store(frames[at].values, name, value), enclosing: frames[at].enclosing },
    )
}

/// All frames of a running program, each known by its handle (its index).
pub struct Environments<N> {
    frames: Vec<Environment<N>>,
}

impl<N: LoxNumber> View for Environments<N> {
    type V = Seq<FrameView<N>>;

    closed spec fn view(&self) -> Seq<FrameView<N>> {
        Seq::new(self.frames@.len(), |i: int| self.frames@[i]@)
    }
}

impl<N: LoxNumber> Environments<N> {
    /// Holding just the global frame, with handle 0.
    pub fn new() -> (r: Environments<N>)
        ensures
            r@.len() == 1,
            r@[0].values.len() == 0,
            r@[0].enclosing is None,
            frames_wf(r@),
    {
        let mut frames = Vec::new();
        frames.push(Environment::new());
        Environments { frames }
    }

    pub fn len(&self) -> (r: usize)
        ensures
            r == self@.len(),
    {
        self.frames.len()
    }

    /// Adds a frame; its handle is returned.
    pub fn add(&mut self, env: Environment<N>) -> (h: usize)
        requires
            frames_wf(old(self)@),
            match env@.enclosing {
                Some(p) => p < old(self)@.len(),
                None => true,
            },
        ensures
            h == old(self)@.len(),
            final(self)@ == old(self)@.push(env@),
            frames_wf(final(self)@),
    {
        let h = self.frames.len();
        self.frames.push(env);
        proof {
            assert(self@ =~= old(self)@.push(env@));
        }
        h
    }

    /// Binds `name` to `value` in frame `env`.
    pub fn define(&mut self, env: usize, name: String, value: Option<Value<N>>)
        requires
            env < old(self)@.len(),
        ensures
            final(self)@ == store_at(old(self)@, env as int, name@, or_nil(value)),
            final(self)@.len() == old(self)@.len(),
            frames_wf(old(self)@) ==> frames_wf(final(self)@),
    {
        let ghost vv = or_nil(value);
        self.frames[env].define(name, value);
        proof {
            assert(self@ =~= store_at(old(self)@, env as int, name@, vv));
        }
    }

    /// The value of `name` seen from frame `env`, or `Undefined`.
    pub fn get(&self, env: usize, name: &Token) -> (r: Result<Value<N>, RuntimeError<N>>)
        requires
            frames_wf(self@),
        ensures
            match r {
                Ok(v) => resolve(self@, env as int, name.lexeme@) == Some(v@),
                Err(e) => resolve(self@, env as int, name.lexeme@) is None && e
                    == RuntimeError::<N>::Undefined { lexeme: name.lexeme },
            },
    {
        let mut e = env;
        loop
            invariant
                frames_wf(self@),
                resolve(self@, env as int, name.lexeme@) == resolve(
                    self@,
                    e as int,
                    name.lexeme@,
                ),
            decreases e,
        {
            if e >= self.frames.len() {
                return Err(RuntimeError::Undefined { lexeme: name.lexeme.clone() });
            }
            assert(self.frames@[e as int]@ == self@[e as int]);
            match self.frames[e].get_local(&name.lexeme) {
                Some(v) => {
                    return Ok(v);
                },
                None => match self.frames[e].enclosing() {
                    Some(p) => {
                        e = p;
                    },
                    None => {
                        return Err(RuntimeError::Undefined { lexeme: name.lexeme.clone() });
                    },
                },
            }
        }
    }

    /// The frame that binds `name`, seen from frame `env`.
    fn find_binder(&self, env: usize, name: &String) -> (r: Option<usize>)
        requires
            frames_wf(self@),
        ensures
            match r {
                Some(b) => binder(self@, env as int, name@) == Some(b as int),
                None => binder(self@, env as int, name@) is None,
            },
    {
        let mut e = env;
        loop
            invariant
                frames_wf(self@),
                binder(self@, env as int, name@) == binder(self@, e as int, name@),
            decreases e,
        {
            if e >= self.frames.len() {
                return None;
            }
            assert(self.frames@[e as int]@ == self@[e as int]);
            match find_entry(&self.frames[e].values, name) {
                Some(_) => {
                    return Some(e);
                },
                None => match self.frames[e].enclosing {
                    Some(p) => {
                        e = p;
                    },
                    None => {
                        return None;
                    },
                },
            }
        }
    }

    /// Stores `value` under `name` in the frame that binds it, seen from
    /// frame `env`; `Undefined` where no frame binds it.
    pub fn assign(&mut self, env: usize, name: &Token, value: &Value<N>) -> (r: Result<
        (),
        RuntimeError<N>,
    >)
        requires
            frames_wf(old(self)@),
        ensures
            frames_wf(final(self)@),
            final(self)@.len() == old(self)@.len(),
            match binder(old(self)@, env as int, name.lexeme@) {
                Some(b) => r is Ok && final(self)@ == store_at(
                    old(self)@,
                    b,
                    name.lexeme@,
                    value@,
                ),
                None => r == Err::<(), RuntimeError<N>>(
                    RuntimeError::Undefined { lexeme: name.lexeme },
                ) && final(self)@ == old(self)@,
            },
    {
        match self.find_binder(env, &name.lexeme) {
            Some(b) => {
                proof {
                    lemma_binder_in_range(self@, env as int, name.lexeme@);
                }
                self.define(b, name.lexeme.clone(), Some(value.duplicate()));
                Ok(())
            },
            None => Err(RuntimeError::Undefined { lexeme: name.lexeme.clone() }),
        }
    }

    /// The frame `distance` steps out from frame `env`.
    fn find_ancestor(&self, env: usize, distance: usize) -> (r: Option<usize>)
        requires
            frames_wf(self@),
        ensures
            match r {
                Some(a) => ancestor(self@, env as int, distance as nat) == Some(a as int),
                None => ancestor(self@, env as int, distance as nat) is None,
            },
    {
        let mut e = env;
        let mut d = distance;
        loop
            invariant
                frames_wf(self@),
                ancestor(self@, env as int, distance as nat) == ancestor(
                    self@,
                    e as int,
                    d as nat,
                ),
            decreases d,
        {
            if e >= self.frames.len() {
                return None;
            }
            if d == 0 {
                return Some(e);
            }
            assert(self.frames@[e as int]@ == self@[e as int]);
            match self.frames[e].enclosing {
                Some(p) => {
                    e = p;
                    d = d - 1;
                },
                None => {
                    return None;
                },
            }
        }
    }

    /// The value of `lexeme` in the frame `distance` steps out from frame
    /// `env`, looked up in that frame alone; `Undefined` where it is not
    /// bound there or there is no such frame.
    pub fn get_at(&self, env: usize, distance: usize, lexeme: &String) -> (r: Result<
        Value<N>,
        RuntimeError<N>,
    >)
        requires
            frames_wf(self@),
        ensures
            match ancestor(self@, env as int, distance as nat) {
                Some(a) => match lookup(self@[a].values, lexeme@) {
                    Some(v) => r matches Ok(x) && x@ == v,
                    None => r == Err::<Value<N>, RuntimeError<N>>(
                        RuntimeError::Undefined { lexeme: *lexeme },
                    ),
                },
                None => r == Err::<Value<N>, RuntimeError<N>>(
                    RuntimeError::Undefined { lexeme: *lexeme },
                ),
            },
    {
        match self.find_ancestor(env, distance) {
            Some(a) => {
                proof {
                    lemma_ancestor_in_range(self@, env as int, distance as nat);
                    assert(self.frames@[a as int]@ == self@[a as int]);
                }
                match self.frames[a].get_local(lexeme) {
                    Some(v) => Ok(v),
                    None => Err(RuntimeError::Undefined { lexeme: lexeme.clone() }),
                }
            },
            None => Err(RuntimeError::Undefined { lexeme: lexeme.clone() }),
        }
    }

    /// Stores `value` under `name` in the frame `distance` steps out from
    /// frame `env`, where that frame already binds it; `Undefined` otherwise.
    pub fn assign_at(&mut self, env: usize, distance: usize, name: &Token, value: Value<N>) -> (r:
        Result<(), RuntimeError<N>>)
        requires
            frames_wf(old(self)@),
        ensures
            frames_wf(final(self)@),
            final(self)@.len() == old(self)@.len(),
            match ancestor(old(self)@, env as int, distance as nat) {
                Some(a) => match lookup(old(self)@[a].values, name.lexeme@) {
                    Some(_) => r is Ok && final(self)@ == store_at(
                        old(self)@,
                        a,
                        name.lexeme@,
                        value@,
                    ),
                    None => r == Err::<(), RuntimeError<N>>(
                        RuntimeError::Undefined { lexeme: name.lexeme },
                    ) && final(self)@ == old(self)@,
                },
                None => r == Err::<(), RuntimeError<N>>(
                    RuntimeError::Undefined { lexeme: name.lexeme },
                ) && final(self)@ == old(self)@,
            },
    {
        match self.find_ancestor(env, distance) {
            Some(a) => {
                proof {
                    lemma_ancestor_in_range(self@, env as int, distance as nat);
                    assert(self.frames@[a as int]@ == self@[a as int]);
                }
                match find_entry(&self.frames[a].values, &name.lexeme) {
                    Some(_) => {
                        self.define(a, name.lexeme.clone(), Some(value));
                        Ok(())
                    },
                    None => Err(RuntimeError::Undefined { lexeme: name.lexeme.clone() }),
                }
            },
            None => Err(RuntimeError::Undefined { lexeme: name.lexeme.clone() }),
        }
    }

    /// The handle of the frame enclosing frame `env`.
    pub fn enclosing(&self, env: usize) -> (r: Option<usize>)
        requires
            env < self@.len(),
        ensures
            r == self@[env as int].enclosing,
    {
        assert(self.frames@[env as int]@ == self@[env as int]);
        self.frames[env].enclosing
    }
}

pub proof fn lemma_binder_in_range<N>(frames: Seq<FrameView<N>>, env: int, name: Seq<char>)
    ensures
        binder(frames, env, name) matches Some(b) ==> 0 <= b < frames.len() && lookup(
            frames[b].values,
            name,
        ) is Some,
    decreases env,
{
    if 0 <= env < frames.len() && lookup(frames[env].values, name) is None {
        match frames[env].enclosing {
            Some(p) => if p < env {
                lemma_binder_in_range(frames, p as int, name);
            },
            None => {},
        }
    }
}

pub proof fn lemma_ancestor_in_range<N>(frames: Seq<FrameView<N>>, env: int, distance: nat)
    ensures
        ancestor(frames, env, distance) matches Some(a) ==> 0 <= a < frames.len(),
    decreases distance,
{
    if 0 <= env < frames.len() && distance > 0 {
        match frames[env].enclosing {
            Some(p) => lemma_ancestor_in_range(frames, p as int, (distance - 1) as nat),
            None => {},
        }
    }
}

/// A variable defined in a frame reads back, from that frame, as the value it
/// was defined with, whatever outer frames bind under the same name.
pub proof fn law_define_then_get<N>(
    frames: Seq<FrameView<N>>,
    env: int,
    name: Seq<char>,
    value: ValueView<N>,
)
    requires
        0 <= env < frames.len(),
    ensures
        resolve(store_at(frames, env, name, value), env, name) == Some(value),
{
    lemma_store(frames[env].values, name, value, name);
}

/// Defining or assigning a name in some frame leaves what every other name
/// reads as, from every frame, unchanged.
pub proof fn law_store_keeps_other_names<N>(
    frames: Seq<FrameView<N>>,
    at: int,
    name: Seq<char>,
    value: ValueView<N>,
    env: int,
    other: Seq<char>,
)
    requires
        0 <= at < frames.len(),
        other != name,
    ensures
        resolve(store_at(frames, at, name, value), env, other) == resolve(frames, env, other),
    decreases env,
{
    let after = store_at(frames, at, name, value);
    if 0 <= env < frames.len() {
        if env == at {
            lemma_store(frames[at].values, name, value, other);
        }
        assert(after[env].enclosing == frames[env].enclosing);
        match frames[env].enclosing {
            Some(p) => if p < env {
                law_store_keeps_other_names(frames, at, name, value, p as int, other);
            },
            None => {},
        }
    }
}

/// After an assignment to a variable that a frame can see, the variable reads
/// back, from that frame, as the assigned value.
pub proof fn law_assign_then_get<N>(
    frames: Seq<FrameView<N>>,
    env: int,
    name: Seq<char>,
    value: ValueView<N>,
)
    requires
        binder(frames, env, name) is Some,
    ensures
        resolve(
            store_at(frames, binder(frames, env, name)->0, name, value),
            env,
            name,
        ) == Some(value),
    decreases env,
{
    let b = binder(frames, env, name)->0;
    lemma_binder_in_range(frames, env, name);
    let after = store_at(frames, b, name, value);
    if env == b {
        lemma_store(frames[b].values, name, value, name);
    } else {
        assert(after[env] == frames[env]);
        match frames[env].enclosing {
            Some(p) => {
                assert(binder(frames, p as int, name) == Some(b));
                law_assign_then_get(frames, p as int, name, value);
            },
            None => {},
        }
    }
}

/// After an assignment at a distance, reading the variable at that distance
/// gives the assigned value.
pub proof fn law_assign_at_then_get_at<N>(
    frames: Seq<FrameView<N>>,
    env: int,
    distance: nat,
    name: Seq<char>,
    value: ValueView<N>,
)
    requires
        ancestor(frames, env, distance) is Some,
    ensures
        ({
            let a = ancestor(frames, env, distance)->0;
            let after = store_at(frames, a, name, value);
            &&& ancestor(after, env, distance) == Some(a)
            &&& lookup(after[a].values, name) == Some(value)
        }),
    decreases distance,
{
    let a = ancestor(frames, env, distance)->0;
    lemma_ancestor_in_range(frames, env, distance);
    let after = store_at(frames, a, name, value);
    lemma_store(frames[a].values, name, value, name);
    lemma_ancestor_same_links(frames, after, env, distance);
}

/// Frames with the same links have the same ancestors.
pub proof fn lemma_ancestor_same_links<N>(
    f1: Seq<FrameView<N>>,
    f2: Seq<FrameView<N>>,
    env: int,
    distance: nat,
)
    requires
        f1.len() == f2.len(),
        forall|i: int| 0 <= i < f1.len() ==> f1[i].enclosing == f2[i].enclosing,
    ensures
        ancestor(f1, env, distance) == ancestor(f2, env, distance),
    decreases distance,
{
    if 0 <= env < f1.len() && distance > 0 {
        match f1[env].enclosing {
            Some(p) => lemma_ancestor_same_links(f1, f2, p as int, (distance - 1) as nat),
            None => {},
        }
    }
}

} // verus!
