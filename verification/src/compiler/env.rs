//! Variable scopes. All the scopes of a program live in one environment,
//! and each is named by its index there, so that closures, call frames and
//! child scopes can share an enclosing scope. A scope is created after the
//! scope that encloses it and is never removed: it outlives whatever
//! refers to it.

use crate::compiler::error::{internal_error, runtime_error, ErrorView, LoxError, LoxErrorKind};
use crate::compiler::expr::{Object, Value};
use crate::compiler::token::Token;
use vstd::prelude::*;
use vstd::string::*;

verus! {

/// The name of a scope: its index in the environment.
pub type EnvRef = usize;

/// A scope as plain mathematical data.
pub struct Scope {
    pub enclosing: Option<EnvRef>,
    pub bindings: Map<Seq<char>, Value>,
}

/// One scope: its bindings, and the name of the scope that encloses it.
#[derive(Debug)]
pub struct Frame {
    pub enclosing: Option<EnvRef>,
    pub names: Vec<String>,
    pub values: Vec<Object>,
}

/// The index of the last of `names` that equals `name`.
pub open spec fn last_index(names: Seq<String>, name: Seq<char>) -> Option<int>
    decreases names.len(),
{
    if names.len() == 0 {
        None
    } else if names.last()@ == name {
        Some(names.len() - 1)
    } else {
        last_index(names.drop_last(), name)
    }
}

/// Where `last_index` finds a name, the name stands; where it finds none, the
/// name stands nowhere.
pub proof fn lemma_last_index(names: Seq<String>, name: Seq<char>)
    ensures
        last_index(names, name) matches Some(i) ==> 0 <= i < names.len() && names[i]@ == name,
        last_index(names, name) is None ==> forall|i: int|
            0 <= i < names.len() ==> (#[trigger] names[i])@ != name,
    decreases names.len(),
{
    if names.len() > 0 && names.last()@ != name {
        lemma_last_index(names.drop_last(), name);
        if last_index(names, name) is None {
            assert forall|i: int| 0 <= i < names.len() implies (#[trigger] names[i])@ != name by {
                if i < names.len() - 1 {
                    assert(names.drop_last()[i] == names[i]);
                }
            }
        }
    }
}

impl Frame {
    /// The names and the values belong together one to one.
    pub open spec fn wf(&self) -> bool {
        self.names@.len() == self.values@.len()
    }

    /// The bindings: each name is bound to the value written for it last.
    pub open spec fn bindings(&self) -> Map<Seq<char>, Value> {
        Map::new(
            |name: Seq<char>| last_index(self.names@, name) is Some,
            |name: Seq<char>| self.values@[last_index(self.names@, name).unwrap()]@,
        )
    }
}

impl View for Frame {
    type V = Scope;

    open spec fn view(&self) -> Scope {
        Scope { enclosing: self.enclosing, bindings: self.bindings() }
    }
}

impl Frame {
    /// A scope without bindings that nothing encloses.
    pub fn new() -> (env: Self)
        ensures
            env.wf(),
            env@ == (Scope { enclosing: None, bindings: Map::empty() }),
    {
        let env = Frame { enclosing: None, names: Vec::new(), values: Vec::new() };
        assert(env.bindings() =~= Map::empty());
        env
    }

    /// Sets the scope that encloses this one.
    pub fn enclose(&mut self, enclosing: Option<EnvRef>)
        requires
            old(self).wf(),
        ensures
            final(self).wf(),
            final(self)@ == (Scope { enclosing, bindings: old(self)@.bindings }),
    {
        self.enclosing = enclosing;
    }

    /// Where `name` was bound last, if it is bound here.
    pub fn position(&self, name: &String) -> (r: Option<usize>)
        requires
            self.wf(),
        ensures
            r matches Some(i) ==> last_index(self.names@, name@) == Some(i as int) && i
                < self.values@.len(),
            r is None ==> last_index(self.names@, name@) is None,
            r is Some <==> self@.bindings.contains_key(name@),
    {
        let mut i: usize = self.names.len();
        assert(self.names@.take(i as int) =~= self.names@);
        while i > 0
            invariant
                self.wf(),
                i <= self.names.len(),
                last_index(self.names@, name@) == last_index(self.names@.take(i as int), name@),
            decreases i,
        {
            proof {
                lemma_last_index(self.names@, name@);
                let head = self.names@.take(i as int);
                assert(head.last() == self.names@[i - 1]);
                assert(head.drop_last() =~= self.names@.take(i - 1));
            }
            if self.names[i - 1] == *name {
                return Some(i - 1);
            }
            i -= 1;
        }
        None
    }

    /// Gives `name`, which is bound at `i`, the value `value`.
    fn set(&mut self, i: usize, name: &String, value: Object)
        requires
            old(self).wf(),
            last_index(old(self).names@, name@) == Some(i as int),
        ensures
            final(self).wf(),
            final(self)@ == (Scope {
                enclosing: old(self)@.enclosing,
                bindings: old(self)@.bindings.insert(name@, value@),
            }),
    {
        let ghost bound = value@;
        proof {
            lemma_last_index(self.names@, name@);
        }
        self.values[i] = value;
        proof {
            assert forall|n: Seq<char>| self.bindings().contains_key(n) implies self.bindings()[n]
                == old(self).bindings().insert(name@, bound)[n] by {
                lemma_last_index(old(self).names@, n);
            }
            assert(self.bindings() =~= old(self).bindings().insert(name@, bound));
        }
    }

    /// Binds `name` to `value` in this scope, whether or not it was bound.
    pub fn define(&mut self, name: String, value: Object)
        requires
            old(self).wf(),
        ensures
            final(self).wf(),
            final(self)@ == (Scope {
                enclosing: old(self)@.enclosing,
                bindings: old(self)@.bindings.insert(name@, value@),
            }),
    {
        let ghost key = name@;
        let ghost bound = value@;
        match self.position(&name) {
            Some(i) => self.set(i, &name, value),
            None => {
                self.names.push(name);
                self.values.push(value);
                proof {
                    assert(self.names@.drop_last() =~= old(self).names@);
                    assert forall|n: Seq<char>| self.bindings().contains_key(n) implies
                        self.bindings()[n] == old(self).bindings().insert(key, bound)[n] by {
                        if n != key {
                            lemma_last_index(old(self).names@, n);
                        }
                    }
                    assert(self.bindings() =~= old(self).bindings().insert(key, bound));
                }
            },
        }
    }

    /// The value bound to `name` here, if there is one.
    pub fn lookup(&self, name: &String) -> (r: Option<Object>)
        requires
            self.wf(),
        ensures
            r matches Some(v) ==> self@.bindings.contains_key(name@) && v@ == self@.bindings[name@],
            r is None ==> !self@.bindings.contains_key(name@),
    {
        match self.position(name) {
            Some(i) => Some(self.values[i].clone()),
            None => None,
        }
    }

    /// Gives `name` the value `value` if it is bound here, and says whether
    /// it is.
    pub fn update(&mut self, name: &String, value: Object) -> (r: bool)
        requires
            old(self).wf(),
        ensures
            final(self).wf(),
            r == old(self)@.bindings.contains_key(name@),
            r ==> final(self)@ == (Scope {
                enclosing: old(self)@.enclosing,
                bindings: old(self)@.bindings.insert(name@, value@),
            }),
            !r ==> final(self)@ == old(self)@,
    {
        match self.position(name) {
            Some(i) => {
                self.set(i, name, value);
                true
            },
            None => false,
        }
    }
}

/// Every scope is enclosed by an earlier one, if by any.
pub open spec fn well_linked(scopes: Seq<Scope>) -> bool {
    forall|i: int|
        0 <= i < scopes.len() ==> match (#[trigger] scopes[i]).enclosing {
            Some(p) => p < i,
            None => true,
        }
}

/// The scope reached from `env` by `distance` steps to the enclosing scope.
pub open spec fn ancestor_of(scopes: Seq<Scope>, env: nat, distance: nat) -> Option<nat>
    decreases distance,
{
    if env >= scopes.len() {
        None
    } else if distance == 0 {
        Some(env)
    } else {
        match scopes[env as int].enclosing {
            Some(p) => ancestor_of(scopes, p as nat, (distance - 1) as nat),
            None => None,
        }
    }
}

/// The nearest scope, from `env` outward, that binds `name`.
pub open spec fn owner_of(scopes: Seq<Scope>, env: nat, name: Seq<char>) -> Option<nat>
    decreases env,
{
    if env >= scopes.len() {
        None
    } else if scopes[env as int].bindings.contains_key(name) {
        Some(env)
    } else {
        match scopes[env as int].enclosing {
            Some(p) => if p < env {
                owner_of(scopes, p as nat, name)
            } else {
                None
            },
            None => None,
        }
    }
}

/// The scopes after `name` got the value `value` in scope `env`; the scopes
/// as they are where there is no scope `env`.
pub open spec fn bind(scopes: Seq<Scope>, env: nat, name: Seq<char>, value: Value) -> Seq<Scope> {
    if env < scopes.len() {
        scopes.update(
            env as int,
            Scope {
                enclosing: scopes[env as int].enclosing,
                bindings: scopes[env as int].bindings.insert(name, value),
            },
        )
    } else {
        scopes
    }
}

/// Whether the scope `after` is enclosed as the scope `before` is and binds
/// the same names.
pub open spec fn scope_kept(before: Scope, after: Scope) -> bool {
    after.enclosing == before.enclosing && after.bindings.dom() =~= before.bindings.dom()
}

/// Whether every scope of `before` is still there in `after`, enclosed as it
/// was and binding the names that it bound: the same names and no others,
/// except that scope `here`, if there is one, may bind more names than it
/// did. (The value of a name may have changed: names are assigned to.)
pub open spec fn kept_except(before: Seq<Scope>, after: Seq<Scope>, here: int) -> bool {
    &&& before.len() <= after.len()
    &&& forall|i: int|
        0 <= i < before.len() && i != here ==> scope_kept(before[i], #[trigger] after[i])
    &&& 0 <= here < before.len() ==> after[here].enclosing == before[here].enclosing
        && before[here].bindings.dom().subset_of(after[here].bindings.dom())
}

/// Whether every scope of `before` is still there in `after`, enclosed as it
/// was and binding the same names and no others.
pub open spec fn kept(before: Seq<Scope>, after: Seq<Scope>) -> bool {
    kept_except(before, after, -1)
}

/// The scope that `owner_of` finds is one of the scopes and binds the name.
pub proof fn lemma_owner_binds(scopes: Seq<Scope>, env: nat, name: Seq<char>)
    ensures
        owner_of(scopes, env, name) matches Some(o) ==> o < scopes.len() && scopes[o as int].bindings.contains_key(
            name,
        ),
    decreases env,
{
    if env < scopes.len() && !scopes[env as int].bindings.contains_key(name) {
        if let Some(p) = scopes[env as int].enclosing {
            if p < env {
                lemma_owner_binds(scopes, p as nat, name);
            }
        }
    }
}

/// The scope that `ancestor_of` finds is one of the scopes.
pub proof fn lemma_ancestor_is_scope(scopes: Seq<Scope>, env: nat, distance: nat)
    ensures
        ancestor_of(scopes, env, distance) matches Some(a) ==> a < scopes.len(),
    decreases distance,
{
    if env < scopes.len() && distance > 0 {
        if let Some(p) = scopes[env as int].enclosing {
            lemma_ancestor_is_scope(scopes, p as nat, (distance - 1) as nat);
        }
    }
}

/// Binding a name in scope `env` leaves every other scope as it was, and
/// scope `env` too, but for the value of the name, if it bound the name
/// already.
pub proof fn lemma_bind_keeps(scopes: Seq<Scope>, env: nat, name: Seq<char>, value: Value)
    ensures
        bind(scopes, env, name, value).len() == scopes.len(),
        kept_except(scopes, bind(scopes, env, name, value), env as int),
        env < scopes.len() && scopes[env as int].bindings.contains_key(name) ==> kept(
            scopes,
            bind(scopes, env, name, value),
        ),
{
    let after = bind(scopes, env, name, value);
    if env < scopes.len() {
        assert forall|i: int| 0 <= i < scopes.len() && i != env implies scope_kept(
            scopes[i],
            #[trigger] after[i],
        ) by {}
        if scopes[env as int].bindings.contains_key(name) {
            assert(after[env as int].bindings.dom() =~= scopes[env as int].bindings.dom());
            assert forall|i: int| 0 <= i < scopes.len() && i != -1 implies scope_kept(
                scopes[i],
                #[trigger] after[i],
            ) by {}
        }
    }
}

/// Assigning to a name leaves every scope enclosed as it was and binding
/// the names that it bound.
pub proof fn lemma_rebind_keeps(
    scopes: Seq<Scope>,
    env: nat,
    distance: nat,
    name: Seq<char>,
    value: Value,
)
    ensures
        kept(scopes, rebind(scopes, env, name, value)),
        rebind(scopes, env, name, value).len() == scopes.len(),
        kept(scopes, rebind_at(scopes, env, distance, name, value)),
        rebind_at(scopes, env, distance, name, value).len() == scopes.len(),
{
    lemma_owner_binds(scopes, env, name);
    lemma_ancestor_is_scope(scopes, env, distance);
    if let Some(o) = owner_of(scopes, env, name) {
        lemma_bind_keeps(scopes, o, name, value);
    }
    if let Some(a) = ancestor_of(scopes, env, distance) {
        lemma_bind_keeps(scopes, a, name, value);
    }
}

/// The error, raised at `token`, for a name that no scope in reach binds.
pub open spec fn undefined_variable(name: Seq<char>, token: Token) -> ErrorView {
    runtime_error(token, "Undefined variable '"@ + name + "'."@)
}

/// The error for a name that is missing from the scope in which static
/// resolution found it.
pub open spec fn unresolved_variable(name: Seq<char>) -> ErrorView {
    internal_error("undefined var: "@ + name)
}

/// What reading `name` from scope `env` outward gives; the error of a name
/// that is not bound is raised at `token`.
pub open spec fn read(scopes: Seq<Scope>, env: nat, name: Seq<char>, token: Token) -> Result<
    Value,
    ErrorView,
> {
    match owner_of(scopes, env, name) {
        Some(owner) => Ok(scopes[owner as int].bindings[name]),
        None => Err(undefined_variable(name, token)),
    }
}

/// What reading `name` in the scope `distance` steps out from `env` gives.
pub open spec fn read_at(scopes: Seq<Scope>, env: nat, distance: nat, name: Seq<char>) -> Result<
    Value,
    ErrorView,
> {
    match ancestor_of(scopes, env, distance) {
        Some(owner) => if scopes[owner as int].bindings.contains_key(name) {
            Ok(scopes[owner as int].bindings[name])
        } else {
            Err(unresolved_variable(name))
        },
        None => Err(unresolved_variable(name)),
    }
}

/// The scopes after assigning `value` to `name`, found from `env` outward;
/// unchanged where no scope binds the name.
pub open spec fn rebind(scopes: Seq<Scope>, env: nat, name: Seq<char>, value: Value) -> Seq<Scope> {
    match owner_of(scopes, env, name) {
        Some(owner) => bind(scopes, owner, name, value),
        None => scopes,
    }
}

/// The scopes after assigning `value` to `name` in the scope `distance`
/// steps out from `env`; unchanged where the name is not bound there.
pub open spec fn rebind_at(
    scopes: Seq<Scope>,
    env: nat,
    distance: nat,
    name: Seq<char>,
    value: Value,
) -> Seq<Scope> {
    match ancestor_of(scopes, env, distance) {
        Some(owner) => if scopes[owner as int].bindings.contains_key(name) {
            bind(scopes, owner, name, value)
        } else {
            scopes
        },
        None => scopes,
    }
}

/// The environment: all the scopes of an interpreter.
#[derive(Debug)]
pub struct Env {
    pub frames: Vec<Frame>,
}

impl View for Env {
    type V = Seq<Scope>;

    open spec fn view(&self) -> Seq<Scope> {
        Seq::new(self.frames@.len(), |i: int| self.frames@[i]@)
    }
}

impl Env {
    /// Every scope is well formed, and is enclosed by an earlier scope if by
    /// any.
    pub open spec fn wf(&self) -> bool {
        &&& forall|i: int| 0 <= i < self.frames@.len() ==> (#[trigger] self.frames@[i]).wf()
        &&& well_linked(self@)
    }

    /// An environment without scopes.
    pub fn new() -> (env: Self)
        ensures
            env.wf(),
            env@ == Seq::<Scope>::empty(),
    {
        let env = Env { frames: Vec::new() };
        assert(env@ =~= Seq::<Scope>::empty());
        env
    }

    /// How many scopes there are.
    pub fn len(&self) -> (n: usize)
        ensures
            n == self@.len(),
    {
        self.frames.len()
    }

    /// Adds a scope that nothing encloses, and returns its name.
    pub fn new_global(&mut self) -> (env: EnvRef)
        requires
            old(self).wf(),
        ensures
            final(self).wf(),
            env == old(self)@.len(),
            final(self)@ == old(self)@.push(Scope { enclosing: None, bindings: Map::empty() }),
    {
        let env = self.frames.len();
        self.frames.push(Frame::new());
        assert(self@ =~= old(self)@.push(Scope { enclosing: None, bindings: Map::empty() }));
        env
    }

    /// Adds an empty scope enclosed by `enclosing`, and returns its name.
    pub fn new_enclosed(&mut self, enclosing: EnvRef) -> (env: EnvRef)
        requires
            old(self).wf(),
            enclosing < old(self)@.len(),
        ensures
            final(self).wf(),
            env == old(self)@.len(),
            final(self)@ == old(self)@.push(
                Scope { enclosing: Some(enclosing), bindings: Map::empty() },
            ),
    {
        let env = self.frames.len();
        let mut scope = Frame::new();
        scope.enclose(Some(enclosing));
        self.frames.push(scope);
        assert(self@ =~= old(self)@.push(
            Scope { enclosing: Some(enclosing), bindings: Map::empty() },
        ));
        env
    }

    /// Binds `name` to `value` in scope `env`, whether or not it was bound.
    pub fn define(&mut self, env: EnvRef, name: String, value: Object)
        requires
            old(self).wf(),
            env < old(self)@.len(),
        ensures
            final(self).wf(),
            final(self)@ == bind(old(self)@, env as nat, name@, value@),
            final(self)@.len() == old(self)@.len(),
    {
        let ghost key = name@;
        let ghost bound = value@;
        let mut scope = Frame::new();
        std::mem::swap(&mut scope, &mut self.frames[env]);
        scope.define(name, value);
        self.frames[env] = scope;
        assert(self@ =~= bind(old(self)@, env as nat, key, bound));
        assert forall|i: int| 0 <= i < self@.len() implies match (#[trigger] self@[i]).enclosing {
            Some(p) => p < i,
            None => true,
        } by {
            assert(self@[i].enclosing == old(self)@[i].enclosing);
        }
    }

    /// The scope `distance` steps out from `env`.
    pub fn ancestor(&self, env: EnvRef, distance: usize) -> (r: Option<EnvRef>)
        requires
            self.wf(),
        ensures
            r matches Some(a) ==> ancestor_of(self@, env as nat, distance as nat) == Some(a as nat)
                && a < self@.len(),
            r is None ==> ancestor_of(self@, env as nat, distance as nat) is None,
    {
        let mut current = env;
        let mut left = distance;
        loop
            invariant
                self.wf(),
                ancestor_of(self@, env as nat, distance as nat) == ancestor_of(
                    self@,
                    current as nat,
                    left as nat,
                ),
            decreases left,
        {
            if current >= self.frames.len() {
                return None;
            }
            if left == 0 {
                return Some(current);
            }
            match self.frames[current].enclosing {
                Some(p) => {
                    current = p;
                    left -= 1;
                },
                None => {
                    return None;
                },
            }
        }
    }

    /// The nearest scope, from `env` outward, that binds `name`.
    pub fn owner(&self, env: EnvRef, name: &String) -> (r: Option<EnvRef>)
        requires
            self.wf(),
        ensures
            r matches Some(o) ==> owner_of(self@, env as nat, name@) == Some(o as nat) && o
                < self@.len() && self@[o as int].bindings.contains_key(name@),
            r is None ==> owner_of(self@, env as nat, name@) is None,
    {
        let mut current = env;
        loop
            invariant
                self.wf(),
                owner_of(self@, env as nat, name@) == owner_of(self@, current as nat, name@),
            decreases current,
        {
            if current >= self.frames.len() {
                return None;
            }
            assert(self@[current as int] == self.frames@[current as int]@);
            if self.frames[current].position(name).is_some() {
                return Some(current);
            }
            match self.frames[current].enclosing {
                Some(p) => {
                    current = p;
                },
                None => {
                    return None;
                },
            }
        }
    }

    /// Reads `name`, looking from `env` outward.
    pub fn get(&self, env: EnvRef, name: &String, token: &Token) -> (r: Result<Object, LoxError>)
        requires
            self.wf(),
        ensures
            value_or_error(r) == read(self@, env as nat, name@, *token),
    {
        match self.owner(env, name) {
            Some(o) => {
                assert(self@[o as int] == self.frames@[o as int]@);
                match self.frames[o].lookup(name) {
                    Some(v) => Ok(v),
                    None => Err(undefined(name, token)),
                }
            },
            None => Err(undefined(name, token)),
        }
    }

    /// Reads `name` in the scope `distance` steps out from `env`.
    pub fn get_at(&self, env: EnvRef, distance: usize, name: &String) -> (r: Result<
        Object,
        LoxError,
    >)
        requires
            self.wf(),
        ensures
            value_or_error(r) == read_at(self@, env as nat, distance as nat, name@),
    {
        match self.ancestor(env, distance) {
            Some(o) => {
                assert(self@[o as int] == self.frames@[o as int]@);
                match self.frames[o].lookup(name) {
                    Some(v) => Ok(v),
                    None => Err(unresolved(name)),
                }
            },
            None => Err(unresolved(name)),
        }
    }

    /// Assigns `value` to `name` in the nearest scope, from `env` outward,
    /// that binds it, and returns the value.
    pub fn assign(&mut self, env: EnvRef, name: &Token, value: Object) -> (r: Result<
        Object,
        LoxError,
    >)
        requires
            old(self).wf(),
        ensures
            final(self).wf(),
            final(self)@ == rebind(old(self)@, env as nat, name.lexeme@, value@),
            final(self)@.len() == old(self)@.len(),
            value_or_error(r) == match owner_of(old(self)@, env as nat, name.lexeme@) {
                Some(_) => Ok::<Value, ErrorView>(value@),
                None => Err::<Value, ErrorView>(undefined_variable(name.lexeme@, *name)),
            },
    {
        match self.owner(env, &name.lexeme) {
            Some(o) => {
                self.define(o, name.lexeme.clone(), value.clone());
                Ok(value)
            },
            None => Err(undefined(&name.lexeme, name)),
        }
    }

    /// Assigns `value` to `name` in the scope `distance` steps out from
    /// `env`, and returns the value.
    pub fn assign_at(&mut self, env: EnvRef, distance: usize, name: &Token, value: Object) -> (r:
        Result<Object, LoxError>)
        requires
            old(self).wf(),
        ensures
            final(self).wf(),
            final(self)@ == rebind_at(old(self)@, env as nat, distance as nat, name.lexeme@, value@),
            final(self)@.len() == old(self)@.len(),
            value_or_error(r) == match read_at(
                old(self)@,
                env as nat,
                distance as nat,
                name.lexeme@,
            ) {
                Ok(_) => Ok::<Value, ErrorView>(value@),
                Err(e) => Err::<Value, ErrorView>(e),
            },
    {
        match self.ancestor(env, distance) {
            Some(o) => {
                assert(self@[o as int] == self.frames@[o as int]@);
                if self.frames[o].position(&name.lexeme).is_some() {
                    self.define(o, name.lexeme.clone(), value.clone());
                    Ok(value)
                } else {
                    Err(unresolved(&name.lexeme))
                }
            },
            None => Err(unresolved(&name.lexeme)),
        }
    }
}

/// A result of the interpreter as plain mathematical data.
pub open spec fn value_or_error(r: Result<Object, LoxError>) -> Result<Value, ErrorView> {
    match r {
        Ok(v) => Ok(v@),
        Err(e) => Err(e@),
    }
}

/// The error, raised at `token`, for the name `name` that no scope in reach
/// binds.
pub fn undefined(name: &String, token: &Token) -> (e: LoxError)
    ensures
        e@ == undefined_variable(name@, *token),
{
    let mut message = String::from_str("Undefined variable '");
    message.append(name.as_str());
    message.append("'.");
    LoxError { kind: LoxErrorKind::Runtime, message, token: Some(token.clone()), line: None }
}

/// The error for a name that is missing from the scope in which static
/// resolution found it.
pub fn unresolved(name: &String) -> (e: LoxError)
    ensures
        e@ == unresolved_variable(name@),
{
    let mut message = String::from_str("undefined var: ");
    message.append(name.as_str());
    LoxError { kind: LoxErrorKind::Internal, message, token: None, line: None }
}

} // verus!
