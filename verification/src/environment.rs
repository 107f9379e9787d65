//! The scopes that a running program's variables live in. Each scope knows
//! the scope that encloses it; scopes are never freed, so a function keeps
//! the scope it was declared in for as long as it can be called.
use vstd::prelude::*;

use crate::interpreter::value::{RuntimeValue, SpecRuntime};
use crate::text::{push_str, str_eq};

verus! {

/// One scope: its variables, and the scope that encloses it.
pub struct Environment {
    values: Vec<(String, RuntimeValue)>,
    enclosing: Option<usize>,
}

/// Every scope created so far; a scope is named by its position.
pub struct Environments {
    scopes: Vec<Environment>,
}

/// The model of one scope: its variables, and the position of the scope
/// that encloses it (-1 for none).
pub struct ScopeModel {
    pub vars: Map<Seq<char>, SpecRuntime>,
    pub parent: int,
}

/// The variables of one scope as a map.
pub open spec fn var_map(s: Seq<(String, RuntimeValue)>) -> Map<Seq<char>, SpecRuntime>
    decreases s.len(),
{
    if s.len() == 0 {
        Map::empty()
    } else {
        var_map(s.drop_last()).insert(s.last().0@, s.last().1@)
    }
}

/// No name is defined twice in one scope.
pub open spec fn distinct_vars(s: Seq<(String, RuntimeValue)>) -> bool {
    forall|i: int, j: int| 0 <= i < j < s.len() ==> s[i].0@ != s[j].0@
}

/// The value of `name` seen from scope `at`: its value in the first scope
/// that defines it, going outwards.
pub open spec fn lookup_in(scopes: Seq<ScopeModel>, at: int, name: Seq<char>) -> Option<SpecRuntime>
    decreases at,
{
    if at < 0 || at >= scopes.len() {
        None
    } else if scopes[at].vars.contains_key(name) {
        Some(scopes[at].vars[name])
    } else if 0 <= scopes[at].parent < at {
        lookup_in(scopes, scopes[at].parent, name)
    } else {
        None
    }
}

/// The scope that an assignment to `name` from scope `at` writes: the first
/// that defines it, going outwards.
pub open spec fn assign_target(scopes: Seq<ScopeModel>, at: int, name: Seq<char>) -> Option<int>
    decreases at,
{
    if at < 0 || at >= scopes.len() {
        None
    } else if scopes[at].vars.contains_key(name) {
        Some(at)
    } else if 0 <= scopes[at].parent < at {
        assign_target(scopes, scopes[at].parent, name)
    } else {
        None
    }
}

/// The message for a variable that no scope defines.
pub open spec fn undefined_message(name: Seq<char>) -> Seq<char> {
    "Undefined variable '"@ + name + "'."@
}

proof fn lemma_var_map_contains(s: Seq<(String, RuntimeValue)>, name: Seq<char>)
    requires
        distinct_vars(s),
    ensures
        var_map(s).contains_key(name) <==> exists|i: int| 0 <= i < s.len() && s[i].0@ == name,
        forall|i: int| 0 <= i < s.len() && s[i].0@ == name ==> var_map(s)[name] == s[i].1@,
    decreases s.len(),
{
    if s.len() > 0 {
        let p = s.drop_last();
        assert(distinct_vars(p));
        lemma_var_map_contains(p, name);
        if var_map(p).contains_key(name) {
            let i = choose|i: int| 0 <= i < p.len() && p[i].0@ == name;
            assert(s[i] == p[i]);
        }
        assert forall|i: int| 0 <= i < s.len() && s[i].0@ == name implies var_map(s)[name] == s[i].1@ by {
            if i < s.len() - 1 {
                assert(s[i] == p[i]);
            }
        }
        if exists|i: int| 0 <= i < s.len() && s[i].0@ == name {
            let i = choose|i: int| 0 <= i < s.len() && s[i].0@ == name;
            if i < s.len() - 1 {
                assert(s[i] == p[i]);
            }
        }
    }
}

proof fn lemma_var_map_update(s: Seq<(String, RuntimeValue)>, k: int, name: Seq<char>, v: SpecRuntime, t: Seq<(String, RuntimeValue)>)
    requires
        distinct_vars(s),
        0 <= k < s.len(),
        s[k].0@ == name,
        t.len() == s.len(),
        t[k].0@ == name,
        t[k].1@ == v,
        forall|i: int| 0 <= i < s.len() && i != k ==> t[i] == s[i],
    ensures
        distinct_vars(t),
        var_map(t) == var_map(s).insert(name, v),
    decreases s.len(),
{
    assert(distinct_vars(t)) by {
        assert forall|i: int, j: int| 0 <= i < j < t.len() implies t[i].0@ != t[j].0@ by {
            assert(s[i].0@ != s[j].0@);
        }
    }
    if k == s.len() - 1 {
        assert(t.drop_last() =~= s.drop_last());
        assert(distinct_vars(s.drop_last()));
        lemma_var_map_contains(s.drop_last(), name);
        assert(!var_map(s.drop_last()).contains_key(name)) by {
            if var_map(s.drop_last()).contains_key(name) {
                let i = choose|i: int| 0 <= i < s.drop_last().len() && s.drop_last()[i].0@ == name;
                assert(s[i].0@ == s[k].0@);
            }
        }
        assert(var_map(t) =~= var_map(s).insert(name, v));
    } else {
        assert(distinct_vars(s.drop_last()));
        lemma_var_map_update(s.drop_last(), k, name, v, t.drop_last());
        assert(s.last().0@ != name);
        assert(t.last() == s.last());
        assert(var_map(t) =~= var_map(s).insert(name, v));
    }
}

impl Environments {
    /// The scopes, by position.
    pub closed spec fn view_scopes(&self) -> Seq<ScopeModel> {
        Seq::new(
            self.scopes@.len(),
            |i: int|
                ScopeModel {
                    vars: var_map(self.scopes@[i].values@),
                    parent: match self.scopes@[i].enclosing {
                        Some(p) => p as int,
                        None => -1,
                    },
                },
        )
    }

    /// Every scope's enclosing scope comes before it, and no scope defines a
    /// name twice.
    pub closed spec fn wf(&self) -> bool {
        forall|i: int|
            0 <= i < self.scopes@.len() ==> {
                &&& distinct_vars(#[trigger] self.scopes@[i].values@)
                &&& (self.scopes@[i].enclosing matches Some(p) ==> p < i)
            }
    }

    /// The global scope alone, with no variables.
    pub fn new() -> (e: Environments)
        ensures
            e.wf(),
            e.view_scopes() == seq![ScopeModel { vars: Map::empty(), parent: -1 }],
    {
        let mut scopes: Vec<Environment> = Vec::new();
        scopes.push(Environment { values: Vec::new(), enclosing: None });
        let e = Environments { scopes };
        assert(var_map(e.scopes@[0].values@) =~= Map::<Seq<char>, SpecRuntime>::empty());
        assert(e.view_scopes() =~= seq![ScopeModel { vars: Map::empty(), parent: -1 }]);
        e
    }

    /// How many scopes there are.
    pub fn len(&self) -> (n: usize)
        ensures
            n == self.view_scopes().len(),
    {
        self.scopes.len()
    }

    /// Adds an empty scope enclosed by `enclosing` and gives its position.
    pub fn with_enclosing(&mut self, enclosing: usize) -> (at: usize)
        requires
            old(self).wf(),
            enclosing < old(self).view_scopes().len(),
            old(self).view_scopes().len() < usize::MAX,
        ensures
            final(self).wf(),
            at == old(self).view_scopes().len(),
            final(self).view_scopes() == old(self).view_scopes().push(
                ScopeModel { vars: Map::empty(), parent: enclosing as int },
            ),
    {
        let at = self.scopes.len();
        self.scopes.push(Environment { values: Vec::new(), enclosing: Some(enclosing) });
        proof {
            assert(var_map(self.scopes@[at as int].values@) =~= Map::<Seq<char>, SpecRuntime>::empty());
            assert forall|i: int| 0 <= i < self.scopes@.len() implies {
                &&& distinct_vars(#[trigger] self.scopes@[i].values@)
                &&& (self.scopes@[i].enclosing matches Some(p) ==> p < i)
            } by {
                if i < at {
                    assert(self.scopes@[i] == old(self).scopes@[i]);
                }
            }
            assert(self.view_scopes() =~= old(self).view_scopes().push(
                ScopeModel { vars: Map::empty(), parent: enclosing as int },
            ));
        }
        at
    }

    fn find_var(values: &Vec<(String, RuntimeValue)>, name: &str) -> (r: Option<usize>)
        requires
            distinct_vars(values@),
        ensures
            match r {
                Some(k) => k < values@.len() && values@[k as int].0@ == name@ && var_map(values@).contains_key(name@)
                    && var_map(values@)[name@] == values@[k as int].1@,
                None => !var_map(values@).contains_key(name@),
            },
    {
        proof {
            lemma_var_map_contains(values@, name@);
        }
        let mut i: usize = 0;
        while i < values.len()
            invariant
                i <= values@.len(),
                distinct_vars(values@),
                forall|k: int| 0 <= k < i ==> values@[k].0@ != name@,
            decreases values@.len() - i,
        {
            if str_eq(values[i].0.as_str(), name) {
                proof {
                    lemma_var_map_contains(values@, name@);
                    assert(0 <= i < values@.len() && values@[i as int].0@ == name@);
                }
                return Some(i);
            }
            i = i + 1;
        }
        None
    }

    /// Defines `name` as `value` in scope `at`, replacing what it was there.
    pub fn define(&mut self, at: usize, name: &str, value: RuntimeValue)
        requires
            old(self).wf(),
            at < old(self).view_scopes().len(),
        ensures
            final(self).wf(),
            final(self).view_scopes() == old(self).view_scopes().update(
                at as int,
                ScopeModel {
                    vars: old(self).view_scopes()[at as int].vars.insert(name@, value@),
                    parent: old(self).view_scopes()[at as int].parent,
                },
            ),
    {
        let ghost old_values = self.scopes@[at as int].values@;
        let ghost vv = value@;
        let mut scope = Environment { values: Vec::new(), enclosing: None };
        core::mem::swap(&mut scope, &mut self.scopes[at]);
        let ghost parent = scope.enclosing;
        proof {
            assert(scope.values@ == old_values);
            assert(parent == old(self).scopes@[at as int].enclosing);
            assert(distinct_vars(old_values)) by {
                assert(distinct_vars(old(self).scopes@[at as int].values@));
            }
        }
        match Self::find_var(&scope.values, name) {
            Some(k) => {
                scope.values.set(k, (name.to_string(), value));
                proof {
                    lemma_var_map_update(old_values, k as int, name@, vv, scope.values@);
                }
            },
            None => {
                scope.values.push((name.to_string(), value));
                proof {
                    assert(scope.values@.drop_last() =~= old_values);
                    lemma_var_map_contains(old_values, name@);
                    assert(distinct_vars(scope.values@));
                }
            },
        }
        let ghost new_values = scope.values@;
        proof {
            assert(distinct_vars(new_values));
            assert(scope.enclosing == parent);
        }
        self.scopes.set(at, scope);
        proof {
            assert(self.scopes@[at as int].values@ == new_values);
            assert forall|i: int| 0 <= i < self.scopes@.len() implies {
                &&& distinct_vars(#[trigger] self.scopes@[i].values@)
                &&& (self.scopes@[i].enclosing matches Some(p) ==> p < i)
            } by {
                if i != at {
                    assert(self.scopes@[i] == old(self).scopes@[i]);
                } else {
                    assert(self.scopes@[i].enclosing == old(self).scopes@[i].enclosing);
                    assert(distinct_vars(self.scopes@[i].values@));
                }
            }
            assert(self.view_scopes() =~= old(self).view_scopes().update(
                at as int,
                ScopeModel {
                    vars: old(self).view_scopes()[at as int].vars.insert(name@, vv),
                    parent: old(self).view_scopes()[at as int].parent,
                },
            )) by {
                assert forall|i: int| 0 <= i < self.scopes@.len() && i != at implies self.scopes@[i] == old(
                    self,
                ).scopes@[i] by {}
            }
            assert(self.wf());
        }
    }

    /// The value of `name` seen from scope `at`.
    pub fn lookup(&self, at: usize, name: &str) -> (r: Option<RuntimeValue>)
        requires
            self.wf(),
        ensures
            match r {
                Some(v) => lookup_in(self.view_scopes(), at as int, name@) == Some(v@),
                None => lookup_in(self.view_scopes(), at as int, name@) is None,
            },
        decreases at,
    {
        if at >= self.scopes.len() {
            return None;
        }
        proof {
            assert(distinct_vars(self.scopes@[at as int].values@));
        }
        match Self::find_var(&self.scopes[at].values, name) {
            Some(k) => Some(self.scopes[at].values[k].1.duplicate()),
            None => match self.scopes[at].enclosing {
                Some(p) => {
                    proof {
                        assert(p < at);
                    }
                    self.lookup(p, name)
                },
                None => None,
            },
        }
    }

    /// The value of `name` seen from scope `at`, or the message for an
    /// undefined variable.
    pub fn get(&self, at: usize, name: &str) -> (r: Result<RuntimeValue, String>)
        requires
            self.wf(),
        ensures
            match r {
                Ok(v) => lookup_in(self.view_scopes(), at as int, name@) == Some(v@),
                Err(m) => lookup_in(self.view_scopes(), at as int, name@) is None && m@ == undefined_message(name@),
            },
    {
        match self.lookup(at, name) {
            Some(v) => Ok(v),
            None => {
                let mut m = String::new();
                push_str(&mut m, "Undefined variable '");
                push_str(&mut m, name);
                push_str(&mut m, "'.");
                proof {
                    assert(m@ =~= undefined_message(name@));
                }
                Err(m)
            },
        }
    }

    /// Sets `name`, in the first scope from `at` outwards that defines it, to
    /// `value`; fails with the message for an undefined variable where no
    /// scope does.
    pub fn assign(&mut self, at: usize, name: &str, value: RuntimeValue) -> (r: Result<(), String>)
        requires
            old(self).wf(),
        ensures
            final(self).wf(),
            final(self).view_scopes().len() == old(self).view_scopes().len(),
            match assign_target(old(self).view_scopes(), at as int, name@) {
                Some(t) => r is Ok && final(self).view_scopes() == old(self).view_scopes().update(
                    t,
                    ScopeModel { vars: old(self).view_scopes()[t].vars.insert(name@, value@), parent: old(self).view_scopes()[t].parent },
                ),
                None => r matches Err(m) && m@ == undefined_message(name@) && final(self).view_scopes() == old(
                    self,
                ).view_scopes(),
            },
        decreases at,
    {
        if at >= self.scopes.len() {
            let mut m = String::new();
            push_str(&mut m, "Undefined variable '");
            push_str(&mut m, name);
            push_str(&mut m, "'.");
            assert(m@ =~= undefined_message(name@));
            return Err(m);
        }
        proof {
            assert(distinct_vars(self.scopes@[at as int].values@));
        }
        match Self::find_var(&self.scopes[at].values, name) {
            Some(_) => {
                self.define(at, name, value);
                Ok(())
            },
            None => match self.scopes[at].enclosing {
                Some(p) => {
                    proof {
                        assert(p < at);
                    }
                    self.assign(p, name, value)
                },
                None => {
                    let mut m = String::new();
                    push_str(&mut m, "Undefined variable '");
                    push_str(&mut m, name);
                    push_str(&mut m, "'.");
                    assert(m@ =~= undefined_message(name@));
                    Err(m)
                },
            },
        }
    }
}


/// A variable defined in scope `at` is found there with the value it was
/// given.
pub proof fn law_define_then_lookup(scopes: Seq<ScopeModel>, at: int, name: Seq<char>, v: SpecRuntime)
    requires
        0 <= at < scopes.len(),
    ensures
        lookup_in(
            scopes.update(at, ScopeModel { vars: scopes[at].vars.insert(name, v), parent: scopes[at].parent }),
            at,
            name,
        ) == Some(v),
{
}

/// Adding a scope changes nothing that the existing scopes see.
pub proof fn lemma_push_keeps_lookup(scopes: Seq<ScopeModel>, extra: ScopeModel, at: int, name: Seq<char>)
    requires
        0 <= at < scopes.len(),
    ensures
        lookup_in(scopes.push(extra), at, name) == lookup_in(scopes, at, name),
    decreases at,
{
    let s = scopes.push(extra);
    assert(s[at] == scopes[at]);
    if !scopes[at].vars.contains_key(name) && 0 <= scopes[at].parent < at {
        lemma_push_keeps_lookup(scopes, extra, scopes[at].parent, name);
    }
}

/// A new, empty scope sees each variable as the scope that encloses it
/// does: a block sees the variables around it.
pub proof fn law_new_scope_sees_enclosing(scopes: Seq<ScopeModel>, enclosing: int, name: Seq<char>)
    requires
        0 <= enclosing < scopes.len(),
    ensures
        lookup_in(scopes.push(ScopeModel { vars: Map::empty(), parent: enclosing }), scopes.len() as int, name)
            == lookup_in(scopes, enclosing, name),
{
    let s = scopes.push(ScopeModel { vars: Map::empty(), parent: enclosing });
    assert(!s[scopes.len() as int].vars.contains_key(name));
    lemma_push_keeps_lookup(scopes, ScopeModel { vars: Map::empty(), parent: enclosing }, enclosing, name);
}

/// After an assignment to a variable that some scope from `at` outwards
/// defines, the variable is found from `at` with the assigned value.
pub proof fn law_assign_then_lookup(scopes: Seq<ScopeModel>, at: int, name: Seq<char>, v: SpecRuntime)
    requires
        assign_target(scopes, at, name) is Some,
    ensures
        ({
            let t = assign_target(scopes, at, name)->0;
            lookup_in(
                scopes.update(t, ScopeModel { vars: scopes[t].vars.insert(name, v), parent: scopes[t].parent }),
                at,
                name,
            ) == Some(v)
        }),
    decreases at,
{
    let t = assign_target(scopes, at, name)->0;
    lemma_assign_target_bounds(scopes, at, name);
    let s = scopes.update(t, ScopeModel { vars: scopes[t].vars.insert(name, v), parent: scopes[t].parent });
    if scopes[at].vars.contains_key(name) {
        assert(t == at);
    } else {
        assert(t != at);
        assert(s[at] == scopes[at]);
        law_assign_then_lookup(scopes, scopes[at].parent, name, v);
    }
}

/// The scope an assignment writes is `at` or one that encloses it.
pub proof fn lemma_assign_target_bounds(scopes: Seq<ScopeModel>, at: int, name: Seq<char>)
    ensures
        assign_target(scopes, at, name) matches Some(t) ==> 0 <= t <= at < scopes.len(),
        assign_target(scopes, at, name) matches Some(t) ==> scopes[t].vars.contains_key(name),
    decreases at,
{
    if 0 <= at < scopes.len() && !scopes[at].vars.contains_key(name) && 0 <= scopes[at].parent < at {
        lemma_assign_target_bounds(scopes, scopes[at].parent, name);
    }
}

/// A variable can be assigned from `at` exactly when it can be read there.
pub proof fn law_assign_iff_defined(scopes: Seq<ScopeModel>, at: int, name: Seq<char>)
    ensures
        (assign_target(scopes, at, name) is Some) == (lookup_in(scopes, at, name) is Some),
    decreases at,
{
    if 0 <= at < scopes.len() && !scopes[at].vars.contains_key(name) && 0 <= scopes[at].parent < at {
        law_assign_iff_defined(scopes, scopes[at].parent, name);
    }
}

} // verus!
