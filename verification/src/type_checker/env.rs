//! The scopes of names that the type checker sees.
use vstd::prelude::*;

use crate::ast::{CiprType, SpecType};

verus! {

/// A stack of scopes, each mapping names to types.
pub struct TypeEnv {
    scopes: Vec<Vec<(String, CiprType)>>,
}

/// The type of `name` in the innermost of `scopes` that binds it.
pub open spec fn lookup(scopes: Seq<Map<Seq<char>, SpecType>>, name: Seq<char>) -> Option<SpecType>
    decreases scopes.len(),
{
    if scopes.len() == 0 {
        None
    } else if scopes.last().contains_key(name) {
        Some(scopes.last()[name])
    } else {
        lookup(scopes.drop_last(), name)
    }
}

/// The bindings of one scope as a map.
pub open spec fn scope_map(s: Seq<(String, CiprType)>) -> Map<Seq<char>, SpecType>
    decreases s.len(),
{
    if s.len() == 0 {
        Map::empty()
    } else {
        scope_map(s.drop_last()).insert(s.last().0@, s.last().1@)
    }
}

/// No name is bound twice in one scope.
pub open spec fn distinct_names(s: Seq<(String, CiprType)>) -> bool {
    forall|i: int, j: int| 0 <= i < j < s.len() ==> s[i].0@ != s[j].0@
}

proof fn lemma_scope_map_contains(s: Seq<(String, CiprType)>, name: Seq<char>)
    requires
        distinct_names(s),
    ensures
        scope_map(s).contains_key(name) <==> exists|i: int| 0 <= i < s.len() && s[i].0@ == name,
        forall|i: int| 0 <= i < s.len() && s[i].0@ == name ==> scope_map(s)[name] == s[i].1@,
    decreases s.len(),
{
    if s.len() > 0 {
        let p = s.drop_last();
        assert(distinct_names(p));
        lemma_scope_map_contains(p, name);
        if scope_map(p).contains_key(name) {
            let i = choose|i: int| 0 <= i < p.len() && p[i].0@ == name;
            assert(s[i] == p[i]);
        }
        assert forall|i: int| 0 <= i < s.len() && s[i].0@ == name implies scope_map(s)[name] == s[i].1@ by {
            if i < s.len() - 1 {
                assert(s[i] == p[i]);
            }
        }
        if exists|i: int| 0 <= i < s.len() && s[i].0@ == name {
            let i = choose|i: int| 0 <= i < s.len() && s[i].0@ == name;
            if i < s.len() - 1 {
                assert(s[i] == p[i]);
            }
        }
    }
}

proof fn lemma_scope_map_update(s: Seq<(String, CiprType)>, k: int, v: (String, CiprType))
    requires
        distinct_names(s),
        0 <= k < s.len(),
        s[k].0@ == v.0@,
    ensures
        distinct_names(s.update(k, v)),
        scope_map(s.update(k, v)) == scope_map(s).insert(v.0@, v.1@),
    decreases s.len(),
{
    let t = s.update(k, v);
    assert(distinct_names(t)) by {
        assert forall|i: int, j: int| 0 <= i < j < t.len() implies t[i].0@ != t[j].0@ by {
            assert(s[i].0@ != s[j].0@);
        }
    }
    if k == s.len() - 1 {
        assert(t.drop_last() =~= s.drop_last());
        lemma_scope_map_contains(s.drop_last(), v.0@);
        assert(distinct_names(s.drop_last()));
        assert(!scope_map(s.drop_last()).contains_key(v.0@)) by {
            if scope_map(s.drop_last()).contains_key(v.0@) {
                let i = choose|i: int| 0 <= i < s.drop_last().len() && s.drop_last()[i].0@ == v.0@;
                assert(s[i].0@ == s[k].0@);
            }
        }
        assert(scope_map(t) =~= scope_map(s).insert(v.0@, v.1@));
    } else {
        assert(t.drop_last() =~= s.drop_last().update(k, v));
        assert(distinct_names(s.drop_last()));
        lemma_scope_map_update(s.drop_last(), k, v);
        assert(s.last().0@ != v.0@);
        assert(scope_map(t) =~= scope_map(s).insert(v.0@, v.1@));
    }
}

impl TypeEnv {
    /// The scopes, outermost first.
    pub closed spec fn view_scopes(&self) -> Seq<Map<Seq<char>, SpecType>> {
        Seq::new(self.scopes@.len(), |i: int| scope_map(self.scopes@[i]@))
    }

    /// No scope binds a name twice.
    pub closed spec fn wf(&self) -> bool {
        forall|i: int| 0 <= i < self.scopes@.len() ==> distinct_names(#[trigger] self.scopes@[i]@)
    }

    /// One empty scope.
    pub fn new() -> (e: TypeEnv)
        ensures
            e.wf(),
            e.view_scopes() == seq![Map::<Seq<char>, SpecType>::empty()],
    {
        let mut scopes = Vec::new();
        scopes.push(Vec::new());
        let e = TypeEnv { scopes };
        assert(e.view_scopes() =~= seq![Map::<Seq<char>, SpecType>::empty()]);
        e
    }

    /// Opens a new innermost scope.
    pub fn enter_scope(&mut self)
        requires
            old(self).wf(),
        ensures
            final(self).wf(),
            final(self).view_scopes() == old(self).view_scopes().push(Map::empty()),
    {
        self.scopes.push(Vec::new());
        assert(self.view_scopes() =~= old(self).view_scopes().push(Map::empty()));
    }

    /// Closes the innermost scope, if there is one.
    pub fn exit_scope(&mut self)
        requires
            old(self).wf(),
        ensures
            final(self).wf(),
            final(self).view_scopes() == if old(self).view_scopes().len() == 0 {
                old(self).view_scopes()
            } else {
                old(self).view_scopes().drop_last()
            },
    {
        let _ = self.scopes.pop();
        assert(self.view_scopes() =~= if old(self).view_scopes().len() == 0 {
            old(self).view_scopes()
        } else {
            old(self).view_scopes().drop_last()
        });
    }

    /// The number of open scopes.
    pub fn depth(&self) -> (n: usize)
        ensures
            n == self.view_scopes().len(),
    {
        self.scopes.len()
    }

    /// Binds `name` to `value_type` in the innermost scope, replacing what it
    /// was bound to there.
    pub fn define(&mut self, name: &str, value_type: CiprType)
        requires
            old(self).wf(),
            old(self).view_scopes().len() > 0,
        ensures
            final(self).wf(),
            final(self).view_scopes() == old(self).view_scopes().update(
                old(self).view_scopes().len() - 1,
                old(self).view_scopes().last().insert(name@, value_type@),
            ),
            final(self).view_scopes().drop_last() == old(self).view_scopes().drop_last(),
    {
        let mut scope = self.scopes.pop().unwrap();
        let ghost s0 = scope@;
        proof {
            assert(old(self).scopes@.drop_last() == self.scopes@);
            assert(old(self).scopes@.last()@ == s0);
            assert(distinct_names(s0)) by {
                assert(old(self).scopes@[old(self).scopes@.len() - 1]@ == s0);
            }
        }
        let mut idx: usize = scope.len();
        let mut i: usize = 0;
        while i < scope.len()
            invariant
                i <= scope@.len(),
                scope@ == s0,
                idx == scope@.len() || idx < i,
                idx == scope@.len() ==> forall|k: int| 0 <= k < i ==> scope@[k].0@ != name@,
                idx < scope@.len() ==> scope@[idx as int].0@ == name@,
            decreases scope@.len() - i,
        {
            if idx == scope.len() && crate::text::str_eq(scope[i].0.as_str(), name) {
                idx = i;
            }
            i = i + 1;
        }
        let entry = (name.to_string(), value_type);
        let ghost ev = entry;
        if idx < scope.len() {
            scope.set(idx, entry);
            proof {
                lemma_scope_map_update(s0, idx as int, ev);
            }
        } else {
            scope.push(entry);
            proof {
                assert(scope@.drop_last() =~= s0);
                assert(distinct_names(scope@));
            }
        }
        let ghost s1 = scope@;
        self.scopes.push(scope);
        proof {
            assert(self.scopes@.len() == old(self).scopes@.len());
            assert(self.scopes@.last()@ == s1);
            assert forall|k: int| 0 <= k < self.scopes@.len() implies distinct_names(#[trigger] self.scopes@[k]@) by {
                if k < self.scopes@.len() - 1 {
                    assert(self.scopes@[k] == old(self).scopes@[k]);
                }
            }
            assert(self.view_scopes() =~= old(self).view_scopes().update(
                old(self).view_scopes().len() - 1,
                old(self).view_scopes().last().insert(name@, value_type@),
            ));
            assert(self.view_scopes().drop_last() =~= old(self).view_scopes().drop_last());
        }
    }

    /// Whether `scope` binds `name`, and at which position.
    fn find_in_scope(scope: &Vec<(String, CiprType)>, name: &str) -> (r: Option<usize>)
        requires
            distinct_names(scope@),
        ensures
            match r {
                Some(k) => k < scope@.len() && scope@[k as int].0@ == name@ && scope_map(scope@).contains_key(name@)
                    && scope_map(scope@)[name@] == scope@[k as int].1@,
                None => !scope_map(scope@).contains_key(name@),
            },
    {
        proof {
            lemma_scope_map_contains(scope@, name@);
        }
        let mut i: usize = 0;
        while i < scope.len()
            invariant
                i <= scope@.len(),
                distinct_names(scope@),
                forall|k: int| 0 <= k < i ==> scope@[k].0@ != name@,
            decreases scope@.len() - i,
        {
            if crate::text::str_eq(scope[i].0.as_str(), name) {
                proof {
                    lemma_scope_map_contains(scope@, name@);
                    assert(0 <= i < scope@.len() && scope@[i as int].0@ == name@);
                    assert(exists|k: int| 0 <= k < scope@.len() && scope@[k].0@ == name@);
                }
                return Some(i);
            }
            i = i + 1;
        }
        None
    }

    /// The type of `name` in the innermost scope that binds it.
    pub fn get(&self, name: &str) -> (r: Option<CiprType>)
        requires
            self.wf(),
        ensures
            match r {
                Some(t) => lookup(self.view_scopes(), name@) == Some(t@),
                None => lookup(self.view_scopes(), name@) is None,
            },
    {
        let mut j: usize = self.scopes.len();
        proof {
            assert(self.view_scopes().take(j as int) =~= self.view_scopes());
        }
        while j > 0
            invariant
                self.wf(),
                j <= self.scopes@.len(),
                lookup(self.view_scopes(), name@) == lookup(self.view_scopes().take(j as int), name@),
            decreases j,
        {
            let ghost pre = self.view_scopes().take(j as int);
            proof {
                assert(pre.drop_last() =~= self.view_scopes().take(j - 1));
                assert(pre.last() == scope_map(self.scopes@[j - 1]@));
                assert(distinct_names(self.scopes@[j - 1]@));
            }
            match Self::find_in_scope(&self.scopes[j - 1], name) {
                Some(k) => {
                    return Some(self.scopes[j - 1][k].1.duplicate());
                },
                None => {},
            }
            j = j - 1;
        }
        None
    }
}


/// A name defined in the innermost scope is found with the type it was
/// given, whatever outer scopes bind it to.
pub proof fn law_define_then_get(scopes: Seq<Map<Seq<char>, SpecType>>, name: Seq<char>, t: SpecType)
    requires
        scopes.len() > 0,
    ensures
        lookup(scopes.update(scopes.len() - 1, scopes.last().insert(name, t)), name) == Some(t),
{
    let s = scopes.update(scopes.len() - 1, scopes.last().insert(name, t));
    assert(s.last() == scopes.last().insert(name, t));
}

/// Defining one name leaves what every other name is found as unchanged.
pub proof fn law_define_keeps_other_names(
    scopes: Seq<Map<Seq<char>, SpecType>>,
    name: Seq<char>,
    t: SpecType,
    other: Seq<char>,
)
    requires
        scopes.len() > 0,
        other != name,
    ensures
        lookup(scopes.update(scopes.len() - 1, scopes.last().insert(name, t)), other) == lookup(scopes, other),
{
    let s = scopes.update(scopes.len() - 1, scopes.last().insert(name, t));
    assert(s.drop_last() =~= scopes.drop_last());
}

/// A new scope hides nothing: every name is found as before.
pub proof fn law_enter_scope_keeps_lookups(scopes: Seq<Map<Seq<char>, SpecType>>, name: Seq<char>)
    ensures
        lookup(scopes.push(Map::empty()), name) == lookup(scopes, name),
{
    assert(scopes.push(Map::empty()).drop_last() =~= scopes);
}

/// Whatever was defined in it, closing a scope (`exit_scope`) right after
/// it was opened (`enter_scope`) gives back the scopes there were before.
pub proof fn law_exit_scope_restores(scopes: Seq<Map<Seq<char>, SpecType>>, inner: Map<Seq<char>, SpecType>)
    ensures
        (if scopes.push(inner).len() == 0 {
            scopes.push(inner)
        } else {
            scopes.push(inner).drop_last()
        }) == scopes,
{
    assert(scopes.push(inner).drop_last() =~= scopes);
}

/// Closing a scope that was opened gives back the scopes there were, and
/// so what each name is found as before the scope was opened: what a
/// block defines does not outlive it.
pub proof fn law_exit_undoes_enter(scopes: Seq<Map<Seq<char>, SpecType>>, inner: Map<Seq<char>, SpecType>, name: Seq<char>)
    ensures
        scopes.push(inner).drop_last() == scopes,
        lookup(scopes.push(inner).drop_last(), name) == lookup(scopes, name),
{
    assert(scopes.push(inner).drop_last() =~= scopes);
}

/// The scopes after defining each binding of `defs` in turn in the
/// innermost scope, as [`TypeEnv::define`] does.
pub open spec fn define_all(
    scopes: Seq<Map<Seq<char>, SpecType>>,
    defs: Seq<(Seq<char>, SpecType)>,
) -> Seq<Map<Seq<char>, SpecType>>
    decreases defs.len(),
{
    if defs.len() == 0 || scopes.len() == 0 {
        scopes
    } else {
        let s = define_all(scopes, defs.drop_last());
        s.update(s.len() - 1, s.last().insert(defs.last().0, defs.last().1))
    }
}

/// Defining names touches only the innermost scope.
proof fn lemma_define_all_inner(scopes: Seq<Map<Seq<char>, SpecType>>, defs: Seq<(Seq<char>, SpecType)>)
    ensures
        define_all(scopes, defs).len() == scopes.len(),
        define_all(scopes, defs).drop_last() == scopes.drop_last(),
    decreases defs.len(),
{
    if defs.len() > 0 && scopes.len() > 0 {
        lemma_define_all_inner(scopes, defs.drop_last());
        let s = define_all(scopes, defs.drop_last());
        let t = s.update(s.len() - 1, s.last().insert(defs.last().0, defs.last().1));
        assert(t.drop_last() =~= s.drop_last());
    }
}

/// Closing a scope undoes every definition made in it: after a scope is
/// opened and any sequence of names is defined in it, closing it gives back
/// the scopes there were, so that every name is found as it was before the
/// scope was opened.
pub proof fn law_exit_undoes_defines(
    scopes: Seq<Map<Seq<char>, SpecType>>,
    defs: Seq<(Seq<char>, SpecType)>,
    name: Seq<char>,
)
    ensures
        define_all(scopes.push(Map::empty()), defs).drop_last() == scopes,
        lookup(define_all(scopes.push(Map::empty()), defs).drop_last(), name) == lookup(scopes, name),
{
    lemma_define_all_inner(scopes.push(Map::empty()), defs);
    assert(scopes.push(Map::empty()).drop_last() =~= scopes);
}

} // verus!
