//! The lexically scoped environment: a stack of scopes, each a mapping from
//! symbol text to a resolved value.
//!
//! A scope is stored as an association list where later entries win, and is
//! modelled by a `Map`. Lookup consults the top scope, then the global
//! scope, skipping any frames in between: a curried function carries its
//! captured arguments itself, so intermediate activation frames only live
//! for the duration of one call.
use vstd::prelude::*;
use crate::types::{value_model, Value, ValueM};

verus! {

broadcast use vstd::std_specs::vec::group_vec_axioms;

/// The model of an environment: one `Map` per scope, global scope first.
pub type EnvM = Seq<Map<Seq<char>, ValueM>>;

/// The bindings of one scope; a later entry shadows an earlier one.
pub open spec fn scope_model(s: Seq<(String, Value)>) -> Map<Seq<char>, ValueM>
    decreases s,
{
    if s.len() == 0 {
        Map::empty()
    } else {
        scope_model(s.drop_last()).insert(s.last().0@, value_model(s.last().1))
    }
}

/// The models of a stack of scopes.
pub open spec fn scopes_model(s: Seq<Vec<(String, Value)>>) -> EnvM
    decreases s,
{
    if s.len() == 0 {
        Seq::empty()
    } else {
        scopes_model(s.drop_last()).push(scope_model(s.last()@))
    }
}

/// Insert into the topmost scope.
pub open spec fn env_put(env: EnvM, k: Seq<char>, v: ValueM) -> EnvM {
    if env.len() == 0 {
        seq![Map::empty().insert(k, v)]
    } else {
        env.update(env.len() - 1, env.last().insert(k, v))
    }
}

/// Insert into the global scope.
pub open spec fn env_def(env: EnvM, k: Seq<char>, v: ValueM) -> EnvM {
    if env.len() == 0 {
        seq![Map::empty().insert(k, v)]
    } else {
        env.update(0, env[0].insert(k, v))
    }
}

/// Look a name up: the top scope first, then the global scope.
pub open spec fn env_lookup(env: EnvM, k: Seq<char>) -> Option<ValueM> {
    if env.len() == 0 {
        None
    } else if env.last().contains_key(k) {
        Some(env.last()[k])
    } else if env[0].contains_key(k) {
        Some(env[0][k])
    } else {
        None
    }
}

/// Open a fresh scope.
pub open spec fn env_push(env: EnvM) -> EnvM {
    env.push(Map::empty())
}

/// Close the topmost scope; the global scope is never dropped.
pub open spec fn env_pop(env: EnvM) -> EnvM {
    if env.len() <= 1 {
        env
    } else {
        env.drop_last()
    }
}

pub struct Environment {
    pub internal: Vec<Vec<(String, Value)>>,
}

impl View for Environment {
    type V = EnvM;

    open spec fn view(&self) -> EnvM {
        scopes_model(self.internal@)
    }
}

impl Environment {
    /// A fresh environment: just the empty global scope.
    pub fn new() -> (r: Environment)
        ensures
            r@ == seq![Map::<Seq<char>, ValueM>::empty()],
    {
        let mut internal: Vec<Vec<(String, Value)>> = Vec::new();
        internal.push(Vec::new());
        let r = Environment { internal };
        proof {
            assert(r.internal@.drop_last() =~= Seq::<Vec<(String, Value)>>::empty());
            assert(r.internal@.last()@ =~= Seq::<(String, Value)>::empty());
            assert(scopes_model(r.internal@.drop_last()) == Seq::<Map<Seq<char>, ValueM>>::empty());
            assert(scope_model(r.internal@.last()@) == Map::<Seq<char>, ValueM>::empty());
            assert(r@ =~~= seq![Map::<Seq<char>, ValueM>::empty()]);
        }
        r
    }

    /// Bind `k` in the topmost scope.
    pub fn put(&mut self, k: String, v: Value)
        ensures
            final(self)@ == env_put(old(self)@, k@, value_model(v)),
    {
        let ghost env0 = self@;
        match self.internal.pop() {
            None => {
                let mut scope: Vec<(String, Value)> = Vec::new();
                scope.push((k, v));
                self.internal.push(scope);
                proof {
                    lemma_scopes_model_index(old(self).internal@);
                    assert(env0.len() == 0);
                    assert(self.internal@.drop_last() =~= Seq::<Vec<(String, Value)>>::empty());
                    assert(scopes_model(self.internal@.drop_last()) == Seq::<
                        Map<Seq<char>, ValueM>,
                    >::empty());
                    assert(self.internal@.last()@.drop_last() =~= Seq::<(String, Value)>::empty());
                    assert(scope_model(self.internal@.last()@.drop_last()) == Map::<
                        Seq<char>,
                        ValueM,
                    >::empty());
                    assert(self.internal@.last()@.last() == (k, v));
                    assert(scope_model(self.internal@.last()@) == Map::empty().insert(
                        k@,
                        value_model(v),
                    ));
                    assert(self@ =~~= env_put(env0, k@, value_model(v)));
                }
            },
            Some(mut scope) => {
                let ghost scope0 = scope@;
                let ghost inner0 = self.internal@;
                scope.push((k, v));
                self.internal.push(scope);
                proof {
                    lemma_scopes_model_index(old(self).internal@);
                    lemma_scopes_model_index(self.internal@);
                    assert(scope@.drop_last() =~= scope0);
                    assert(scope@.last() == (k, v));
                    assert(scope_model(scope@) == scope_model(scope0).insert(k@, value_model(v)));
                    assert(self.internal@ =~= old(self).internal@.update(
                        old(self).internal@.len() - 1,
                        scope,
                    ));
                    assert(env0.len() >= 1);
                    assert(old(self).internal@.last()@ == scope0);
                    assert(env0.last() == scope_model(scope0));
                    assert forall|i: int| 0 <= i < self.internal@.len() implies self@[i] == env_put(
                        env0,
                        k@,
                        value_model(v),
                    )[i] by {
                        assert(self@[i] == scope_model(self.internal@[i]@));
                        assert(env0[i] == scope_model(old(self).internal@[i]@));
                        if i < self.internal@.len() - 1 {
                            assert(self.internal@[i] == old(self).internal@[i]);
                        } else {
                            assert(self.internal@[i] == scope);
                        }
                    }
                    assert(self@ =~~= env_put(env0, k@, value_model(v)));
                }
            },
        }
    }

    /// Bind `k` in the global scope; this is how `def` makes a binding
    /// visible everywhere.
    pub fn def(&mut self, k: String, v: Value)
        ensures
            final(self)@ == env_def(old(self)@, k@, value_model(v)),
    {
        let ghost env0 = self@;
        if self.internal.len() == 0 {
            let mut scope: Vec<(String, Value)> = Vec::new();
            scope.push((k, v));
            self.internal.push(scope);
            proof {
                lemma_scopes_model_index(old(self).internal@);
                assert(env0.len() == 0);
                assert(self.internal@.drop_last() =~= Seq::<Vec<(String, Value)>>::empty());
                assert(scopes_model(self.internal@.drop_last()) == Seq::<
                    Map<Seq<char>, ValueM>,
                >::empty());
                assert(self.internal@.last()@.drop_last() =~= Seq::<(String, Value)>::empty());
                assert(scope_model(self.internal@.last()@.drop_last()) == Map::<
                    Seq<char>,
                    ValueM,
                >::empty());
                assert(self.internal@.last()@.last() == (k, v));
                assert(self@ =~~= env_def(env0, k@, value_model(v)));
            }
        } else {
            let mut scope = self.internal.remove(0);
            let ghost scope0 = scope@;
            let ghost inner1 = self.internal@;
            scope.push((k, v));
            self.internal.insert(0, scope);
            proof {
                lemma_scopes_model_index(old(self).internal@);
                lemma_scopes_model_index(self.internal@);
                assert(scope@.drop_last() =~= scope0);
                assert(scope@.last() == (k, v));
                assert(scope_model(scope@) == scope_model(scope0).insert(k@, value_model(v)));
                assert(old(self).internal@[0]@ == scope0);
                assert(env0[0] == scope_model(scope0));
                assert(self.internal@ == inner1.insert(0, scope));
                assert forall|i: int| 0 <= i < self.internal@.len() implies self@[i] == env_def(
                    env0,
                    k@,
                    value_model(v),
                )[i] by {
                    assert(self@[i] == scope_model(self.internal@[i]@));
                    assert(env0[i] == scope_model(old(self).internal@[i]@));
                    if i == 0 {
                        assert(self.internal@[0] == scope);
                    } else {
                        assert(self.internal@[i] == inner1[i - 1]);
                        assert(inner1[i - 1] == old(self).internal@[i]);
                    }
                }
                assert(self@ =~~= env_def(env0, k@, value_model(v)));
            }
        }
    }

    /// The binding for `k`: the top scope first, then the global scope.
    pub fn get(&self, k: String) -> (r: Option<&Value>)
        ensures
            match env_lookup(self@, k@) {
                Some(vm) => r matches Some(v) && v@ == vm,
                None => r is None,
            },
    {
        proof {
            lemma_scopes_model_index(self.internal@);
        }
        let n = self.internal.len();
        if n == 0 {
            return None;
        }
        let top = &self.internal[n - 1];
        match Self::scope_get(top, &k) {
            Some(v) => Some(v),
            None => {
                let global = &self.internal[0];
                Self::scope_get(global, &k)
            },
        }
    }

    /// The last binding for `k` in one scope.
    fn scope_get<'a>(scope: &'a Vec<(String, Value)>, k: &String) -> (r: Option<&'a Value>)
        ensures
            scope_model(scope@).contains_key(k@) ==> (r matches Some(v) && v@ == scope_model(
                scope@,
            )[k@]),
            !scope_model(scope@).contains_key(k@) ==> r is None,
    {
        let ghost s = scope@;
        proof {
            assert(s.subrange(0, s.len() as int) =~= s);
        }
        let mut j = scope.len();
        while j > 0
            invariant
                0 <= j <= s.len(),
                scope@ == s,
                scope_model(s).contains_key(k@) == scope_model(s.subrange(0, j as int))
                    .contains_key(k@),
                scope_model(s).contains_key(k@) ==> scope_model(s.subrange(0, j as int))[k@]
                    == scope_model(s)[k@],
            decreases j,
        {
            j = j - 1;
            let pair = &scope[j];
            proof {
                let p = s.subrange(0, j as int + 1);
                assert(p.drop_last() =~= s.subrange(0, j as int));
                assert(p.last() == s[j as int]);
            }
            if pair.0 == *k {
                return Some(&pair.1);
            }
        }
        proof {
            assert(s.subrange(0, 0) =~= Seq::<(String, Value)>::empty());
        }
        None
    }

    /// Open a fresh scope for a function activation.
    pub fn push_env(&mut self)
        ensures
            final(self)@ == env_push(old(self)@),
    {
        self.internal.push(Vec::new());
        proof {
            assert(self.internal@.drop_last() =~= old(self).internal@);
            assert(self.internal@.last()@ =~= Seq::<(String, Value)>::empty());
            assert(scope_model(self.internal@.last()@) == Map::<Seq<char>, ValueM>::empty());
            assert(self@ =~~= env_push(old(self)@));
        }
    }

    /// Close the topmost scope; the global scope always survives.
    pub fn pop_env(&mut self) -> (r: Option<Vec<(String, Value)>>)
        ensures
            final(self)@ == env_pop(old(self)@),
            old(self)@.len() > 1 ==> (r matches Some(sc) && scope_model(sc@) == old(self)@.last()),
            old(self)@.len() <= 1 ==> r is None,
    {
        proof {
            lemma_scopes_model_index(self.internal@);
        }
        if self.internal.len() > 1 {
            let r = self.internal.pop();
            proof {
                assert(self.internal@ =~= old(self).internal@.drop_last());
                assert(scopes_model(self.internal@) =~~= old(self)@.drop_last());
            }
            r
        } else {
            None
        }
    }
}

/// The stack of scope models has one entry per scope, in order.
pub proof fn lemma_scopes_model_index(s: Seq<Vec<(String, Value)>>)
    ensures
        scopes_model(s).len() == s.len(),
        forall|i: int| 0 <= i < s.len() ==> scopes_model(s)[i] == scope_model(#[trigger] s[i]@),
    decreases s.len(),
{
    if s.len() > 0 {
        lemma_scopes_model_index(s.drop_last());
        assert forall|i: int| 0 <= i < s.len() implies scopes_model(s)[i] == scope_model(
            #[trigger] s[i]@,
        ) by {
            if i < s.len() - 1 {
                assert(s.drop_last()[i] == s[i]);
                assert(scopes_model(s)[i] == scopes_model(s.drop_last())[i]);
            } else {
                assert(s.last() == s[i]);
            }
        }
    }
}

} // verus!
