//! The type-name environment: a mapping from type names to resolved
//! descriptors, built once per session and read-only thereafter. Named
//! references in descriptors resolve through it, which is the only way a
//! type may refer to itself.

use vstd::prelude::*;
use crate::error::Error;
use crate::types::Type;

verus! {

/// A session-scoped set of name/descriptor bindings with distinct names.
pub struct TypeEnv {
    pub bindings: Vec<(String, Type)>,
}

/// Whether `name` is bound somewhere in the binding list.
pub open spec fn env_has(bs: Seq<(String, Type)>, name: Seq<char>) -> bool {
    exists|i: int| 0 <= i < bs.len() && #[trigger] bs[i].0@ == name
}

/// The first binding of `name`, front to back.
pub open spec fn lookup_spec(bs: Seq<(String, Type)>, name: Seq<char>) -> Option<Type>
    decreases bs.len(),
{
    if bs.len() == 0 {
        None
    } else if bs[0].0@ == name {
        Some(bs[0].1)
    } else {
        lookup_spec(bs.skip(1), name)
    }
}

proof fn lemma_lookup_skip(bs: Seq<(String, Type)>, name: Seq<char>, i: int)
    requires
        0 <= i <= bs.len(),
        forall|j: int| 0 <= j < i ==> #[trigger] bs[j].0@ != name,
    ensures
        lookup_spec(bs, name) == lookup_spec(bs.skip(i), name),
    decreases i,
{
    if i > 0 {
        assert(bs[0].0@ != name);
        assert forall|j: int| 0 <= j < i - 1 implies #[trigger] bs.skip(1)[j].0@ != name by {
            assert(bs.skip(1)[j] == bs[j + 1]);
        }
        lemma_lookup_skip(bs.skip(1), name, i - 1);
        assert(bs.skip(1).skip(i - 1) =~= bs.skip(i));
    } else {
        assert(bs.skip(0) =~= bs);
    }
}

/// What bounded resolution yields: `t` itself when it is no reference,
/// otherwise the result of unfolding the name through the bindings, with
/// nothing left when a name dangles or `depth` unfoldings are not enough.
pub open spec fn resolve_spec(bs: Seq<(String, Type)>, t: Type, depth: nat) -> Option<Type>
    decreases depth,
{
    match t {
        Type::Var(n) => if depth == 0 {
            None
        } else {
            match lookup_spec(bs, n@) {
                None => None,
                Some(u) => resolve_spec(bs, u, (depth - 1) as nat),
            }
        },
        _ => Some(t),
    }
}

impl TypeEnv {
    /// An environment with no bindings.
    pub fn new() -> (r: TypeEnv)
        ensures
            r.bindings@.len() == 0,
    {
        TypeEnv { bindings: Vec::new() }
    }

    /// Adds one binding. Succeeds, appending it, exactly when the name is
    /// not yet bound: the environment is built once, never redefined.
    pub fn define(&mut self, name: &str, ty: Type) -> (r: Result<(), Error>)
        ensures
            match r {
                Ok(()) => {
                    &&& !env_has(old(self).bindings@, name@)
                    &&& final(self).bindings@.len() == old(self).bindings@.len() + 1
                    &&& final(self).bindings@.last().0@ == name@
                    &&& final(self).bindings@.last().1 == ty
                    &&& final(self).bindings@.drop_last() == old(self).bindings@
                },
                Err(e) => {
                    &&& e is TypeTable
                    &&& env_has(old(self).bindings@, name@)
                    &&& *final(self) == *old(self)
                },
            },
    {
        let key: String = name.to_owned();
        let mut i: usize = 0;
        while i < self.bindings.len()
            invariant
                i <= self.bindings@.len(),
                key@ == name@,
                forall|j: int| 0 <= j < i ==> #[trigger] self.bindings@[j].0@ != name@,
            decreases self.bindings@.len() - i,
        {
            let pair = &self.bindings[i];
            if pair.0 == key {
                return Err(Error::TypeTable("type name defined twice".to_owned()));
            }
            i = i + 1;
        }
        self.bindings.push((key, ty));
        proof {
            assert(self.bindings@.drop_last() =~= old(self).bindings@);
        }
        Ok(())
    }

    /// Looks a name up: a reference to the first bound type of that name
    /// exactly when the name is bound, nothing otherwise.
    pub fn find(&self, name: &str) -> (r: Option<&Type>)
        ensures
            match r {
                Some(t) => {
                    &&& lookup_spec(self.bindings@, name@) == Some(*t)
                    &&& env_has(self.bindings@, name@)
                },
                None => {
                    &&& lookup_spec(self.bindings@, name@) is None
                    &&& !env_has(self.bindings@, name@)
                },
            },
    {
        let key: String = name.to_owned();
        let mut i: usize = 0;
        while i < self.bindings.len()
            invariant
                i <= self.bindings@.len(),
                key@ == name@,
                forall|j: int| 0 <= j < i ==> #[trigger] self.bindings@[j].0@ != name@,
            decreases self.bindings@.len() - i,
        {
            let pair = &self.bindings[i];
            if pair.0 == key {
                proof {
                    lemma_lookup_skip(self.bindings@, name@, i as int);
                    assert(self.bindings@.skip(i as int)[0] == self.bindings@[i as int]);
                }
                return Some(&self.bindings[i].1);
            }
            i = i + 1;
        }
        proof {
            lemma_lookup_skip(self.bindings@, name@, self.bindings@.len() as int);
        }
        None
    }

    /// Follows named references until a non-reference descriptor appears,
    /// giving up after `depth` unfoldings: the bounded resolution that turns
    /// a reference cycle into a typed failure instead of unbounded work, and
    /// a dangling name into a `TypeTable` error.
    pub fn resolve<'a>(&'a self, t: &'a Type, depth: usize) -> (r: Result<&'a Type, Error>)
        ensures
            match r {
                Ok(u) => {
                    &&& resolve_spec(self.bindings@, *t, depth as nat) == Some(*u)
                    &&& !(*u is Var)
                },
                Err(e) => {
                    &&& e is TypeTable
                    &&& resolve_spec(self.bindings@, *t, depth as nat) is None
                },
            },
        decreases depth,
    {
        match t {
            Type::Var(n) => {
                if depth == 0 {
                    return Err(Error::TypeTable(
                        "reference resolution depth exceeded".to_owned()));
                }
                match self.find(n.as_str()) {
                    None => Err(Error::TypeTable("dangling named reference".to_owned())),
                    Some(u) => self.resolve(u, depth - 1),
                }
            },
            _ => Ok(t),
        }
    }
}

} // verus!
