//! The environment chain: scopes of bindings, innermost first.

use vstd::prelude::*;
use vstd::hash_map::StringHashMap;
use vstd::string::*;
use crate::interpreter::error::{RuntimeError, RuntimeErrorView, RuntimeResult};
use crate::interpreter::value::{Value, ValueView};
use crate::lexer::token::{Token, TokenView};

verus! {

/// The bindings of one scope.
pub type Scope = Map<Seq<char>, ValueView>;

/// One scope of bindings and the scope that encloses it, if any.
pub struct Environment {
    pub enclosing: Option<Box<Environment>>,
    pub values: StringHashMap<Value>,
}

/// The value that the innermost scope binding `name` gives it.
pub open spec fn lookup(scopes: Seq<Scope>, name: Seq<char>) -> Option<ValueView>
    decreases scopes.len(),
{
    if scopes.len() == 0 {
        None
    } else if scopes[0].contains_key(name) {
        Some(scopes[0][name])
    } else {
        lookup(scopes.drop_first(), name)
    }
}

/// The chain with `name` bound to `value` in the innermost scope.
pub open spec fn defined(scopes: Seq<Scope>, name: Seq<char>, value: ValueView) -> Seq<Scope> {
    scopes.update(0, scopes[0].insert(name, value))
}

/// The chain with `value` in place of the value that the innermost scope
/// binding `name` gave it; `None` if no scope binds `name`.
pub open spec fn assigned(scopes: Seq<Scope>, name: Seq<char>, value: ValueView) -> Option<
    Seq<Scope>,
>
    decreases scopes.len(),
{
    if scopes.len() == 0 {
        None
    } else if scopes[0].contains_key(name) {
        Some(scopes.update(0, scopes[0].insert(name, value)))
    } else {
        match assigned(scopes.drop_first(), name, value) {
            Some(outer) => Some(seq![scopes[0]] + outer),
            None => None,
        }
    }
}

/// The error for a name that no scope binds.
pub open spec fn undefined_variable(token: TokenView) -> RuntimeErrorView {
    RuntimeErrorView {
        line_number: token.line_number,
        message: "Undefined variable \""@ + token.token_type.lexeme() + "\"."@,
    }
}

impl Environment {
    /// The bindings of this scope.
    pub open spec fn bindings(&self) -> Scope {
        Map::new(
            |name: Seq<char>| self.values@.contains_key(name),
            |name: Seq<char>| self.values@[name]@,
        )
    }

    /// The scopes of the chain, innermost first.
    pub open spec fn scopes(&self) -> Seq<Scope>
        decreases self,
    {
        match self.enclosing {
            Some(outer) => seq![self.bindings()] + outer.scopes(),
            None => seq![self.bindings()],
        }
    }

    /// A new scope without bindings, enclosed by `enclosing`.
    pub fn new(enclosing: Option<Box<Environment>>) -> (env: Environment)
        ensures
            env.enclosing == enclosing,
            env.bindings() == Scope::empty(),
    {
        let env = Environment { values: StringHashMap::new(), enclosing };
        assert(env.bindings() =~= Scope::empty());
        env
    }

    /// Binds `name` in this scope, over any binding it has there.
    pub fn define(&mut self, name: &str, value: Value)
        ensures
            final(self).enclosing == old(self).enclosing,
            final(self).bindings() == old(self).bindings().insert(name@, value@),
            final(self).scopes() == defined(old(self).scopes(), name@, value@),
    {
        self.values.insert(name.to_string(), value);
        proof {
            assert(self.bindings() =~= old(self).bindings().insert(name@, value@));
            assert(self.scopes() =~= defined(old(self).scopes(), name@, value@));
        }
    }

    /// The value of the variable that `token` names: that of the innermost
    /// scope binding it.
    pub fn get(&self, token: &Token) -> (r: RuntimeResult<Value>)
        ensures
            match lookup(self.scopes(), token@.token_type.lexeme()) {
                Some(value) => r matches Ok(found) && found@ == value,
                None => r matches Err(error) && error@ == undefined_variable(token@),
            },
        decreases self,
    {
        let name = token.token_type.lexeme();
        proof {
            assert(self.scopes()[0] == self.bindings());
            if self.enclosing is Some {
                assert(self.scopes().drop_first() =~= self.enclosing->Some_0.scopes());
            } else {
                assert(self.scopes().drop_first() =~= Seq::<Scope>::empty());
                assert(lookup(Seq::<Scope>::empty(), name@) is None);
            }
        }

        if let Some(value) = self.values.get(name.as_str()) {
            return Ok(value.clone());
        }
        if let Some(ref enclosing) = self.enclosing {
            return enclosing.get(token);
        }
        Err(RuntimeError::new(token.line_number, undefined_message(name).as_str()))
    }

    /// Gives the variable that `name` names a new value, in the innermost
    /// scope binding it.  Nothing changes if no scope binds it.
    pub fn assign(&mut self, name: &Token, value: Value) -> (r: RuntimeResult<()>)
        ensures
            match assigned(old(self).scopes(), name@.token_type.lexeme(), value@) {
                Some(updated) => r is Ok && final(self).scopes() == updated,
                None => {
                    &&& r matches Err(error) && error@ == undefined_variable(name@)
                    &&& final(self).scopes() == old(self).scopes()
                },
            },
        decreases *old(self),
    {
        let key = name.token_type.lexeme();
        proof {
            assert(self.scopes()[0] == self.bindings());
            if self.enclosing is Some {
                assert(self.scopes().drop_first() =~= self.enclosing->Some_0.scopes());
            } else {
                assert(self.scopes().drop_first() =~= Seq::<Scope>::empty());
                assert(assigned(Seq::<Scope>::empty(), key@, value@) is None);
            }
        }
        if self.values.contains_key(key.as_str()) {
            self.values.insert(key, value);
            proof {
                assert(self.bindings() =~= old(self).bindings().insert(key@, value@));
                assert(self.scopes() =~= old(self).scopes().update(0, self.bindings()));
            }
            return Ok(());
        }
        let ghost inner = self.bindings();
        match &mut self.enclosing {
            Some(enclosing) => {
                let ghost outer = enclosing.scopes();
                let r = enclosing.assign(name, value);
                proof {
                    assert(self.bindings() == inner);
                    assert(self.scopes() =~= seq![inner] + self.enclosing->Some_0.scopes());
                    assert(old(self).scopes() =~= seq![inner] + outer);
                }
                r
            },
            None => Err(RuntimeError::new(name.line_number, undefined_message(key).as_str())),
        }
    }
}

/// A chain has its own scope first, then the scopes that enclose it.
pub proof fn lemma_scopes(env: Environment)
    ensures
        env.scopes().len() >= 1,
        env.scopes()[0] == env.bindings(),
        env.enclosing is None ==> env.scopes().len() == 1,
        env.enclosing matches Some(outer) ==> env.scopes().drop_first() == outer.scopes(),
{
    match env.enclosing {
        Some(outer) => {
            assert(env.scopes().drop_first() =~= outer.scopes());
        },
        None => {},
    }
}

/// Assignment succeeds exactly on the names that some scope binds.  It
/// keeps the number of scopes and the names bound in each of them, and the
/// name then has the new value.
pub proof fn lemma_assigned(scopes: Seq<Scope>, name: Seq<char>, value: ValueView)
    ensures
        assigned(scopes, name, value) is Some <==> lookup(scopes, name) is Some,
        assigned(scopes, name, value) matches Some(updated) ==> {
            &&& updated.len() == scopes.len()
            &&& forall|i: int| 0 <= i < scopes.len() ==> #[trigger] updated[i].dom() == scopes[i].dom()
            &&& lookup(updated, name) == Some(value)
        },
    decreases scopes.len(),
{
    if scopes.len() > 0 {
        if scopes[0].contains_key(name) {
            let updated = scopes.update(0, scopes[0].insert(name, value));
            assert(updated[0].dom() =~= scopes[0].dom());
        } else {
            let rest = scopes.drop_first();
            lemma_assigned(rest, name, value);
            if assigned(rest, name, value) is Some {
                let outer = assigned(rest, name, value)->Some_0;
                let updated = seq![scopes[0]] + outer;
                assert(updated.drop_first() =~= outer);
                assert forall|i: int| 0 <= i < scopes.len() implies #[trigger] updated[i].dom()
                    == scopes[i].dom() by {
                    if i > 0 {
                        assert(updated[i] == outer[i - 1]);
                        assert(scopes[i] == rest[i - 1]);
                    }
                }
            }
        }
    }
}

/// Whether two chains have the same number of scopes and bind the same
/// names in each of them.
pub open spec fn same_names(a: Seq<Scope>, b: Seq<Scope>) -> bool {
    &&& a.len() == b.len()
    &&& forall|i: int| 0 <= i < a.len() ==> #[trigger] a[i].dom() == b[i].dom()
}

/// Chains that bind the same names find the same names.
pub proof fn lemma_same_names_lookup(a: Seq<Scope>, b: Seq<Scope>, name: Seq<char>)
    requires
        same_names(a, b),
    ensures
        lookup(a, name) is Some <==> lookup(b, name) is Some,
    decreases a.len(),
{
    if a.len() > 0 {
        assert(a[0].dom() == b[0].dom());
        if !a[0].contains_key(name) {
            assert forall|i: int| 0 <= i < a.drop_first().len() implies #[trigger] a.drop_first()[i].dom()
                == b.drop_first()[i].dom() by {
                assert(a[i + 1].dom() == b[i + 1].dom());
            }
            lemma_same_names_lookup(a.drop_first(), b.drop_first(), name);
        }
    }
}

/// A name defined in a new innermost scope has the value it was defined
/// with there, whatever the enclosing scopes bind; and the enclosing scopes
/// are as they were.
pub proof fn lemma_define_shadows(outer: Seq<Scope>, name: Seq<char>, value: ValueView)
    ensures
        lookup(defined(seq![Scope::empty()] + outer, name, value), name) == Some(value),
        defined(seq![Scope::empty()] + outer, name, value).drop_first() == outer,
{
    let inner = defined(seq![Scope::empty()] + outer, name, value);
    assert(inner[0].contains_key(name));
    assert(inner.drop_first() =~= outer);
}

/// The message for a name that no scope binds.
fn undefined_message(name: String) -> (message: String)
    ensures
        message@ == "Undefined variable \""@ + name@ + "\"."@,
{
    let mut message = "Undefined variable \"".to_string();
    message.append(name.as_str());
    message.append("\".");
    message
}

} // verus!
