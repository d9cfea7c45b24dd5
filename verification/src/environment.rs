//! Scopes: the names a program has defined, and the chain along which a name
//! is looked up.

use vstd::prelude::*;
use vstd::hash_map::StringHashMap;
use crate::interpreter::{RuntimeError, RuntimeErrorView};
use crate::token::{Token, TokenView};
use crate::types::{LitVal, LitValView};

verus! {

struct Scope {
    values: StringHashMap<LitVal>,
    enclosing: Option<usize>,
}

/// All the scopes of one run. A scope is known by its index; scope 0 is the
/// global one. A scope may name the scope that encloses it, which is an older
/// one, so every chain ends. A closure holds the index of the scope it was
/// declared in: whoever holds an index sees what is assigned through any other.
/// Nothing is ever removed: a scope lasts as long as the environment.
pub struct Environment {
    scopes: Vec<Scope>,
}

/// The mathematical value of one scope: what each name stands for, and the
/// enclosing scope.
pub struct ScopeView {
    pub values: Map<Seq<char>, LitValView>,
    pub enclosing: Option<usize>,
}

/// The values that the names of a scope stand for.
spec fn values_map(held: Map<Seq<char>, LitVal>) -> Map<Seq<char>, LitValView> {
    Map::new(|name: Seq<char>| held.contains_key(name), |name: Seq<char>| held[name]@)
}

impl Scope {
    spec fn view(&self) -> ScopeView {
        ScopeView { values: values_map(self.values@), enclosing: self.enclosing }
    }
}

/// The values of the scopes, one for one.
spec fn scopes_view(scopes: Seq<Scope>) -> Seq<ScopeView> {
    Seq::new(scopes.len(), |i: int| scopes[i].view())
}

/// The scope, going outwards from `scope`, that first holds `name`.
pub open spec fn resolve(scopes: Seq<ScopeView>, scope: int, name: Seq<char>) -> Option<int>
    decreases scope,
{
    if 0 <= scope < scopes.len() {
        if scopes[scope].values.contains_key(name) {
            Some(scope)
        } else {
            match scopes[scope].enclosing {
                Some(e) => if e < scope {
                    resolve(scopes, e as int, name)
                } else {
                    None
                },
                None => None,
            }
        }
    } else {
        None
    }
}

/// The error for a name that no scope of the chain holds.
pub open spec fn undefined(name: TokenView) -> RuntimeErrorView {
    RuntimeErrorView { token: name, message: "Undefined variable '"@ + name.lexeme + "'."@ }
}

/// The scopes after `name` was given `value` in scope `scope`.
pub open spec fn bound(scopes: Seq<ScopeView>, scope: int, name: Seq<char>, value: LitValView) -> Seq<
    ScopeView,
> {
    if 0 <= scope < scopes.len() {
        scopes.update(
            scope,
            ScopeView {
                values: scopes[scope].values.insert(name, value),
                enclosing: scopes[scope].enclosing,
            },
        )
    } else {
        scopes
    }
}

/// A name that was given a value in a scope is found there, with that value,
/// when it is looked up from that scope.
pub proof fn lemma_defined_is_found(
    scopes: Seq<ScopeView>,
    scope: int,
    name: Seq<char>,
    value: LitValView,
)
    requires
        0 <= scope < scopes.len(),
    ensures
        resolve(bound(scopes, scope, name, value), scope, name) == Some(scope),
        bound(scopes, scope, name, value)[scope].values[name] == value,
{
}

/// Shadowing: what is defined in a scope is not seen from an older scope.
/// Whatever name is looked up from a scope older than `scope`, it is found
/// where it was found before, with the value it had.
pub proof fn lemma_older_scopes_are_undisturbed(
    scopes: Seq<ScopeView>,
    scope: int,
    name: Seq<char>,
    value: LitValView,
    from: int,
    looked_up: Seq<char>,
)
    requires
        from < scope,
    ensures
        resolve(bound(scopes, scope, name, value), from, looked_up) == resolve(
            scopes,
            from,
            looked_up,
        ),
        resolve(scopes, from, looked_up) matches Some(s) ==> bound(
            scopes,
            scope,
            name,
            value,
        )[s].values[looked_up] == scopes[s].values[looked_up],
    decreases from,
{
    if 0 <= from < scopes.len() && 0 <= scope < scopes.len() {
        if !scopes[from].values.contains_key(looked_up) {
            match scopes[from].enclosing {
                Some(e) => {
                    if e < from {
                        lemma_older_scopes_are_undisturbed(
                            scopes,
                            scope,
                            name,
                            value,
                            e as int,
                            looked_up,
                        );
                    }
                },
                None => {},
            }
        }
    }
}

/// A value given to a name that a scope holds already changes no scope's
/// names: every name is found, from every scope, where it was found before.
pub proof fn lemma_assignment_moves_nothing(
    scopes: Seq<ScopeView>,
    scope: int,
    name: Seq<char>,
    value: LitValView,
    from: int,
    looked_up: Seq<char>,
)
    requires
        0 <= scope < scopes.len(),
        scopes[scope].values.contains_key(name),
    ensures
        resolve(bound(scopes, scope, name, value), from, looked_up) == resolve(
            scopes,
            from,
            looked_up,
        ),
    decreases from,
{
    if 0 <= from < scopes.len() {
        let after = bound(scopes, scope, name, value);
        assert(after[from].values.contains_key(looked_up) == scopes[from].values.contains_key(
            looked_up,
        ));
        if !scopes[from].values.contains_key(looked_up) {
            match scopes[from].enclosing {
                Some(e) => {
                    if e < from {
                        lemma_assignment_moves_nothing(
                            scopes,
                            scope,
                            name,
                            value,
                            e as int,
                            looked_up,
                        );
                    }
                },
                None => {},
            }
        }
    }
}

/// Capture by reference: where two scopes find a name in one and the same
/// scope, a value assigned to the name from the one is the value that the
/// other finds.
pub proof fn lemma_assignment_is_shared(
    scopes: Seq<ScopeView>,
    writer: int,
    reader: int,
    name: Seq<char>,
    value: LitValView,
)
    requires
        resolve(scopes, writer, name) is Some,
        resolve(scopes, reader, name) == resolve(scopes, writer, name),
    ensures
        ({
            let holder = resolve(scopes, writer, name)->0;
            let after = bound(scopes, holder, name, value);
            &&& resolve(after, reader, name) == Some(holder)
            &&& after[holder].values[name] == value
        }),
{
    let holder = resolve(scopes, writer, name)->0;
    lemma_resolved_holds(scopes, writer, name);
    lemma_assignment_moves_nothing(scopes, holder, name, value, reader, name);
}

/// The scope in which a name is found is a scope, and holds the name.
pub proof fn lemma_resolved_holds(scopes: Seq<ScopeView>, from: int, name: Seq<char>)
    ensures
        resolve(scopes, from, name) matches Some(s) ==> 0 <= s <= from && s < scopes.len()
            && scopes[s].values.contains_key(name),
    decreases from,
{
    if 0 <= from < scopes.len() && !scopes[from].values.contains_key(name) {
        match scopes[from].enclosing {
            Some(e) => {
                if e < from {
                    lemma_resolved_holds(scopes, e as int, name);
                }
            },
            None => {},
        }
    }
}

impl View for Environment {
    type V = Seq<ScopeView>;

    closed spec fn view(&self) -> Seq<ScopeView> {
        scopes_view(self.scopes@)
    }
}

fn undefined_error(name: &Token) -> (e: RuntimeError)
    ensures
        e@ == undefined(name@),
{
    let mut message = "Undefined variable '".to_owned();
    message.append(name.lexeme.as_str());
    message.append("'.");
    RuntimeError { token: name.clone(), message }
}

impl Environment {
    /// The global scope alone, with nothing defined.
    pub fn new() -> (env: Self)
        ensures
            env@ == seq![ScopeView { values: Map::empty(), enclosing: None }],
    {
        let mut scopes: Vec<Scope> = Vec::new();
        scopes.push(Scope { values: StringHashMap::new(), enclosing: None });
        let env = Environment { scopes };
        assert(values_map(Map::empty()) =~= Map::empty());
        assert(env@ =~= seq![ScopeView { values: Map::empty(), enclosing: None }]);
        env
    }

    /// Adds an empty scope inside the scope `enclosing` and gives its index.
    /// An `enclosing` that is no scope of this environment gives a scope that
    /// nothing encloses.
    pub fn new_with_enclosing(&mut self, enclosing: usize) -> (scope: usize)
        ensures
            scope == old(self)@.len(),
            final(self)@ == old(self)@.push(
                ScopeView {
                    values: Map::empty(),
                    enclosing: if enclosing < old(self)@.len() {
                        Some(enclosing)
                    } else {
                        None
                    },
                },
            ),
    {
        let scope = self.scopes.len();
        let enclosing = if enclosing < scope {
            Some(enclosing)
        } else {
            None
        };
        self.scopes.push(Scope { values: StringHashMap::new(), enclosing });
        assert(values_map(Map::empty()) =~= Map::empty());
        assert(self@ =~= old(self)@.push(ScopeView { values: Map::empty(), enclosing }));
        scope
    }

    /// There are no more scopes than a machine can number.
    pub proof fn lemma_fits(&self)
        ensures
            self@.len() <= usize::MAX,
    {
        assert(self@.len() == self.scopes.len());
    }

    /// The number of scopes.
    pub fn len(&self) -> (n: usize)
        ensures
            n == self@.len(),
    {
        self.scopes.len()
    }

    /// The scope that first holds `name`, from `scope` outwards.
    fn locate(&self, scope: usize, name: &str) -> (r: Option<usize>)
        ensures
            match resolve(self@, scope as int, name@) {
                Some(s) => 0 <= s < self.scopes.len() && r == Some(s as usize)
                    && self.scopes[s].values@.contains_key(name@),
                None => r is None,
            },
    {
        let mut at = scope;
        loop
            invariant
                resolve(self@, at as int, name@) == resolve(self@, scope as int, name@),
            decreases at,
        {
            if at >= self.scopes.len() {
                return None;
            }
            if self.scopes[at].values.contains_key(name) {
                return Some(at);
            }
            match self.scopes[at].enclosing {
                Some(e) if e < at => {
                    at = e;
                },
                _ => {
                    return None;
                },
            }
        }
    }

    /// The value of `name`, looked up from `scope` outwards.
    pub fn get(&self, scope: usize, name: &Token) -> (r: Result<LitVal, RuntimeError>)
        ensures
            match resolve(self@, scope as int, name.lexeme@) {
                Some(s) => r matches Ok(v) && v@ == self@[s].values[name.lexeme@],
                None => r matches Err(e) && e@ == undefined(name@),
            },
    {
        match self.locate(scope, name.lexeme.as_str()) {
            Some(at) => match self.scopes[at].values.get(name.lexeme.as_str()) {
                Some(v) => Ok(v.clone()),
                None => Err(undefined_error(name)),
            },
            None => Err(undefined_error(name)),
        }
    }

    /// Gives `name` the value `value` in the nearest scope, from `scope`
    /// outwards, that holds it already. A name that none holds is an error, and
    /// then nothing changes.
    pub fn assign(&mut self, scope: usize, name: &Token, value: &LitVal) -> (r: Result<
        LitVal,
        RuntimeError,
    >)
        ensures
            match resolve(old(self)@, scope as int, name.lexeme@) {
                Some(s) => r matches Ok(v) && v@ == value@ && final(self)@ == bound(
                    old(self)@,
                    s,
                    name.lexeme@,
                    value@,
                ),
                None => r matches Err(e) && e@ == undefined(name@) && final(self)@ == old(self)@,
            },
    {
        match self.locate(scope, name.lexeme.as_str()) {
            Some(at) => {
                let ghost held = self.scopes[at as int].values@;
                self.scopes[at].values.insert(name.lexeme.clone(), value.clone());
                assert(values_map(held.insert(name.lexeme@, *value)) =~= values_map(held).insert(
                    name.lexeme@,
                    value@,
                ));
                assert(self@ =~= bound(old(self)@, at as int, name.lexeme@, value@));
                Ok(value.clone())
            },
            None => Err(undefined_error(name)),
        }
    }

    /// Gives `name` the value `value` in the scope `scope` itself, whether or
    /// not the name was defined there before. Nothing happens if `scope` is no
    /// scope of this environment.
    pub fn define(&mut self, scope: usize, name: String, value: LitVal)
        ensures
            final(self)@ == bound(old(self)@, scope as int, name@, value@),
    {
        if scope >= self.scopes.len() {
            return ;
        }
        let ghost held = self.scopes[scope as int].values@;
        let ghost given = value@;
        assert(values_map(held.insert(name@, value)) =~= values_map(held).insert(name@, given));
        self.scopes[scope].values.insert(name, value);
        assert(self@ =~= bound(old(self)@, scope as int, name@, given));
    }
}

} // verus!
