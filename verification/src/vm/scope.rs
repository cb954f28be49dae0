//! The variables of the machine: a stack of scopes, each a list of bindings.

use vstd::prelude::*;
use crate::text::same_text;
use crate::vm::value::Val;
use crate::vm::value::Value;

verus! {

/// The bindings of one scope, in the order in which the names were first bound.
pub type Scope = Seq<(Seq<char>, Val)>;

/// Whether a scope binds a name.
pub open spec fn binds(scope: Scope, name: Seq<char>) -> bool {
    exists|i: int| 0 <= i < scope.len() && (#[trigger] scope[i]).0 == name
}

/// Whether `i` is the first place at which the scope binds the name.
pub open spec fn is_slot(scope: Scope, name: Seq<char>, i: int) -> bool {
    &&& 0 <= i < scope.len()
    &&& scope[i].0 == name
    &&& forall|j: int| 0 <= j < i ==> (#[trigger] scope[j]).0 != name
}

/// The first place at which the scope binds the name.
pub open spec fn slot(scope: Scope, name: Seq<char>) -> int {
    choose|i: int| is_slot(scope, name, i)
}

/// There is one first place only.
pub proof fn lemma_slot(scope: Scope, name: Seq<char>, i: int)
    requires
        is_slot(scope, name, i),
    ensures
        binds(scope, name),
        slot(scope, name) == i,
{
    let c = slot(scope, name);
    assert(is_slot(scope, name, c));
    if c < i {
        assert(scope[c].0 != name);
    }
    if i < c {
        assert(scope[i].0 != name);
    }
}

/// A scope that binds a name has a first place at which it does.
pub proof fn lemma_slot_exists(scope: Scope, name: Seq<char>)
    requires
        binds(scope, name),
    ensures
        is_slot(scope, name, slot(scope, name)),
    decreases scope.len(),
{
    if scope[0].0 == name {
        assert(is_slot(scope, name, 0));
    } else {
        let tail = scope.skip(1);
        let w = choose|i: int| 0 <= i < scope.len() && (#[trigger] scope[i]).0 == name;
        assert(tail[w - 1].0 == name);
        lemma_slot_exists(tail, name);
        let j = slot(tail, name);
        assert(is_slot(scope, name, j + 1)) by {
            assert(scope[j + 1] == tail[j]);
            assert forall|k: int| 0 <= k < j + 1 implies (#[trigger] scope[k]).0 != name by {
                if k > 0 {
                    assert(tail[k - 1] == scope[k]);
                }
            }
        }
    }
}

/// The innermost scope that binds the name, if any does.
pub open spec fn layer(scopes: Seq<Scope>, name: Seq<char>) -> Option<int>
    decreases scopes.len(),
{
    if scopes.len() == 0 {
        None
    } else if binds(scopes.last(), name) {
        Some(scopes.len() - 1)
    } else {
        layer(scopes.drop_last(), name)
    }
}

/// The innermost scope that binds a name is one of the scopes, and binds the name.
pub proof fn lemma_layer(scopes: Seq<Scope>, name: Seq<char>)
    ensures
        layer(scopes, name) matches Some(l) ==> 0 <= l < scopes.len() && binds(scopes[l], name),
    decreases scopes.len(),
{
    if scopes.len() > 0 && !binds(scopes.last(), name) {
        lemma_layer(scopes.drop_last(), name);
    }
}

/// The value of a name: that of its binding in the innermost scope that binds it.
pub open spec fn lookup(scopes: Seq<Scope>, name: Seq<char>) -> Option<Val> {
    match layer(scopes, name) {
        Some(l) => Some(scopes[l][slot(scopes[l], name)].1),
        None => None,
    }
}

/// A scope with the name bound to the value: in place where the scope binds the name, else
/// at the end.
pub open spec fn bound(scope: Scope, name: Seq<char>, value: Val) -> Scope {
    if binds(scope, name) {
        scope.update(slot(scope, name), (name, value))
    } else {
        scope.push((name, value))
    }
}

/// The scopes with the name bound in the innermost scope.
pub open spec fn put(scopes: Seq<Scope>, name: Seq<char>, value: Val) -> Seq<Scope> {
    if scopes.len() == 0 {
        scopes
    } else {
        scopes.update(scopes.len() - 1, bound(scopes.last(), name, value))
    }
}

/// The scopes with the name rebound where it is bound innermost, or, where no scope binds
/// it, bound in the innermost scope.
pub open spec fn assign(scopes: Seq<Scope>, name: Seq<char>, value: Val) -> Seq<Scope> {
    match layer(scopes, name) {
        Some(l) => scopes.update(l, bound(scopes[l], name, value)),
        None => put(scopes, name, value),
    }
}

/// The scopes without the innermost, unless it is the only one: the global scope stays.
pub open spec fn left(scopes: Seq<Scope>) -> Seq<Scope> {
    if scopes.len() > 1 {
        scopes.drop_last()
    } else {
        scopes
    }
}

/// A scope in which a name was bound binds it, to the value it was bound to and in the
/// place where it was bound before, if it was. Every other place is as it was.
pub proof fn lemma_bound(scope: Scope, name: Seq<char>, value: Val)
    ensures
        binds(bound(scope, name, value), name),
        bound(scope, name, value)[slot(bound(scope, name, value), name)] == (name, value),
        binds(scope, name) ==> bound(scope, name, value).len() == scope.len() && slot(
            bound(scope, name, value),
            name,
        ) == slot(scope, name),
        !binds(scope, name) ==> bound(scope, name, value).len() == scope.len() + 1 && slot(
            bound(scope, name, value),
            name,
        ) == scope.len(),
        forall|i: int|
            0 <= i < scope.len() && scope[i].0 != name ==> #[trigger] bound(scope, name, value)[i]
                == scope[i],
        forall|other: Seq<char>|
            other != name ==> (binds(bound(scope, name, value), other) <==> binds(scope, other)),
{
    let after = bound(scope, name, value);
    if binds(scope, name) {
        let i = slot(scope, name);
        lemma_slot_exists(scope, name);
        assert(is_slot(after, name, i)) by {
            assert forall|j: int| 0 <= j < i implies (#[trigger] after[j]).0 != name by {
                assert(scope[j].0 != name);
            }
        }
        lemma_slot(after, name, i);
        assert forall|other: Seq<char>| other != name implies (binds(after, other) <==> binds(
            scope,
            other,
        )) by {
            if binds(scope, other) {
                let k = choose|k: int| 0 <= k < scope.len() && (#[trigger] scope[k]).0 == other;
                assert(after[k].0 == other);
            }
            if binds(after, other) {
                let k = choose|k: int| 0 <= k < after.len() && (#[trigger] after[k]).0 == other;
                assert(scope[k].0 == other);
            }
        }
    } else {
        let i = scope.len() as int;
        assert(is_slot(after, name, i)) by {
            assert forall|j: int| 0 <= j < i implies (#[trigger] after[j]).0 != name by {
                assert(after[j] == scope[j]);
                if scope[j].0 == name {
                    assert(binds(scope, name));
                }
            }
        }
        lemma_slot(after, name, i);
        assert forall|other: Seq<char>| other != name implies (binds(after, other) <==> binds(
            scope,
            other,
        )) by {
            if binds(scope, other) {
                let k = choose|k: int| 0 <= k < scope.len() && (#[trigger] scope[k]).0 == other;
                assert(after[k].0 == other);
            }
            if binds(after, other) {
                let k = choose|k: int| 0 <= k < after.len() && (#[trigger] after[k]).0 == other;
                assert(scope[k].0 == other);
            }
        }
    }
}

/// Where scopes agree from `l` upwards on whether they bind a name, the name has the same
/// innermost scope in both, if that scope is at `l` or above.
proof fn lemma_layer_above(a: Seq<Scope>, b: Seq<Scope>, name: Seq<char>, l: int)
    requires
        a.len() == b.len(),
        0 <= l < a.len(),
        binds(b[l], name),
        forall|k: int| l < k < a.len() ==> (binds(#[trigger] a[k], name) <==> binds(b[k], name)),
        binds(a[l], name),
    ensures
        layer(a, name) == layer(b, name),
        layer(a, name) matches Some(found) && found >= l,
    decreases a.len(),
{
    if a.len() - 1 == l {
    } else if binds(a.last(), name) {
        assert(binds(b[a.len() - 1], name));
    } else {
        assert(!binds(b[a.len() - 1], name));
        lemma_layer_above(a.drop_last(), b.drop_last(), name, l);
    }
}

/// A name that no scope binds has no innermost scope, and the other way round.
pub proof fn lemma_layer_none(scopes: Seq<Scope>, name: Seq<char>)
    ensures
        layer(scopes, name) is None <==> forall|k: int|
            0 <= k < scopes.len() ==> !binds(#[trigger] scopes[k], name),
    decreases scopes.len(),
{
    if scopes.len() > 0 {
        lemma_layer_none(scopes.drop_last(), name);
        if !binds(scopes.last(), name) {
            if layer(scopes, name) is None {
                assert forall|k: int| 0 <= k < scopes.len() implies !binds(
                    #[trigger] scopes[k],
                    name,
                ) by {
                    if k < scopes.len() - 1 {
                        assert(scopes.drop_last()[k] == scopes[k]);
                    }
                }
            } else {
                lemma_layer(scopes.drop_last(), name);
                let l = layer(scopes.drop_last(), name)->0;
                assert(scopes.drop_last()[l] == scopes[l]);
            }
        }
    }
}

/// What a parameter binding does: afterwards the name has the value, and every scope but
/// the innermost is as it was, so a parameter never rebinds a variable of an outer scope.
pub proof fn lemma_put(scopes: Seq<Scope>, name: Seq<char>, value: Val)
    requires
        scopes.len() > 0,
    ensures
        lookup(put(scopes, name, value), name) == Some(value),
        layer(put(scopes, name, value), name) == Some(scopes.len() - 1),
        put(scopes, name, value).len() == scopes.len(),
        forall|k: int| 0 <= k < scopes.len() - 1 ==> #[trigger] put(scopes, name, value)[k] == scopes[k],
{
    let after = put(scopes, name, value);
    lemma_bound(scopes.last(), name, value);
    assert(after.last() == bound(scopes.last(), name, value));
}

/// What an assignment does: afterwards the name has the value. Where a scope bound the
/// name, the binding of the innermost such scope is overwritten in place and no scope gains
/// a binding; where none did, the innermost scope gains one.
pub proof fn lemma_assign(scopes: Seq<Scope>, name: Seq<char>, value: Val)
    requires
        scopes.len() > 0,
    ensures
        lookup(assign(scopes, name, value), name) == Some(value),
        assign(scopes, name, value).len() == scopes.len(),
        layer(assign(scopes, name, value), name) == match layer(scopes, name) {
            Some(l) => Some(l),
            None => Some(scopes.len() - 1),
        },
        layer(scopes, name) is Some ==> forall|k: int|
            0 <= k < scopes.len() ==> (#[trigger] assign(scopes, name, value)[k]).len()
                == scopes[k].len(),
{
    let after = assign(scopes, name, value);
    lemma_layer(scopes, name);
    match layer(scopes, name) {
        Some(l) => {
            lemma_bound(scopes[l], name, value);
            lemma_layer_home(scopes, name);
            assert forall|k: int| l < k < scopes.len() implies (binds(
                #[trigger] after[k],
                name,
            ) <==> binds(scopes[k], name)) by {
                assert(after[k] == scopes[k]);
            }
            assert(after[l] == bound(scopes[l], name, value));
            lemma_layer_above(after, scopes, name, l);
        },
        None => {
            lemma_put(scopes, name, value);
        },
    }
}

/// No scope inside the innermost scope that binds a name binds it.
proof fn lemma_layer_home(scopes: Seq<Scope>, name: Seq<char>)
    ensures
        layer(scopes, name) matches Some(l) ==> forall|k: int|
            l < k < scopes.len() ==> !binds(#[trigger] scopes[k], name),
    decreases scopes.len(),
{
    if scopes.len() > 0 && !binds(scopes.last(), name) {
        lemma_layer_home(scopes.drop_last(), name);
        lemma_layer(scopes.drop_last(), name);
        match layer(scopes.drop_last(), name) {
            Some(l) => {
                assert forall|k: int| l < k < scopes.len() implies !binds(
                    #[trigger] scopes[k],
                    name,
                ) by {
                    if k < scopes.len() - 1 {
                        assert(scopes.drop_last()[k] == scopes[k]);
                    }
                }
            },
            None => {},
        }
    }
}

/// The bindings of one scope.
pub struct LocalScope(Vec<(String, Value)>);

impl View for LocalScope {
    type V = Scope;

    closed spec fn view(&self) -> Scope {
        Seq::new(self.0@.len(), |i: int| (self.0@[i].0@, self.0@[i].1@))
    }
}

impl LocalScope {
    /// The first place at which the scope binds the name.
    pub fn position(&self, name: &str) -> (r: Option<usize>)
        ensures
            r is Some <==> binds(self@, name@),
            r matches Some(i) ==> i == slot(self@, name@) && i < self@.len(),
    {
        let mut i: usize = 0;
        while i < self.0.len()
            invariant
                i <= self.0@.len(),
                forall|j: int| 0 <= j < i ==> (#[trigger] self@[j]).0 != name@,
            decreases self.0.len() - i,
        {
            if same_text(self.0[i].0.as_str(), name) {
                proof {
                    assert(self@[i as int].0 == name@);
                    lemma_slot(self@, name@, i as int);
                }
                return Some(i);
            }
            i += 1;
        }
        None
    }

    /// Binds the name to the value, and says whether the scope bound the name before.
    pub fn bind(&mut self, name: String, value: Value) -> (r: bool)
        ensures
            final(self)@ == bound(old(self)@, name@, value@),
            r == binds(old(self)@, name@),
    {
        match self.position(name.as_str()) {
            Some(i) => {
                self.0[i] = (name, value);
                assert(self@ =~= bound(old(self)@, name@, value@));
                true
            },
            None => {
                self.0.push((name, value));
                assert(self@ =~= bound(old(self)@, name@, value@));
                false
            },
        }
    }
}

/// The values of a list of scopes.
spec fn scopes_view(scopes: Seq<LocalScope>) -> Seq<Scope> {
    Seq::new(scopes.len(), |i: int| scopes[i]@)
}

/// The stack of scopes. The first is the global scope, which is never left: a stack that
/// was made by `new` always has it.
pub struct ScopeStack(Vec<LocalScope>);

impl View for ScopeStack {
    type V = Seq<Scope>;

    closed spec fn view(&self) -> Seq<Scope> {
        scopes_view(self.0@)
    }
}

impl ScopeStack {
    /// One empty scope, the global one.
    pub fn new() -> (r: Self)
        ensures
            r@ == seq![Seq::<(Seq<char>, Val)>::empty()],
    {
        let mut scopes: Vec<LocalScope> = Vec::new();
        scopes.push(LocalScope(Vec::new()));
        let r = ScopeStack(scopes);
        assert(r@ =~= seq![Seq::<(Seq<char>, Val)>::empty()]) by {
            assert(r@[0] =~= Seq::<(Seq<char>, Val)>::empty());
        }
        r
    }

    /// The number of scopes.
    pub fn depth(&self) -> (r: usize)
        ensures
            r == self@.len(),
    {
        self.0.len()
    }

    /// Where the name is bound innermost: the scope and the place in it.
    pub fn position(&self, name: &str) -> (r: Option<(usize, usize)>)
        ensures
            r is Some <==> layer(self@, name@) is Some,
            r matches Some((l, i)) ==> layer(self@, name@) == Some(l as int) && l < self@.len() && i
                == slot(self@[l as int], name@) && i < self@[l as int].len(),
    {
        let mut l: usize = self.0.len();
        assert(self@.take(l as int) =~= self@);
        while l > 0
            invariant
                l <= self.0@.len(),
                layer(self@, name@) == layer(self@.take(l as int), name@),
            decreases l,
        {
            l -= 1;
            assert(self@.take(l + 1).last() == self@[l as int]);
            assert(self@.take(l + 1).drop_last() =~= self@.take(l as int));
            match self.0[l].position(name) {
                Some(i) => {
                    return Some((l, i));
                },
                None => {},
            }
        }
        None
    }

    /// The value of a name.
    pub fn get(&self, name: &str) -> (r: Option<&Value>)
        ensures
            match r {
                Some(v) => Some(v@),
                None => None,
            } == lookup(self@, name@),
    {
        match self.position(name) {
            Some((l, i)) => Some(&self.0[l].0[i].1),
            None => None,
        }
    }

    /// Enters a new, empty scope.
    pub fn push(&mut self)
        ensures
            final(self)@ == old(self)@.push(Seq::empty()),
    {
        self.0.push(LocalScope(Vec::new()));
        assert(self@ =~= old(self)@.push(Seq::empty())) by {
            assert(self@[self@.len() - 1] =~= Seq::<(Seq<char>, Val)>::empty());
        }
    }

    /// Leaves the innermost scope, unless it is the global one.
    pub fn pop(&mut self)
        ensures
            final(self)@ == left(old(self)@),
    {
        if self.0.len() > 1 {
            self.0.pop();
            assert(self@ =~= old(self)@.drop_last());
        }
    }

    /// Binds the name in the innermost scope, and says whether that scope bound the name
    /// before. Without a scope there is nothing to bind in: that is an error.
    pub fn put(&mut self, name: String, value: Value) -> (r: Result<bool, ()>)
        ensures
            final(self)@ == put(old(self)@, name@, value@),
            old(self)@.len() == 0 ==> r is Err,
            old(self)@.len() > 0 ==> r == Ok::<bool, ()>(binds(old(self)@.last(), name@)),
    {
        if self.0.len() == 0 {
            return Err(());
        }
        let top = self.0.len() - 1;
        let mut scope = LocalScope(Vec::new());
        std::mem::swap(&mut scope, &mut self.0[top]);
        let was = scope.bind(name, value);
        self.0[top] = scope;
        assert(self@ =~= put(old(self)@, name@, value@));
        Ok(was)
    }

    /// Rebinds the name where it is bound innermost, or binds it in the innermost scope.
    /// Without a scope there is nothing to bind in: that is an error.
    pub fn set(&mut self, name: String, value: Value) -> (r: Result<(), ()>)
        ensures
            final(self)@ == assign(old(self)@, name@, value@),
            r is Err <==> old(self)@.len() == 0,
    {
        match self.position(name.as_str()) {
            Some((l, i)) => {
                let mut scope = LocalScope(Vec::new());
                std::mem::swap(&mut scope, &mut self.0[l]);
                scope.bind(name, value);
                self.0[l] = scope;
                assert(self@ =~= assign(old(self)@, name@, value@));
                Ok(())
            },
            None => match self.put(name, value) {
                Ok(_) => Ok(()),
                Err(_) => Err(()),
            },
        }
    }
}

} // verus!
