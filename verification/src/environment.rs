//! The environment: a chain of scopes, each a mapping from names to values.

use vstd::prelude::*;
use crate::value::{opt_view, RValue, RValueView, RuntimeError, RuntimeErrorView};

verus! {

/// What one scope holds: for each name declared in it, its value, if it has
/// one yet.
pub type ScopeView = Map<Seq<char>, Option<RValueView>>;

/// The scopes of an environment, the innermost last.
pub type EnvView = Seq<ScopeView>;

/// What `name` is bound to in the nearest scope of `env` that holds it.
pub open spec fn env_lookup(env: EnvView, name: Seq<char>) -> Option<Option<RValueView>>
    decreases env.len(),
{
    if env.len() == 0 {
        None
    } else if env.last().contains_key(name) {
        Some(env.last()[name])
    } else {
        env_lookup(env.drop_last(), name)
    }
}

/// The value of `name` in `env`: nil where it is declared without a value.
pub open spec fn env_get(env: EnvView, name: Seq<char>) -> Result<RValueView, RuntimeErrorView> {
    match env_lookup(env, name) {
        Some(Some(v)) => Ok(v),
        Some(None) => Ok(RValueView::Null),
        None => Err(RuntimeErrorView::UndefinedVariable(name)),
    }
}

/// `env` with `name` bound to `v` in the nearest scope that holds `name`;
/// `None` where no scope does.
pub open spec fn env_assign(env: EnvView, name: Seq<char>, v: RValueView) -> Option<EnvView>
    decreases env.len(),
{
    if env.len() == 0 {
        None
    } else if env.last().contains_key(name) {
        Some(env.update(env.len() - 1, env.last().insert(name, Some(v))))
    } else {
        match env_assign(env.drop_last(), name, v) {
            Some(outer) => Some(outer.push(env.last())),
            None => None,
        }
    }
}

/// `env` with `name` declared in the innermost scope, with the value `v` if
/// any; `None` where that scope holds `name` already.
pub open spec fn env_declare(env: EnvView, name: Seq<char>, v: Option<RValueView>) -> Option<
    EnvView,
> {
    if env.len() == 0 || env.last().contains_key(name) {
        None
    } else {
        Some(env.update(env.len() - 1, env.last().insert(name, v)))
    }
}

/// A name with its value, if it has one yet.
pub struct Binding {
    name: String,
    value: Option<RValue>,
}

/// The mapping that the bindings `bs` make; a later binding of a name
/// stands for the name.
pub closed spec fn scope_map(bs: Seq<Binding>) -> ScopeView
    decreases bs.len(),
{
    if bs.len() == 0 {
        Map::empty()
    } else {
        scope_map(bs.drop_last()).insert(bs.last().name@, opt_view(bs.last().value))
    }
}

/// No binding of `name`, no key `name`.
proof fn lemma_scope_absent(bs: Seq<Binding>, name: Seq<char>)
    requires
        forall|j: int| 0 <= j < bs.len() ==> (#[trigger] bs[j]).name@ != name,
    ensures
        !scope_map(bs).contains_key(name),
    decreases bs.len(),
{
    if bs.len() > 0 {
        assert(bs.last().name@ != name);
        assert forall|j: int| 0 <= j < bs.drop_last().len() implies (#[trigger] bs.drop_last()[
            j
        ]).name@ != name by {
            assert(bs.drop_last()[j] == bs[j]);
        }
        lemma_scope_absent(bs.drop_last(), name);
    }
}

/// The last binding of `name` is what the mapping holds for `name`.
proof fn lemma_scope_present(bs: Seq<Binding>, i: int, name: Seq<char>)
    requires
        0 <= i < bs.len(),
        bs[i].name@ == name,
        forall|j: int| i < j < bs.len() ==> (#[trigger] bs[j]).name@ != name,
    ensures
        scope_map(bs).contains_key(name),
        scope_map(bs)[name] == opt_view(bs[i].value),
    decreases bs.len(),
{
    if i < bs.len() - 1 {
        assert(bs.last().name@ != name);
        assert forall|j: int| i < j < bs.drop_last().len() implies (#[trigger] bs.drop_last()[
            j
        ]).name@ != name by {
            assert(bs.drop_last()[j] == bs[j]);
        }
        assert(bs.drop_last()[i] == bs[i]);
        lemma_scope_present(bs.drop_last(), i, name);
    }
}

/// Putting a new value in the last binding of a name puts it in the
/// mapping.
proof fn lemma_scope_update(bs: Seq<Binding>, i: int, b: Binding)
    requires
        0 <= i < bs.len(),
        bs[i].name@ == b.name@,
        forall|j: int| i < j < bs.len() ==> (#[trigger] bs[j]).name@ != b.name@,
    ensures
        scope_map(bs.update(i, b)) == scope_map(bs).insert(b.name@, opt_view(b.value)),
    decreases bs.len(),
{
    let after = bs.update(i, b);
    if i == bs.len() - 1 {
        assert(after.drop_last() =~= bs.drop_last());
        assert(scope_map(after) =~= scope_map(bs).insert(b.name@, opt_view(b.value)));
    } else {
        assert(bs.last().name@ != b.name@);
        assert forall|j: int| i < j < bs.drop_last().len() implies (#[trigger] bs.drop_last()[
            j
        ]).name@ != b.name@ by {
            assert(bs.drop_last()[j] == bs[j]);
        }
        assert(bs.drop_last()[i] == bs[i]);
        lemma_scope_update(bs.drop_last(), i, b);
        assert(after.drop_last() =~= bs.drop_last().update(i, b));
        assert(after.last() == bs.last());
        assert(scope_map(after) =~= scope_map(bs).insert(b.name@, opt_view(b.value)));
    }
}

/// The index of the last binding of `name` in `bs`, if there is one.
fn find(bs: &Vec<Binding>, name: &String) -> (r: Option<usize>)
    ensures
        match r {
            Some(i) => {
                &&& i < bs.len()
                &&& bs@[i as int].name@ == name@
                &&& scope_map(bs@).contains_key(name@)
                &&& scope_map(bs@)[name@] == opt_view(bs@[i as int].value)
                &&& forall|j: int| i < j < bs.len() ==> (#[trigger] bs@[j]).name@ != name@
            },
            None => !scope_map(bs@).contains_key(name@),
        },
{
    let mut i: usize = bs.len();
    while i > 0
        invariant
            i <= bs.len(),
            forall|j: int| i <= j < bs.len() ==> (#[trigger] bs@[j]).name@ != name@,
        decreases i,
    {
        i = i - 1;
        if bs[i].name == *name {
            proof {
                lemma_scope_present(bs@, i as int, name@);
            }
            return Some(i);
        }
    }
    proof {
        lemma_scope_absent(bs@, name@);
    }
    None
}

/// A chain of scopes. Names are looked up from the innermost scope outwards;
/// a name is declared once in a scope at most.
pub struct Environment {
    /// the scopes, the innermost last
    scopes: Vec<Vec<Binding>>,
}

impl View for Environment {
    type V = EnvView;

    closed spec fn view(&self) -> EnvView {
        Seq::new(self.scopes@.len(), |k: int| scope_map(self.scopes@[k]@))
    }
}

impl Default for Environment {
    fn default() -> (r: Self)
        ensures
            r.wf(),
            r@ == seq![ScopeView::empty()],
    {
        Environment::new()
    }
}

impl Environment {
    /// There is a scope.
    pub closed spec fn wf(&self) -> bool {
        self.scopes.len() >= 1
    }

    /// A well-formed environment has a scope.
    pub proof fn lemma_wf(&self)
        requires
            self.wf(),
        ensures
            self@.len() >= 1,
    {
    }

    /// An environment of one empty scope.
    pub fn new() -> (r: Self)
        ensures
            r.wf(),
            r@ == seq![ScopeView::empty()],
    {
        let mut scopes: Vec<Vec<Binding>> = Vec::new();
        scopes.push(Vec::new());
        let r = Environment { scopes };
        assert(r@ =~= seq![ScopeView::empty()]);
        r
    }

    /// The number of scopes.
    pub fn depth(&self) -> (r: usize)
        ensures
            r == self@.len(),
    {
        self.scopes.len()
    }

    /// Opens a scope within the innermost one.
    pub fn new_scope(&mut self)
        requires
            old(self).wf(),
        ensures
            final(self).wf(),
            final(self)@ == old(self)@.push(ScopeView::empty()),
    {
        self.scopes.push(Vec::new());
        assert(self@ =~= old(self)@.push(ScopeView::empty()));
    }

    /// Closes the innermost scope; its names are gone.
    pub fn end_scope(&mut self)
        requires
            old(self).wf(),
            old(self)@.len() > 1,
        ensures
            final(self).wf(),
            final(self)@ == old(self)@.drop_last(),
    {
        self.scopes.pop();
        assert(self@ =~= old(self)@.drop_last());
    }

    /// Declares `name` in the innermost scope, with the value `val` if any.
    pub fn new_var(&mut self, name: String, val: Option<RValue>) -> (r: Result<(), RuntimeError>)
        requires
            old(self).wf(),
        ensures
            final(self).wf(),
            final(self)@.len() == old(self)@.len(),
            match r {
                Ok(_) => env_declare(old(self)@, name@, opt_view(val)) == Some(final(self)@),
                Err(e) => env_declare(old(self)@, name@, opt_view(val)) is None && final(self)@
                    == old(self)@ && e@ == RuntimeErrorView::DuplicateDeclaration(name@),
            },
    {
        let last = self.scopes.len() - 1;
        match find(&self.scopes[last], &name) {
            Some(_) => Err(RuntimeError::DuplicateDeclaration(name)),
            None => {
                let ghost before = self.scopes@[last as int]@;
                let binding = Binding { name, value: val };
                self.scopes[last].push(binding);
                proof {
                    assert(self.scopes@[last as int]@.drop_last() =~= before);
                    assert(self@ =~= old(self)@.update(
                        last as int,
                        old(self)@.last().insert(name@, opt_view(val)),
                    ));
                }
                Ok(())
            },
        }
    }

    /// Gives `name` the value `val` in the nearest scope that holds `name`.
    pub fn set_var(&mut self, name: String, val: RValue) -> (r: Result<(), RuntimeError>)
        requires
            old(self).wf(),
        ensures
            final(self).wf(),
            final(self)@.len() == old(self)@.len(),
            match r {
                Ok(_) => env_assign(old(self)@, name@, val@) == Some(final(self)@),
                Err(e) => env_assign(old(self)@, name@, val@) is None && final(self)@ == old(
                    self,
                )@ && e@ == RuntimeErrorView::AssignToUndeclaredVariable(name@),
            },
    {
        let mut k: usize = self.scopes.len();
        while k > 0
            invariant
                k <= self.scopes.len(),
                *self == *old(self),
                forall|j: int| k <= j < self.scopes.len() ==> !(#[trigger] self@[j]).contains_key(name@),
            decreases k,
        {
            k = k - 1;
            match find(&self.scopes[k], &name) {
                Some(i) => {
                    let binding = Binding { name, value: Some(val) };
                    proof {
                        lemma_scope_update(self.scopes@[k as int]@, i as int, binding);
                        lemma_assign_at(old(self)@, k as int, name@, val@);
                    }
                    self.scopes[k][i] = binding;
                    assert(self@ =~= old(self)@.update(
                        k as int,
                        old(self)@[k as int].insert(name@, Some(val@)),
                    ));
                    return Ok(());
                },
                None => {},
            }
        }
        proof {
            lemma_assign_nowhere(self@, name@, val@);
        }
        Err(RuntimeError::AssignToUndeclaredVariable(name))
    }

    /// The value of `name` in the nearest scope that holds it: nil where it
    /// has none yet.
    pub fn get_var(&self, name: &String) -> (r: Result<RValue, RuntimeError>)
        requires
            self.wf(),
        ensures
            match r {
                Ok(v) => env_get(self@, name@) == Ok::<RValueView, RuntimeErrorView>(v@),
                Err(e) => env_get(self@, name@) == Err::<RValueView, RuntimeErrorView>(e@),
            },
    {
        let mut k: usize = self.scopes.len();
        while k > 0
            invariant
                k <= self.scopes.len(),
                forall|j: int| k <= j < self.scopes.len() ==> !(#[trigger] self@[j]).contains_key(name@),
            decreases k,
        {
            k = k - 1;
            match find(&self.scopes[k], name) {
                Some(i) => {
                    proof {
                        lemma_lookup_at(self@, k as int, name@);
                    }
                    return match &self.scopes[k][i].value {
                        Some(v) => Ok(v.clone()),
                        None => Ok(RValue::Null),
                    };
                },
                None => {},
            }
        }
        proof {
            lemma_lookup_nowhere(self@, name@);
        }
        Err(RuntimeError::UndefinedVariable(name.clone()))
    }
}

/// Where no scope holds `name`, looking it up finds nothing.
pub proof fn lemma_lookup_nowhere(env: EnvView, name: Seq<char>)
    requires
        forall|j: int| 0 <= j < env.len() ==> !(#[trigger] env[j]).contains_key(name),
    ensures
        env_lookup(env, name) is None,
    decreases env.len(),
{
    if env.len() > 0 {
        assert(!env.last().contains_key(name));
        assert forall|j: int| 0 <= j < env.drop_last().len() implies !(#[trigger] env.drop_last()[
            j
        ]).contains_key(name) by {
            assert(env.drop_last()[j] == env[j]);
        }
        lemma_lookup_nowhere(env.drop_last(), name);
    }
}

/// Where scope `k` holds `name` and no scope within it does, looking `name`
/// up finds what scope `k` holds.
pub proof fn lemma_lookup_at(env: EnvView, k: int, name: Seq<char>)
    requires
        0 <= k < env.len(),
        env[k].contains_key(name),
        forall|j: int| k < j < env.len() ==> !(#[trigger] env[j]).contains_key(name),
    ensures
        env_lookup(env, name) == Some(env[k][name]),
    decreases env.len(),
{
    if k < env.len() - 1 {
        assert(!env.last().contains_key(name));
        assert forall|j: int| k < j < env.drop_last().len() implies !(#[trigger] env.drop_last()[
            j
        ]).contains_key(name) by {
            assert(env.drop_last()[j] == env[j]);
        }
        assert(env.drop_last()[k] == env[k]);
        lemma_lookup_at(env.drop_last(), k, name);
    }
}

/// Where no scope holds `name`, it cannot be assigned.
pub proof fn lemma_assign_nowhere(env: EnvView, name: Seq<char>, v: RValueView)
    requires
        forall|j: int| 0 <= j < env.len() ==> !(#[trigger] env[j]).contains_key(name),
    ensures
        env_assign(env, name, v) is None,
    decreases env.len(),
{
    if env.len() > 0 {
        assert(!env.last().contains_key(name));
        assert forall|j: int| 0 <= j < env.drop_last().len() implies !(#[trigger] env.drop_last()[
            j
        ]).contains_key(name) by {
            assert(env.drop_last()[j] == env[j]);
        }
        lemma_assign_nowhere(env.drop_last(), name, v);
    }
}

/// Where scope `k` holds `name` and no scope within it does, assigning
/// `name` changes scope `k` and nothing else.
pub proof fn lemma_assign_at(env: EnvView, k: int, name: Seq<char>, v: RValueView)
    requires
        0 <= k < env.len(),
        env[k].contains_key(name),
        forall|j: int| k < j < env.len() ==> !(#[trigger] env[j]).contains_key(name),
    ensures
        env_assign(env, name, v) == Some(env.update(k, env[k].insert(name, Some(v)))),
    decreases env.len(),
{
    if k < env.len() - 1 {
        assert(!env.last().contains_key(name));
        assert forall|j: int| k < j < env.drop_last().len() implies !(#[trigger] env.drop_last()[
            j
        ]).contains_key(name) by {
            assert(env.drop_last()[j] == env[j]);
        }
        assert(env.drop_last()[k] == env[k]);
        lemma_assign_at(env.drop_last(), k, name, v);
        assert(env.drop_last().update(k, env[k].insert(name, Some(v))).push(env.last())
            =~= env.update(k, env[k].insert(name, Some(v))));
    }
}

/// Assigning never changes the number of scopes.
pub proof fn lemma_assign_len(env: EnvView, name: Seq<char>, v: RValueView)
    ensures
        env_assign(env, name, v) matches Some(after) ==> after.len() == env.len(),
    decreases env.len(),
{
    if env.len() > 0 && !env.last().contains_key(name) {
        lemma_assign_len(env.drop_last(), name, v);
    }
}

/// A name that was declared in a scope cannot be declared in that scope
/// again; in a scope opened within it, it can.
pub proof fn lemma_declare_again(
    env: EnvView,
    name: Seq<char>,
    first: Option<RValueView>,
    second: Option<RValueView>,
)
    requires
        env_declare(env, name, first) is Some,
    ensures
        env_declare(env_declare(env, name, first)->0, name, second) is None,
        env_declare(
            env_declare(env, name, first)->0.push(ScopeView::empty()),
            name,
            second,
        ) is Some,
{
}

/// A name reads as the value that it was declared with, and as nil where it
/// was declared without one.
pub proof fn lemma_declared_reads(env: EnvView, name: Seq<char>, v: Option<RValueView>)
    requires
        env_declare(env, name, v) is Some,
    ensures
        env_get(env_declare(env, name, v)->0, name) == Ok::<RValueView, RuntimeErrorView>(
            match v {
                Some(x) => x,
                None => RValueView::Null,
            },
        ),
{
}

/// A name can be assigned where it can be read, and nowhere else:
/// assigning declares nothing.
pub proof fn lemma_assign_needs_declaration(env: EnvView, name: Seq<char>, v: RValueView)
    ensures
        env_assign(env, name, v) is Some <==> env_lookup(env, name) is Some,
        env_assign(env, name, v) matches Some(after) ==> env_get(after, name) == Ok::<
            RValueView,
            RuntimeErrorView,
        >(v),
    decreases env.len(),
{
    if env.len() > 0 {
        if env.last().contains_key(name) {
            let after = env.update(env.len() - 1, env.last().insert(name, Some(v)));
            assert(after.last().contains_key(name));
        } else {
            lemma_assign_needs_declaration(env.drop_last(), name, v);
            match env_assign(env.drop_last(), name, v) {
                Some(outer) => {
                    let after = outer.push(env.last());
                    assert(after.last() == env.last());
                    assert(after.drop_last() =~= outer);
                },
                None => {},
            }
        }
    }
}

} // verus!
