//! Environment variables that are set for a while and then put back.
use vstd::prelude::*;

use crate::names::NameMap;

verus! {

/// A change to one environment variable.
#[derive(Debug, PartialEq, Eq)]
pub enum EnvStep<V> {
    /// Give the variable `name` the value `value`.
    Assign { name: String, value: V },
    /// Remove the variable `name`.
    Remove { name: String },
}

/// What an `EnvStep` does.
#[verifier::ext_equal]
pub enum EnvStepView<V> {
    Assign { name: Seq<char>, value: V },
    Remove { name: Seq<char> },
}

impl<V> EnvStep<V> {
    /// What the step does.
    pub open spec fn told(self) -> EnvStepView<V> {
        match self {
            EnvStep::Assign { name, value } => EnvStepView::Assign { name: name@, value },
            EnvStep::Remove { name } => EnvStepView::Remove { name: name@ },
        }
    }
}

/// The environment after one change.
pub open spec fn after_step<V>(env: Map<Seq<char>, V>, step: EnvStepView<V>) -> Map<Seq<char>, V> {
    match step {
        EnvStepView::Assign { name, value } => env.insert(name, value),
        EnvStepView::Remove { name } => env.remove(name),
    }
}

/// The environment after some changes, the first of them first.
pub open spec fn after_steps<V>(env: Map<Seq<char>, V>, steps: Seq<EnvStepView<V>>) -> Map<
    Seq<char>,
    V,
>
    decreases steps.len(),
{
    if steps.len() == 0 {
        env
    } else {
        after_step(after_steps(env, steps.drop_last()), steps.last())
    }
}

/// The change that gives a variable back what it was saved with.
pub open spec fn putting_back<V>(saved: (Seq<char>, Option<V>)) -> EnvStepView<V> {
    match saved.1 {
        Some(value) => EnvStepView::Assign { name: saved.0, value },
        None => EnvStepView::Remove { name: saved.0 },
    }
}

/// The changes that give all variables back what they were saved with, the last saved first.
pub open spec fn putting_all_back<V>(saved: Seq<(Seq<char>, Option<V>)>) -> Seq<EnvStepView<V>> {
    Seq::new(saved.len(), |i: int| putting_back(saved[saved.len() - 1 - i]))
}

/// Variables that are set for a while, each with what it was before, if it was there. The values
/// of the environment are the host's matter.
#[derive(Debug, PartialEq, Eq)]
pub struct ScopedEnvVars<V> {
    previous: Vec<(String, Option<V>)>,
}

impl<V> ScopedEnvVars<V> {
    /// The variables that are set so far, each with what it was before.
    pub closed spec fn saved(self) -> Seq<(Seq<char>, Option<V>)> {
        Seq::new(self.previous@.len(), |i: int| (self.previous@[i].0@, self.previous@[i].1))
    }

    /// Starts with nothing set.
    pub fn new() -> (scope: Self)
        ensures
            scope.saved() == Seq::<(Seq<char>, Option<V>)>::empty(),
    {
        let scope = ScopedEnvVars { previous: Vec::new() };
        assert(scope.saved() =~= Seq::<(Seq<char>, Option<V>)>::empty());
        scope
    }

    /// The one of `vars` that is to be saved and set next, with its value.
    pub fn next<'a>(&self, vars: &'a NameMap<String>) -> (var: Option<(&'a String, &'a String)>)
        ensures
            match var {
                Some((name, value)) => self.saved().len() < vars.listed().len() && (name@, value@)
                    == vars.listed()[self.saved().len() as int],
                None => self.saved().len() >= vars.listed().len(),
            },
    {
        let at = self.previous.len();
        if at < vars.len() {
            Some((vars.name_at(at), vars.value_at(at)))
        } else {
            None
        }
    }

    /// Remembers that the variable `name` had the value `previous`, before it is set.
    pub fn save(&mut self, name: String, previous: Option<V>)
        ensures
            final(self).saved() == old(self).saved().push((name@, previous)),
    {
        let ghost before = self.saved();
        self.previous.push((name, previous));
        assert(self.saved() =~= before.push((name@, previous)));
    }

    /// The changes that put everything back.
    pub fn restore(self) -> (steps: Vec<EnvStep<V>>)
        ensures
            Seq::new(steps@.len(), |i: int| steps@[i].told()) == putting_all_back(self.saved()),
    {
        let ghost saved = self.saved();
        let mut previous = self.previous;
        let mut steps: Vec<EnvStep<V>> = Vec::new();
        while previous.len() > 0
            invariant
                previous@.len() + steps@.len() == saved.len(),
                forall|i: int|
                    0 <= i < previous@.len() ==> saved[i] == (
                        (#[trigger] previous@[i]).0@,
                        previous@[i].1,
                    ),
                forall|i: int|
                    0 <= i < steps@.len() ==> (#[trigger] steps@[i]).told() == putting_back(
                        saved[saved.len() - 1 - i],
                    ),
            decreases previous@.len(),
        {
            assert(saved[previous@.len() - 1] == (previous@.last().0@, previous@.last().1));
            match previous.pop() {
                Some((name, Some(value))) => steps.push(EnvStep::Assign { name, value }),
                Some((name, None)) => steps.push(EnvStep::Remove { name }),
                None => {},
            }
        }
        assert(Seq::new(steps@.len(), |i: int| steps@[i].told()) =~= putting_all_back(saved));
        steps
    }
}

/// What the environment has for `name`, if anything.
pub open spec fn value_in<V>(env: Map<Seq<char>, V>, name: Seq<char>) -> Option<V> {
    if env.contains_key(name) {
        Some(env[name])
    } else {
        None
    }
}

/// What is saved where `vars` are set one after the other, beginning with `env`.
pub open spec fn saved_while_setting<V>(env: Map<Seq<char>, V>, vars: Seq<(Seq<char>, V)>) -> Seq<
    (Seq<char>, Option<V>),
>
    decreases vars.len(),
{
    if vars.len() == 0 {
        seq![]
    } else {
        let (name, value) = vars[0];
        seq![(name, value_in(env, name))] + saved_while_setting(env.insert(name, value), vars.drop_first())
    }
}

/// The environment after `vars` are set one after the other.
pub open spec fn after_setting<V>(env: Map<Seq<char>, V>, vars: Seq<(Seq<char>, V)>) -> Map<
    Seq<char>,
    V,
>
    decreases vars.len(),
{
    if vars.len() == 0 {
        env
    } else {
        after_setting(env.insert(vars[0].0, vars[0].1), vars.drop_first())
    }
}

/// Putting everything back leaves the environment as it was before anything was set, also where a
/// variable was set more than once.
pub proof fn lemma_restoring_undoes_setting<V>(env: Map<Seq<char>, V>, vars: Seq<(Seq<char>, V)>)
    ensures
        after_steps(
            after_setting(env, vars),
            putting_all_back(saved_while_setting(env, vars)),
        ) == env,
    decreases vars.len(),
{
    let saved = saved_while_setting(env, vars);
    let steps = putting_all_back(saved);
    if vars.len() > 0 {
        let (name, value) = vars[0];
        let next = env.insert(name, value);
        let rest = saved_while_setting(next, vars.drop_first());
        lemma_restoring_undoes_setting(next, vars.drop_first());
        assert(saved.len() == rest.len() + 1);
        assert(steps.drop_last() =~= putting_all_back(rest)) by {
            assert forall|i: int| 0 <= i < rest.len() implies steps[i] == putting_all_back(
                rest,
            )[i] by {
                assert(saved[saved.len() - 1 - i] == rest[rest.len() - 1 - i]);
            }
        }
        assert(steps.last() == putting_back(saved[0]));
        assert(after_step(next, putting_back(saved[0])) =~= env);
    }
}

/// Setting goes on one variable at a time: nothing is saved at first; and where the first `at` of
/// `vars` are set and saved, then saving the next with what the environment has for it, and
/// setting it, makes it the first `at + 1`.
pub proof fn lemma_saving_follows_setting<V>(
    env: Map<Seq<char>, V>,
    vars: Seq<(Seq<char>, V)>,
    at: int,
)
    requires
        0 <= at < vars.len(),
    ensures
        saved_while_setting(env, vars.take(0)) == Seq::<(Seq<char>, Option<V>)>::empty(),
        after_setting(env, vars.take(0)) == env,
        saved_while_setting(env, vars.take(at)).len() == at,
        saved_while_setting(env, vars.take(at + 1)) == saved_while_setting(
            env,
            vars.take(at),
        ).push((vars[at].0, value_in(after_setting(env, vars.take(at)), vars[at].0))),
        after_setting(env, vars.take(at + 1)) == after_setting(env, vars.take(at)).insert(
            vars[at].0,
            vars[at].1,
        ),
    decreases at,
{
    reveal_with_fuel(saved_while_setting, 2);
    reveal_with_fuel(after_setting, 2);
    if at == 0 {
        assert(vars.take(1).drop_first() =~= Seq::<(Seq<char>, V)>::empty());
        assert(saved_while_setting(env, vars.take(1)) =~= seq![(vars[0].0, value_in(env, vars[0].0))]);
        assert(saved_while_setting(env, vars.take(0)) =~= Seq::empty());
    } else {
        let rest = vars.drop_first();
        let next = env.insert(vars[0].0, vars[0].1);
        assert(vars.take(at).drop_first() =~= rest.take(at - 1));
        assert(vars.take(at + 1).drop_first() =~= rest.take(at));
        assert(vars.take(at)[0] == vars[0]);
        assert(vars.take(at + 1)[0] == vars[0]);
        assert(rest[at - 1] == vars[at]);
        lemma_saving_follows_setting(next, rest, at - 1);
        let first = seq![(vars[0].0, value_in(env, vars[0].0))];
        let before = saved_while_setting(next, rest.take(at - 1));
        let entry = (vars[at].0, value_in(after_setting(next, rest.take(at - 1)), vars[at].0));
        assert(first + before.push(entry) =~= (first + before).push(entry));
    }
}

/// Where each variable was saved with what the environment had for it when its turn came, as
/// many as there are, putting everything back leaves the environment as it was before.
pub proof fn lemma_scope_is_undone<V>(
    scope: ScopedEnvVars<V>,
    env: Map<Seq<char>, V>,
    vars: Seq<(Seq<char>, V)>,
)
    requires
        scope.saved().len() == vars.len(),
        forall|at: int|
            0 <= at < vars.len() ==> #[trigger] scope.saved()[at] == (
                vars[at].0,
                value_in(after_setting(env, vars.take(at)), vars[at].0),
            ),
    ensures
        after_steps(after_setting(env, vars), putting_all_back(scope.saved())) == env,
{
    lemma_saved_up_to(scope.saved(), env, vars, vars.len() as int);
    assert(vars.take(vars.len() as int) =~= vars);
    assert(scope.saved().take(vars.len() as int) =~= scope.saved());
    lemma_restoring_undoes_setting(env, vars);
}

proof fn lemma_saved_up_to<V>(
    saved: Seq<(Seq<char>, Option<V>)>,
    env: Map<Seq<char>, V>,
    vars: Seq<(Seq<char>, V)>,
    upto: int,
)
    requires
        saved.len() == vars.len(),
        0 <= upto <= vars.len(),
        forall|at: int|
            0 <= at < vars.len() ==> #[trigger] saved[at] == (
                vars[at].0,
                value_in(after_setting(env, vars.take(at)), vars[at].0),
            ),
    ensures
        saved.take(upto) == saved_while_setting(env, vars.take(upto)),
    decreases upto,
{
    if upto == 0 {
        assert(saved.take(0) =~= saved_while_setting(env, vars.take(0)));
    } else {
        let at = upto - 1;
        lemma_saved_up_to(saved, env, vars, at);
        lemma_saving_follows_setting(env, vars, at);
        assert(saved.take(upto) =~= saved.take(at).push(saved[at]));
    }
}

} // verus!
