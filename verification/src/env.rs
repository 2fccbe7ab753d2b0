//! The changes that a command makes to the environment it inherits.

use vstd::prelude::*;

use crate::bytes::{
    copy_bytes, lemma_precedes_irreflexive, lemma_precedes_transitive, place, precedes, Place,
};

verus! {

/// A variable with the value that it is set to, or `None` where it is removed.
pub type EnvVar = (Vec<u8>, Option<Vec<u8>>);

/// What an optional byte string holds.
pub open spec fn optional_contents(value: Option<Vec<u8>>) -> Option<Seq<u8>> {
    match value {
        Some(bytes) => Some(bytes@),
        None => None,
    }
}

/// Whether a list of variables is in the order of their names, each name once.
pub open spec fn in_order(vars: Seq<EnvVar>) -> bool {
    forall|i: int, j: int|
        0 <= i < j < vars.len() ==> precedes(
            #[trigger] vars[i].0@,
            #[trigger] vars[j].0@,
        )
}

/// Whether a list names a variable.
pub open spec fn names(vars: Seq<EnvVar>, key: Seq<u8>) -> bool {
    exists|i: int| 0 <= i < vars.len() && #[trigger] vars[i].0@ == key
}

/// The map from name to change that a list of variables stands for.
pub open spec fn changes(vars: Seq<EnvVar>) -> Map<Seq<u8>, Option<Seq<u8>>> {
    Map::new(
        |key: Seq<u8>| names(vars, key),
        |key: Seq<u8>|
            optional_contents(
                vars[choose|i: int| 0 <= i < vars.len() && #[trigger] vars[i].0@ == key].1,
            ),
    )
}

/// In a list that is in order, every entry says what the map has for its name.
proof fn lemma_changes_at(vars: Seq<EnvVar>, i: int)
    requires
        in_order(vars),
        0 <= i < vars.len(),
    ensures
        changes(vars).contains_key(vars[i].0@),
        changes(vars)[vars[i].0@] == optional_contents(vars[i].1),
{
    let key = vars[i].0@;
    let j = choose|j: int| 0 <= j < vars.len() && #[trigger] vars[j].0@ == key;
    assert(vars[i].0@ == key);
    lemma_precedes_irreflexive(key);
    assert(i == j);
}

/// Changes to an environment: variables to set, variables to remove, and
/// whether anything is inherited at all.
pub struct EnvChanges {
    vars: Vec<EnvVar>,
    cleared: bool,
}

impl EnvChanges {
    #[verifier::type_invariant]
    closed spec fn inv(self) -> bool {
        in_order(self.vars@)
    }

    /// The change to each variable that is named: a value, or `None` where the
    /// variable is removed.
    pub closed spec fn vars(self) -> Map<Seq<u8>, Option<Seq<u8>>> {
        changes(self.vars@)
    }

    /// Whether the inherited environment is dropped.
    pub closed spec fn cleared(self) -> bool {
        self.cleared
    }

    /// No changes.
    pub fn new() -> (env: Self)
        ensures
            env.vars() == Map::<Seq<u8>, Option<Seq<u8>>>::empty(),
            !env.cleared(),
    {
        let env = EnvChanges { vars: Vec::new(), cleared: false };
        assert(env.vars() =~= Map::<Seq<u8>, Option<Seq<u8>>>::empty());
        env
    }

    /// Finds a variable: its index, or the index at which it belongs.
    fn find(&self, key: &[u8]) -> (found: (usize, bool))
        ensures
            found.0 <= self.vars@.len(),
            found.1 == names(self.vars@, key@),
            found.1 ==> found.0 < self.vars@.len() && self.vars@[found.0 as int].0@ == key@,
            forall|i: int|
                0 <= i < found.0 ==> precedes(#[trigger] self.vars@[i].0@, key@),
            forall|i: int|
                found.0 <= i < self.vars@.len() && !found.1 ==> precedes(
                    key@,
                    #[trigger] self.vars@[i].0@,
                ),
    {
        proof {
            use_type_invariant(self);
            lemma_precedes_irreflexive(key@);
        }
        let mut at: usize = 0;
        while at < self.vars.len()
            invariant
                at <= self.vars@.len(),
                in_order(self.vars@),
                !precedes(key@, key@),
                forall|i: int|
                    0 <= i < at ==> precedes(#[trigger] self.vars@[i].0@, key@),
            decreases self.vars@.len() - at,
        {
            match place(self.vars[at].0.as_slice(), key) {
                Place::Before => {
                    at = at + 1;
                },
                Place::Same => {
                    assert(self.vars@[at as int].0@ == key@);
                    return (at, true);
                },
                Place::After => {
                    assert forall|i: int| at <= i < self.vars@.len() implies precedes(
                        key@,
                        #[trigger] self.vars@[i].0@,
                    ) by {
                        if i > at {
                            lemma_precedes_transitive(
                                key@,
                                self.vars@[at as int].0@,
                                self.vars@[i].0@,
                            );
                        }
                    }
                    return (at, false);
                },
            }
        }
        (at, false)
    }

    /// Records a change to one variable, in place of an earlier one.
    fn record(&mut self, key: &[u8], value: Option<Vec<u8>>)
        ensures
            final(self).vars() == old(self).vars().insert(key@, optional_contents(value)),
            final(self).cleared() == old(self).cleared(),
    {
        let (at, found) = self.find(key);
        let name = copy_bytes(key);
        proof {
            use_type_invariant(&*self);
        }
        let mut vars: Vec<EnvVar> = Vec::new();
        std::mem::swap(&mut vars, &mut self.vars);
        let ghost before = vars@;
        let ghost entry = (name, value);
        if found {
            vars[at] = (name, value);
            assert(vars@ == before.update(at as int, entry));
        } else {
            vars.insert(at, (name, value));
            assert(vars@ == before.insert(at as int, entry));
        }
        proof {
            lemma_recorded(before, vars@, at as int, found, entry);
        }
        self.vars = vars;
    }

    /// Sets a variable.
    pub fn set(&mut self, key: &[u8], value: &[u8])
        ensures
            final(self).vars() == old(self).vars().insert(key@, Some(value@)),
            final(self).cleared() == old(self).cleared(),
    {
        let value = copy_bytes(value);
        self.record(key, Some(value));
    }

    /// Removes a variable. Where nothing is inherited it is enough to forget
    /// the variable; else its removal is recorded.
    pub fn remove(&mut self, key: &[u8])
        ensures
            final(self).vars() == if old(self).cleared() {
                old(self).vars().remove(key@)
            } else {
                old(self).vars().insert(key@, None)
            },
            final(self).cleared() == old(self).cleared(),
    {
        if !self.cleared {
            self.record(key, None);
            return;
        }
        let (at, found) = self.find(key);
        proof {
            use_type_invariant(&*self);
        }
        let mut vars: Vec<EnvVar> = Vec::new();
        std::mem::swap(&mut vars, &mut self.vars);
        let ghost before = vars@;
        if found {
            let _ = vars.remove(at);
            proof {
                lemma_forgotten(before, at as int);
            }
        } else {
            assert(changes(before) =~= changes(before).remove(key@));
        }
        self.vars = vars;
    }

    /// Forgets every variable and drops the inherited environment.
    pub fn clear(&mut self)
        ensures
            final(self).vars() == Map::<Seq<u8>, Option<Seq<u8>>>::empty(),
            final(self).cleared(),
    {
        self.vars = Vec::new();
        self.cleared = true;
        assert(self.vars() =~= Map::<Seq<u8>, Option<Seq<u8>>>::empty());
    }

    /// The changes, in the order of the variables' names.
    pub fn list(&self) -> (list: &Vec<EnvVar>)
        ensures
            in_order(list@),
            changes(list@) == self.vars(),
    {
        proof {
            use_type_invariant(self);
        }
        &self.vars
    }

    /// Whether the inherited environment is dropped.
    pub fn is_cleared(&self) -> (cleared: bool)
        ensures
            cleared == self.cleared(),
    {
        self.cleared
    }
}

impl Clone for EnvChanges {
    fn clone(&self) -> (copy: Self)
        ensures
            copy.vars() == self.vars(),
            copy.cleared() == self.cleared(),
    {
        proof {
            use_type_invariant(self);
        }
        let mut vars: Vec<EnvVar> = Vec::new();
        for i in 0..self.vars.len()
            invariant
                vars@.len() == i,
                forall|j: int|
                    0 <= j < i ==> (#[trigger] vars@[j]).0@ == self.vars@[j].0@
                        && optional_contents(vars@[j].1) == optional_contents(self.vars@[j].1),
        {
            let name = copy_bytes(self.vars[i].0.as_slice());
            let value = match &self.vars[i].1 {
                Some(value) => Some(copy_bytes(value.as_slice())),
                None => None,
            };
            vars.push((name, value));
        }
        proof {
            lemma_copied(self.vars@, vars@);
        }
        EnvChanges { vars, cleared: self.cleared }
    }
}

/// A list that holds the same as one that is in order is in order, and stands
/// for the same map.
proof fn lemma_copied(list: Seq<EnvVar>, copy: Seq<EnvVar>)
    requires
        in_order(list),
        copy.len() == list.len(),
        forall|i: int|
            0 <= i < list.len() ==> (#[trigger] copy[i]).0@ == list[i].0@ && optional_contents(
                copy[i].1,
            ) == optional_contents(list[i].1),
    ensures
        in_order(copy),
        changes(copy) == changes(list),
{
    assert forall|i: int, j: int| 0 <= i < j < copy.len() implies precedes(
        #[trigger] copy[i].0@,
        #[trigger] copy[j].0@,
    ) by {
        assert(precedes(list[i].0@, list[j].0@));
    }
    assert forall|key: Seq<u8>| #[trigger] changes(copy).contains_key(key) implies {
        &&& changes(list).contains_key(key)
        &&& changes(copy)[key] == changes(list)[key]
    } by {
        let i = choose|i: int| 0 <= i < copy.len() && #[trigger] copy[i].0@ == key;
        lemma_changes_at(copy, i);
        lemma_changes_at(list, i);
    }
    assert forall|key: Seq<u8>| #[trigger] changes(list).contains_key(key) implies changes(
        copy,
    ).contains_key(key) by {
        let i = choose|i: int| 0 <= i < list.len() && #[trigger] list[i].0@ == key;
        assert(copy[i].0@ == key);
    }
    assert(changes(copy) =~= changes(list));
}

/// A list that is in order stays so when an entry is replaced or put where it
/// belongs, and the map gains that entry.
proof fn lemma_recorded(
    before: Seq<EnvVar>,
    after: Seq<EnvVar>,
    at: int,
    found: bool,
    entry: EnvVar,
)
    requires
        in_order(before),
        0 <= at <= before.len(),
        found ==> at < before.len() && before[at].0@ == entry.0@,
        found ==> after == before.update(at, entry),
        !found ==> after == before.insert(at, entry),
        forall|i: int|
            0 <= i < at ==> precedes(#[trigger] before[i].0@, entry.0@),
        forall|i: int|
            at <= i < before.len() && !found ==> precedes(
                entry.0@,
                #[trigger] before[i].0@,
            ),
    ensures
        in_order(after),
        changes(after) == changes(before).insert(entry.0@, optional_contents(entry.1)),
{
    if !found {
        before.insert_ensures(at, entry);
    }
    let shift: int = if found {
        0
    } else {
        1
    };
    assert(forall|i: int| 0 <= i < at ==> #[trigger] after[i] == before[i]);
    assert(after[at] == entry);
    assert(forall|i: int| at < i < after.len() ==> #[trigger] after[i] == before[i - shift]);
    assert forall|i: int, j: int| 0 <= i < j < after.len() implies precedes(
        #[trigger] after[i].0@,
        #[trigger] after[j].0@,
    ) by {
        if i == at && found {
            assert(precedes(before[at].0@, before[j].0@));
        }
    }
    let expected = changes(before).insert(entry.0@, optional_contents(entry.1));
    assert forall|key: Seq<u8>| #[trigger] changes(after).contains_key(key) implies {
        &&& expected.contains_key(key)
        &&& changes(after)[key] == expected[key]
    } by {
        let i = choose|i: int| 0 <= i < after.len() && #[trigger] after[i].0@ == key;
        lemma_changes_at(after, i);
        if i == at {
        } else {
            let k = if i < at {
                i
            } else {
                i - shift
            };
            assert(before[k] == after[i]);
            lemma_changes_at(before, k);
            lemma_precedes_irreflexive(key);
            assert(key != entry.0@) by {
                assert(precedes(after[i].0@, after[at].0@)
                    || precedes(after[at].0@, after[i].0@));
            }
        }
    }
    assert forall|key: Seq<u8>| #[trigger] expected.contains_key(key) implies changes(
        after,
    ).contains_key(key) by {
        if key == entry.0@ {
            assert(after[at].0@ == key);
        } else {
            let k = choose|k: int| 0 <= k < before.len() && #[trigger] before[k].0@ == key;
            let i = if k < at {
                k
            } else {
                k + shift
            };
            assert(after[i] == before[k]);
            assert(after[i].0@ == key);
        }
    }
    assert(changes(after) =~= expected);
}

/// A list that is in order stays so when an entry is taken out, and the map
/// loses that entry.
proof fn lemma_forgotten(before: Seq<EnvVar>, at: int)
    requires
        in_order(before),
        0 <= at < before.len(),
    ensures
        in_order(before.remove(at)),
        changes(before.remove(at)) == changes(before).remove(before[at].0@),
{
    let after = before.remove(at);
    let gone = before[at].0@;
    before.remove_ensures(at);
    assert(forall|i: int| 0 <= i < at ==> #[trigger] after[i] == before[i]);
    assert(forall|i: int| at <= i < after.len() ==> #[trigger] after[i] == before[i + 1]);
    let expected = changes(before).remove(gone);
    assert forall|key: Seq<u8>| #[trigger] changes(after).contains_key(key) implies {
        &&& expected.contains_key(key)
        &&& changes(after)[key] == expected[key]
    } by {
        let i = choose|i: int| 0 <= i < after.len() && #[trigger] after[i].0@ == key;
        lemma_changes_at(after, i);
        let k = if i < at {
            i
        } else {
            i + 1
        };
        assert(before[k] == after[i]);
        lemma_changes_at(before, k);
        lemma_precedes_irreflexive(key);
        assert(key != gone) by {
            assert(precedes(before[k].0@, before[at].0@)
                || precedes(before[at].0@, before[k].0@));
        }
    }
    assert forall|key: Seq<u8>| #[trigger] expected.contains_key(key) implies changes(
        after,
    ).contains_key(key) by {
        let k = choose|k: int| 0 <= k < before.len() && #[trigger] before[k].0@ == key;
        let i = if k < at {
            k
        } else {
            k - 1
        };
        assert(after[i] == before[k]);
        assert(after[i].0@ == key);
    }
    assert(changes(after) =~= expected);
}

/// A list that is in order is settled by the map it stands for: two such lists
/// for one map hold the same variables in the same places.
pub proof fn law_one_list_for_each_map(a: Seq<EnvVar>, b: Seq<EnvVar>)
    requires
        in_order(a),
        in_order(b),
        changes(a) == changes(b),
    ensures
        a.len() == b.len(),
        forall|i: int|
            0 <= i < a.len() ==> (#[trigger] a[i]).0@ == b[i].0@ && optional_contents(a[i].1)
                == optional_contents(b[i].1),
    decreases a.len(),
{
    if a.len() == 0 || b.len() == 0 {
        if a.len() > 0 {
            lemma_changes_at(a, 0);
        }
        if b.len() > 0 {
            lemma_changes_at(b, 0);
        }
    } else {
        let m = a.len() - 1;
        let n = b.len() - 1;
        lemma_changes_at(a, m);
        lemma_changes_at(b, n);
        // The last of either list is somewhere in the other, so neither comes after the other.
        let j = choose|j: int| 0 <= j < b.len() && #[trigger] b[j].0@ == a[m].0@;
        let i = choose|i: int| 0 <= i < a.len() && #[trigger] a[i].0@ == b[n].0@;
        assert(a[m].0@ == b[n].0@) by {
            lemma_precedes_irreflexive(a[m].0@);
            if j < n && i < m {
                lemma_precedes_transitive(a[m].0@, b[n].0@, a[m].0@);
            }
        }
        assert(a.remove(m) =~= a.drop_last());
        assert(b.remove(n) =~= b.drop_last());
        lemma_forgotten(a, m);
        lemma_forgotten(b, n);
        law_one_list_for_each_map(a.drop_last(), b.drop_last());
        assert forall|k: int| 0 <= k < a.len() implies (#[trigger] a[k]).0@ == b[k].0@
            && optional_contents(a[k].1) == optional_contents(b[k].1) by {
            if k < m {
                assert(a[k] == a.drop_last()[k]);
                assert(b[k] == b.drop_last()[k]);
            }
        }
    }
}

/// The environment of a process, given the one that could be inherited.
pub open spec fn child_env(
    inherited: Map<Seq<u8>, Seq<u8>>,
    vars: Map<Seq<u8>, Option<Seq<u8>>>,
    cleared: bool,
) -> Map<Seq<u8>, Seq<u8>> {
    Map::new(
        |key: Seq<u8>|
            if vars.contains_key(key) {
                vars[key] is Some
            } else {
                !cleared && inherited.contains_key(key)
            },
        |key: Seq<u8>|
            if vars.contains_key(key) {
                vars[key]->Some_0
            } else {
                inherited[key]
            },
    )
}

/// A variable that is set has the value it is set to, whatever is inherited,
/// and no other variable is touched.
pub proof fn law_set_variable(
    inherited: Map<Seq<u8>, Seq<u8>>,
    vars: Map<Seq<u8>, Option<Seq<u8>>>,
    cleared: bool,
    key: Seq<u8>,
    value: Seq<u8>,
)
    ensures
        child_env(inherited, vars.insert(key, Some(value)), cleared) == child_env(
            inherited,
            vars,
            cleared,
        ).insert(key, value),
{
    assert(child_env(inherited, vars.insert(key, Some(value)), cleared) =~= child_env(
        inherited,
        vars,
        cleared,
    ).insert(key, value));
}

/// A variable that is removed is not there, whether it was set or would be
/// inherited, and no other variable is touched. Where nothing is inherited,
/// forgetting it comes to the same as recording its removal.
pub proof fn law_removed_variable(
    inherited: Map<Seq<u8>, Seq<u8>>,
    vars: Map<Seq<u8>, Option<Seq<u8>>>,
    cleared: bool,
    key: Seq<u8>,
)
    ensures
        child_env(inherited, vars.insert(key, None), cleared) == child_env(
            inherited,
            vars,
            cleared,
        ).remove(key),
        cleared ==> child_env(inherited, vars.remove(key), cleared) == child_env(
            inherited,
            vars,
            cleared,
        ).remove(key),
{
    let without = child_env(inherited, vars, cleared).remove(key);
    assert(child_env(inherited, vars.insert(key, None), cleared) =~= without);
    if cleared {
        assert(child_env(inherited, vars.remove(key), cleared) =~= without);
    }
}

/// When everything has been cleared the environment is empty, whatever could be
/// inherited.
pub proof fn law_cleared_environment(inherited: Map<Seq<u8>, Seq<u8>>)
    ensures
        child_env(inherited, Map::empty(), true) == Map::<Seq<u8>, Seq<u8>>::empty(),
{
    assert(child_env(inherited, Map::empty(), true) =~= Map::<Seq<u8>, Seq<u8>>::empty());
}

/// An optional byte string holds what the byte string holds, where it is there.
pub proof fn law_optional_contents(bytes: Vec<u8>)
    ensures
        optional_contents(Some(bytes)) == Some(bytes@),
        optional_contents(None) is None,
{
}

/// In a list that is in order each name comes before every later one.
pub proof fn law_names_in_order(vars: Seq<EnvVar>, i: int, j: int)
    requires
        in_order(vars),
        0 <= i < j < vars.len(),
    ensures
        precedes(vars[i].0@, vars[j].0@),
{
}

/// The map that a list in order stands for has a change for each entry, with the
/// whole of its value or with none, and no other change.
pub proof fn law_map_of_a_list(vars: Seq<EnvVar>)
    requires
        in_order(vars),
    ensures
        forall|i: int|
            0 <= i < vars.len() ==> changes(vars).contains_key((#[trigger] vars[i]).0@) && (
            match vars[i].1 {
                Some(value) => changes(vars)[vars[i].0@] == Some(value@),
                None => changes(vars)[vars[i].0@] is None,
            }),
        forall|key: Seq<u8>| #[trigger]
            changes(vars).contains_key(key) ==> exists|i: int|
                0 <= i < vars.len() && (#[trigger] vars[i]).0@ == key,
{
    assert forall|i: int| 0 <= i < vars.len() implies changes(vars).contains_key(
        (#[trigger] vars[i]).0@,
    ) && (match vars[i].1 {
        Some(value) => changes(vars)[vars[i].0@] == Some(value@),
        None => changes(vars)[vars[i].0@] is None,
    }) by {
        lemma_changes_at(vars, i);
    }
}

/// A process gets the variables that are set, with the values that they are set
/// to; it gets those that it inherits, where it inherits any and they are neither
/// set nor removed; and it gets no others.
pub proof fn law_child_environment(
    inherited: Map<Seq<u8>, Seq<u8>>,
    vars: Map<Seq<u8>, Option<Seq<u8>>>,
    cleared: bool,
    key: Seq<u8>,
)
    ensures
        ({
            let found = child_env(inherited, vars, cleared);
            &&& vars.contains_key(key) && vars[key] is Some ==> found.contains_key(key)
                && vars[key] == Some(found[key])
            &&& vars.contains_key(key) && vars[key] is None ==> !found.contains_key(key)
            &&& !vars.contains_key(key) && !cleared ==> found.contains_key(key)
                == inherited.contains_key(key)
            &&& !vars.contains_key(key) && !cleared && inherited.contains_key(key) ==> found[key]
                == inherited[key]
            &&& !vars.contains_key(key) && cleared ==> !found.contains_key(key)
        }),
{
}

/// Without changes a process gets what could be inherited.
pub proof fn law_unchanged_environment(inherited: Map<Seq<u8>, Seq<u8>>)
    ensures
        child_env(inherited, Map::empty(), false) == inherited,
{
    assert(child_env(inherited, Map::empty(), false) =~= inherited);
}

} // verus!
