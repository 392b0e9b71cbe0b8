//! The table of stored variables: name and value pairs in the order in which
//! they were first stored. Storing under a name that is present replaces that
//! entry's value; deleting a name removes its entries.
use vstd::prelude::*;

use crate::laws::{law_store_keeps_table_valid};
use crate::names::{name_error, validate_var_name};

verus! {

/// The index of the first entry called `name`, looking from `from` onwards.
pub open spec fn find_name<T>(vars: Seq<(String, T)>, name: Seq<char>, from: int) -> Option<int>
    decreases vars.len() - from,
{
    if from < 0 || from >= vars.len() {
        None
    } else if vars[from].0@ == name {
        Some(from)
    } else {
        find_name(vars, name, from + 1)
    }
}

/// The entries not called `name`, in order.
pub open spec fn without_name<T>(vars: Seq<(String, T)>, name: Seq<char>) -> Seq<(String, T)>
    decreases vars.len(),
{
    if vars.len() == 0 {
        vars
    } else if vars[0].0@ == name {
        without_name(vars.drop_first(), name)
    } else {
        seq![vars[0]] + without_name(vars.drop_first(), name)
    }
}

/// The table after storing `value` under `name`.
pub open spec fn stored<T>(vars: Seq<(String, T)>, name: String, value: T) -> Seq<(String, T)> {
    match find_name(vars, name@, 0) {
        Some(i) => vars.update(i, (name, value)),
        None => vars.push((name, value)),
    }
}

/// No two entries share a name.
pub open spec fn distinct_names<T>(vars: Seq<(String, T)>) -> bool {
    forall|i: int, j: int| 0 <= i < j < vars.len() ==> vars[i].0@ != vars[j].0@
}

/// A table as the calculator keeps it: every name may name a variable, and no
/// two entries share a name.
pub open spec fn valid_table<T>(vars: Seq<(String, T)>) -> bool {
    &&& distinct_names(vars)
    &&& forall|i: int| 0 <= i < vars.len() ==> name_error((#[trigger] vars[i]).0@) is None
}

pub proof fn lemma_find_name<T>(vars: Seq<(String, T)>, name: Seq<char>, from: int)
    requires
        0 <= from,
    ensures
        find_name(vars, name, from) matches Some(i) ==> from <= i < vars.len() && vars[i].0@
            == name && forall|k: int| from <= k < i ==> vars[k].0@ != name,
        find_name(vars, name, from) is None ==> forall|k: int|
            from <= k < vars.len() ==> vars[k].0@ != name,
    decreases vars.len() - from,
{
    if from < vars.len() && vars[from].0@ != name {
        lemma_find_name(vars, name, from + 1);
    }
}

/// Stores `value` under `name`: the first entry of that name gets the value,
/// or, if there is none, a new entry is added at the end.
pub fn store_variable<T>(vars: &mut Vec<(String, T)>, name: String, value: T)
    ensures
        final(vars)@ == stored(old(vars)@, name, value),
{
    match position_of(vars, &name) {
        Some(i) => vars.set(i, (name, value)),
        None => vars.push((name, value)),
    }
}

/// Stores the current result under the name the user typed: a name that
/// `validate_var_name` rejects is refused with its message, a missing result
/// with "No valid result to store"; otherwise the value is stored. A valid
/// table stays valid.
pub fn try_store_variable<T>(vars: &mut Vec<(String, T)>, name: String, value: Option<T>) -> (r:
    Result<(), String>)
    ensures
        match name_error(name@) {
            Some(msg) => r matches Err(e) && e@ == msg && final(vars)@ == old(vars)@,
            None => match value {
                None => r matches Err(e) && e@ == "No valid result to store"@ && final(vars)@
                    == old(vars)@,
                Some(v) => r is Ok && final(vars)@ == stored(old(vars)@, name, v),
            },
        },
        valid_table(old(vars)@) ==> valid_table(final(vars)@),
{
    validate_var_name(name.as_str())?;
    match value {
        Some(v) => {
            proof {
                if valid_table(vars@) {
                    law_store_keeps_table_valid(vars@, name, v);
                }
            }
            store_variable(vars, name, v);
            Ok(())
        },
        None => Err(String::from_str("No valid result to store")),
    }
}

/// The index of the first entry called `name`.
fn position_of<T>(vars: &Vec<(String, T)>, name: &String) -> (r: Option<usize>)
    ensures
        r matches Some(i) ==> i < vars@.len(),
        match r {
            Some(i) => find_name(vars@, name@, 0) == Some(i as int),
            None => find_name(vars@, name@, 0) is None,
        },
{
    let mut i: usize = 0;
    while i < vars.len()
        invariant
            i <= vars@.len(),
            find_name(vars@, name@, 0) == find_name(vars@, name@, i as int),
        decreases vars@.len() - i,
    {
        if vars[i].0 == *name {
            return Some(i);
        }
        i = i + 1;
    }
    None
}

/// Removes every entry called `name`, keeping the others in order.
pub fn delete_variable<T>(vars: &mut Vec<(String, T)>, name: &String)
    ensures
        final(vars)@ == without_name(old(vars)@, name@),
{
    let ghost start = vars@;
    let mut i: usize = vars.len();
    assert(start.skip(i as int) =~= Seq::<(String, T)>::empty());
    assert(start.take(i as int) =~= start);
    while i > 0
        invariant
            i <= start.len(),
            vars@ == start.take(i as int) + without_name(start.skip(i as int), name@),
        decreases i,
    {
        let ghost rest = without_name(start.skip(i as int), name@);
        assert(start.skip(i - 1).drop_first() =~= start.skip(i as int));
        assert(start.skip(i - 1)[0] == start[i - 1]);
        assert(vars@[i - 1] == start[i - 1]);
        if vars[i - 1].0 == *name {
            vars.remove(i - 1);
            assert(vars@ =~= start.take(i - 1) + rest);
        } else {
            assert(start.take(i as int) =~= start.take(i - 1) + seq![start[i - 1]]);
        }
        i = i - 1;
        assert(vars@ =~= start.take(i as int) + without_name(start.skip(i as int), name@));
    }
    assert(start.skip(0) =~= start);
    assert(vars@ =~= without_name(start, name@));
}

} // verus!
