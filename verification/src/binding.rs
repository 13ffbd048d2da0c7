//! The rules of a deployment as the Python interface builds it: it deploys either a module or
//! a stack, and its variables are merged key by key as they are set.
use vstd::prelude::*;
use crate::mapping::{key_index, lemma_key_index};
use crate::text::{append_str, from_chars};
use crate::value::{entry_models, lemma_entry_models, model, Value, ValueModel};

verus! {

/// A deployment of the module (`false`) or stack (`true`) named so: its id is
/// `<module>/<name>`. Exactly one of `module` and `stack` must be given.
pub fn deployment_of(name: &str, module: Option<&str>, stack: Option<&str>) -> (r: Result<(String, bool), String>)
    ensures
        match (module, stack) {
            (None, None) => r matches Err(e) && e@ == "Either module or stack must be provided"@,
            (Some(_), Some(_)) => r matches Err(e) && e@ == "Only one of module or stack must be provided"@,
            (Some(m), None) => r matches Ok((id, is_stack)) && id@ == m@ + "/"@ + name@ && !is_stack,
            (None, Some(s)) => r matches Ok((id, is_stack)) && id@ == s@ + "/"@ + name@ && is_stack,
        },
{
    let (m, is_stack) = match (module, stack) {
        (None, None) => {
            return Err(String::from_str("Either module or stack must be provided"));
        },
        (Some(_), Some(_)) => {
            return Err(String::from_str("Only one of module or stack must be provided"));
        },
        (Some(m), None) => (m, false),
        (None, Some(s)) => (s, true),
    };
    let mut out: Vec<char> = Vec::new();
    append_str(&mut out, m);
    append_str(&mut out, "/");
    append_str(&mut out, name);
    Ok((from_chars(out.as_slice()), is_stack))
}

/// The entries with `k` set to `v`: in place where `k` is a key already, else added at the end.
pub open spec fn insert_entry(
    m: Seq<(Seq<char>, ValueModel)>,
    k: Seq<char>,
    v: ValueModel,
) -> Seq<(Seq<char>, ValueModel)> {
    match key_index(m, k, 0) {
        Some(q) => m.update(q, (k, v)),
        None => m.push((k, v)),
    }
}

/// The entries with each new entry set in turn.
pub open spec fn insert_all(
    m: Seq<(Seq<char>, ValueModel)>,
    new: Seq<(Seq<char>, ValueModel)>,
) -> Seq<(Seq<char>, ValueModel)>
    decreases new.len(),
{
    if new.len() == 0 {
        m
    } else {
        let prev = insert_all(m, new.drop_last());
        insert_entry(prev, new.last().0, new.last().1)
    }
}

/// Setting variables: a mapping is merged into the variables where they are a mapping too
/// (each key set in turn), and replaces them otherwise; anything else replaces them.
pub open spec fn merged_variables(existing: ValueModel, new: ValueModel) -> ValueModel {
    match new {
        ValueModel::Object(n) => match existing {
            ValueModel::Object(e) => ValueModel::Object(insert_all(e, n)),
            _ => ValueModel::Object(n),
        },
        _ => new,
    }
}

fn find_entry(es: &Vec<(String, Value)>, key: &String) -> (r: Option<usize>)
    ensures
        match r {
            Some(q) => key_index(entry_models(es@), key@, 0) == Some(q as int),
            None => key_index(entry_models(es@), key@, 0) is None,
        },
{
    let ghost em = entry_models(es@);
    proof {
        lemma_entry_models(es@);
        lemma_key_index(em, key@, 0);
    }
    let mut i: usize = 0;
    while i < es.len()
        invariant
            i <= es@.len(),
            em == entry_models(es@),
            em.len() == es@.len(),
            forall|j: int| 0 <= j < es@.len() ==> #[trigger] em[j] == (es@[j].0@, model(es@[j].1)),
            forall|j: int| 0 <= j < i ==> em[j].0 != key@,
            key_index(em, key@, 0) == key_index(em, key@, i as int),
        decreases es.len() - i,
    {
        proof {
            lemma_key_index(em, key@, i as int);
        }
        if es[i].0 == *key {
            assert(em[i as int].0 == key@);
            return Some(i);
        }
        assert(em[i as int].0 != key@);
        i = i + 1;
    }
    None
}

/// Sets variables (see `merged_variables`).
pub fn merge_variables(existing: Value, new_value: Value) -> (r: Value)
    ensures
        model(r) == merged_variables(model(existing), model(new_value)),
{
    match new_value {
        Value::Object(new_entries) => match existing {
            Value::Object(es) => {
                let ghost e0 = entry_models(es@);
                let ghost n0 = entry_models(new_entries@);
                let ghost orig = new_entries@;
                proof {
                    lemma_entry_models(new_entries@);
                }
                assert(orig.len() == new_entries.len());
                let mut es = es;
                let mut rest = new_entries;
                let mut k: usize = 0;
                assert(n0.take(0) =~= Seq::<(Seq<char>, ValueModel)>::empty());
                while rest.len() > 0
                    invariant
                        k <= orig.len(),
                        orig.len() <= usize::MAX,
                        k + rest@.len() == orig.len(),
                        rest@ == orig.skip(k as int),
                        n0 == entry_models(orig),
                        n0.len() == orig.len(),
                        forall|j: int| 0 <= j < orig.len() ==> #[trigger] n0[j] == (orig[j].0@, model(orig[j].1)),
                        entry_models(es@) == insert_all(e0, n0.take(k as int)),
                    decreases rest.len(),
                {
                    let (key, v) = rest.remove(0);
                    assert(orig[k as int] == (key, v));
                    assert(rest@ =~= orig.skip(k + 1));
                    assert(n0.take(k + 1).drop_last() =~= n0.take(k as int));
                    assert(n0.take(k + 1).last() == (key@, model(v)));
                    let ghost before = es@;
                    proof {
                        lemma_entry_models(before);
                    }
                    match find_entry(&es, &key) {
                        Some(q) => {
                            let ghost kv = key@;
                            let ghost mv = model(v);
                            proof {
                                lemma_key_index(entry_models(before), key@, 0);
                            }
                            es.set(q, (key, v));
                            proof {
                                lemma_entry_models(es@);
                                assert(es@ == before.update(q as int, (key, v)));
                                assert(entry_models(es@) =~= entry_models(before).update(q as int, (kv, mv)));
                            }
                        },
                        None => {
                            es.push((key, v));
                            assert(es@.drop_last() =~= before);
                        },
                    }
                    k = k + 1;
                }
                assert(n0.take(k as int) =~= n0);
                Value::Object(es)
            },
            _ => Value::Object(new_entries),
        },
        other => other,
    }
}

/// Sets a deployment's variables from the keyword arguments given (see `merged_variables`);
/// where none are given, "No variables provided" is the error and the variables are kept.
pub fn set_variables(variables: &mut Value, kwargs: Option<Value>) -> (r: Result<(), String>)
    ensures
        match kwargs {
            None => r matches Err(e) && e@ == "No variables provided"@ && *final(variables) == *old(variables),
            Some(v) => r is Ok && model(*final(variables)) == merged_variables(model(*old(variables)), model(v)),
        },
{
    match kwargs {
        None => Err(String::from_str("No variables provided")),
        Some(v) => {
            let mut existing = Value::Null;
            std::mem::swap(&mut existing, variables);
            *variables = merge_variables(existing, v);
            Ok(())
        },
    }
}

} // verus!
