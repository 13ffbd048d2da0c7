//! The variables of a deployment as its users write them: module variables (`bucket_name`)
//! become camelCase keys (`bucketName`); stack variables (`claim__variable`) are grouped under
//! their claim, each as camelCase.
use vstd::prelude::*;
use crate::casing::{camel_case, to_camel_case};
use crate::text::{append_range, find_first, first_occ, from_chars, to_chars};
use crate::value::{
    copy_value, entry_models, lemma_entry_models, lemma_same_value_model, model, Value, ValueModel,
};

verus! {

/// The first position at or after `i` of an entry with key `k`.
pub open spec fn key_index<V>(m: Seq<(Seq<char>, V)>, k: Seq<char>, i: int) -> Option<int>
    decreases m.len() - i,
{
    if i < 0 || i >= m.len() {
        None
    } else if m[i].0 == k {
        Some(i)
    } else {
        key_index(m, k, i + 1)
    }
}

pub proof fn lemma_key_index<V>(m: Seq<(Seq<char>, V)>, k: Seq<char>, i: int)
    ensures
        match key_index(m, k, i) {
            Some(q) => i <= q < m.len() && m[q].0 == k,
            None => true,
        },
    decreases m.len() - i,
{
    if 0 <= i < m.len() && m[i].0 != k {
        lemma_key_index(m, k, i + 1);
    }
}

/// The value under a key of a mapping.
pub open spec fn model_lookup<V>(m: Seq<(Seq<char>, V)>, k: Seq<char>) -> Option<V> {
    match key_index(m, k, 0) {
        Some(q) => Some(m[q].1),
        None => None,
    }
}

/// A mapping with `k` set to `v`: the entry of `k` replaced where there is one, else added last.
pub open spec fn model_insert<V>(m: Seq<(Seq<char>, V)>, k: Seq<char>, v: V) -> Seq<(Seq<char>, V)> {
    match key_index(m, k, 0) {
        Some(q) => m.update(q, (k, v)),
        None => m.push((k, v)),
    }
}

/// A key split at its first `__`: (claim, variable).
pub open spec fn split_once(k: Seq<char>) -> Option<(Seq<char>, Seq<char>)> {
    match first_occ(k, "__"@, 0) {
        Some(i) => Some((k.subrange(0, i), k.subrange(i + 2, k.len() as int))),
        None => None,
    }
}

/// One variable added to the mapping. A stack variable `claim__variable` goes into the mapping
/// under `claim` (made where there is none; left out where `claim` holds something other than a
/// mapping); any other key is set in camelCase.
pub open spec fn mapping_step(is_stack: bool, acc: Seq<(Seq<char>, ValueModel)>, k: Seq<char>, v: ValueModel) -> Seq<(Seq<char>, ValueModel)> {
    match split_once(k) {
        Some((claim, var)) if is_stack => match model_lookup(acc, claim) {
            None => model_insert(acc, claim, ValueModel::Object(seq![(camel_case(var), v)])),
            Some(ValueModel::Object(inner)) => model_insert(acc, claim, ValueModel::Object(model_insert(inner, camel_case(var), v))),
            Some(_) => acc,
        },
        _ => model_insert(acc, camel_case(k), v),
    }
}

/// The mapping of all variables, in order.
pub open spec fn variable_mapping(is_stack: bool, es: Seq<(Seq<char>, ValueModel)>) -> Seq<(Seq<char>, ValueModel)>
    decreases es.len(),
{
    if es.len() == 0 {
        Seq::empty()
    } else {
        let last = es.last();
        mapping_step(is_stack, variable_mapping(is_stack, es.drop_last()), last.0, last.1)
    }
}

fn find_key(m: &Vec<(String, Value)>, k: &str) -> (r: Option<usize>)
    ensures
        match r {
            Some(q) => key_index(entry_models(m@), k@, 0) == Some(q as int) && q < m@.len(),
            None => key_index(entry_models(m@), k@, 0) is None,
        },
{
    let ghost em = entry_models(m@);
    proof {
        lemma_entry_models(m@);
    }
    let ks = String::from_str(k);
    let mut i: usize = 0;
    while i < m.len()
        invariant
            ks@ == k@,
            em == entry_models(m@),
            em.len() == m@.len(),
            forall|j: int| 0 <= j < m@.len() ==> #[trigger] em[j] == (m@[j].0@, model(m@[j].1)),
            i <= m@.len(),
            key_index(em, k@, 0) == key_index(em, k@, i as int),
        decreases m.len() - i,
    {
        if m[i].0 == ks {
            assert(em[i as int].0 == k@);
            return Some(i);
        }
        assert(em[i as int].0 != k@);
        i = i + 1;
    }
    None
}

fn insert_entry(m: &mut Vec<(String, Value)>, k: String, v: Value)
    ensures
        entry_models(final(m)@) == model_insert(entry_models(old(m)@), k@, model(v)),
{
    proof {
        lemma_entry_models(m@);
    }
    let ghost before = m@;
    match find_key(m, k.as_str()) {
        Some(q) => {
            m.remove(q);
            m.insert(q, (k, v));
            proof {
                assert(m@ =~= before.update(q as int, m@[q as int]));
                lemma_entry_models(m@);
                assert(entry_models(m@) =~= entry_models(before).update(q as int, (m@[q as int].0@, model(m@[q as int].1))));
            }
        },
        None => {
            m.push((k, v));
            proof {
                lemma_entry_models(m@);
                assert(entry_models(m@) =~= entry_models(before).push((m@.last().0@, model(m@.last().1))));
            }
        },
    }
}

/// The variables of a deployment keyed as its users write them (see `mapping_step`); the
/// variables must be a mapping.
pub fn get_variable_mapping(is_stack: bool, variables: &Value) -> (r: Value)
    requires
        variables is Object,
    ensures
        model(r) == ValueModel::Object(variable_mapping(is_stack, entry_models(variables->Object_0@))),
{
    let es = match variables {
        Value::Object(es) => es,
        _ => {
            return Value::Null;
        },
    };
    let ghost em = entry_models(es@);
    proof {
        lemma_entry_models(es@);
        reveal_strlit("__");
    }
    let mut acc: Vec<(String, Value)> = Vec::new();
    let mut i: usize = 0;
    while i < es.len()
        invariant
            em == entry_models(es@),
            em.len() == es@.len(),
            forall|j: int| 0 <= j < es@.len() ==> #[trigger] em[j] == (es@[j].0@, model(es@[j].1)),
            "__"@.len() == 2,
            i <= es@.len(),
            entry_models(acc@) == variable_mapping(is_stack, em.take(i as int)),
        decreases es.len() - i,
    {
        let key = &es[i].0;
        let value = copy_value(&es[i].1);
        proof {
            lemma_same_value_model(value, es@[i as int].1);
            assert(em.take(i + 1).drop_last() =~= em.take(i as int));
            assert(em.take(i + 1).last() == em[i as int]);
        }
        let kc = to_chars(key.as_str());
        let split = if is_stack { find_first(&kc, "__", 0) } else { None };
        match split {
            Some(p) => {
                let n = kc.len();
                let mut cl: Vec<char> = Vec::new();
                append_range(&mut cl, kc.as_slice(), 0, p);
                let mut vr: Vec<char> = Vec::new();
                append_range(&mut vr, kc.as_slice(), p + 2, n);
                let claim = from_chars(cl.as_slice());
                let var = from_chars(vr.as_slice());
                assert(claim@ =~= key@.subrange(0, p as int));
                assert(var@ =~= key@.subrange(p + 2, key@.len() as int));
                let prop = to_camel_case(var.as_str());
                let ghost before = entry_models(acc@);
                proof {
                    lemma_entry_models(acc@);
                }
                match find_key(&acc, claim.as_str()) {
                    None => {
                        let inner: Vec<(String, Value)> = vec![(prop, value)];
                        proof {
                            lemma_entry_models(inner@);
                            assert(entry_models(inner@) =~= seq![(camel_case(var@), model(value))]);
                        }
                        insert_entry(&mut acc, claim, Value::Object(inner));
                    },
                    Some(q) => {
                        let (ck, cv) = acc.remove(q);
                        let ghost removed = acc@;
                        match cv {
                            Value::Object(mut inner) => {
                                let ghost inner0 = entry_models(inner@);
                                assert(before[q as int].1 == ValueModel::Object(inner0));
                                insert_entry(&mut inner, prop, value);
                                acc.insert(q, (ck, Value::Object(inner)));
                            },
                            other => {
                                acc.insert(q, (ck, other));
                            },
                        }
                        proof {
                            lemma_entry_models(acc@);
                            lemma_key_index(before, claim@, 0);
                            assert(before[q as int].0 == claim@);
                            assert(entry_models(acc@) =~= before.update(q as int, (claim@, model(acc@[q as int].1))));
                            match model_lookup(before, claim@) {
                                Some(ValueModel::Object(inner)) => {},
                                Some(_) => {
                                    assert(before.update(q as int, (claim@, model(acc@[q as int].1))) =~= before);
                                },
                                None => {},
                            }
                        }
                    },
                }
            },
            None => {
                let ck = to_camel_case(key.as_str());
                proof {
                    if is_stack {
                        assert(split_once(key@) is None);
                    }
                }
                insert_entry(&mut acc, ck, value);
            },
        }
        i = i + 1;
    }
    assert(em.take(es@.len() as int) =~= em);
    proof {
        lemma_entry_models(acc@);
    }
    Value::Object(acc)
}

} // verus!
