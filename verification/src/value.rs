//! A plain tree of YAML/JSON values, as claims and module variables hold them.
use vstd::prelude::*;

verus! {

/// A YAML or JSON value. Numbers are kept as their text; mapping keys are strings.
#[derive(Debug)]
pub enum Value {
    Null,
    Bool(bool),
    Number(String),
    Text(String),
    List(Vec<Value>),
    Object(Vec<(String, Value)>),
}

/// The value that `key` maps to in an object; `None` for a missing key or a value that is
/// not an object. Where a key occurs twice, the first entry counts.
pub open spec fn object_get(v: Value, key: Seq<char>) -> Option<Value> {
    match v {
        Value::Object(entries) => entry_for(entries@, key),
        _ => None,
    }
}

pub open spec fn entry_for(entries: Seq<(String, Value)>, key: Seq<char>) -> Option<Value>
    decreases entries.len(),
{
    if entries.len() == 0 {
        None
    } else if entries[0].0@ == key {
        Some(entries[0].1)
    } else {
        entry_for(entries.drop_first(), key)
    }
}

/// Looks up `key` in an object value.
pub fn get_entry<'a>(v: &'a Value, key: &str) -> (r: Option<&'a Value>)
    ensures
        match r {
            Some(x) => object_get(*v, key@) == Some(*x),
            None => object_get(*v, key@) is None,
        },
{
    match v {
        Value::Object(entries) => {
            assert(object_get(*v, key@) == entry_for(entries@, key@));
            let k = String::from_str(key);
            let mut i: usize = 0;
            assert(entries@.skip(0) =~= entries@);
            while i < entries.len()
                invariant
                    i <= entries@.len(),
                    k@ == key@,
                    object_get(*v, key@) == entry_for(entries@, key@),
                    entry_for(entries@, key@) == entry_for(entries@.skip(i as int), key@),
                decreases entries.len() - i,
            {
                assert(entries@.skip(i as int).drop_first() =~= entries@.skip(i + 1));
                if entries[i].0 == k {
                    assert(entries@.skip(i as int)[0] == entries@[i as int]);
                    assert(entries@[i as int].0@ == key@);
                    assert(entry_for(entries@.skip(i as int), key@) == Some(entries@[i as int].1));
                    return Some(&entries[i].1);
                }
                i = i + 1;
            }
            None
        },
        _ => None,
    }
}

/// The two values hold the same data: the same variant, the same text, the same items and
/// entries in the same order.
pub open spec fn same_value(a: Value, b: Value) -> bool
    decreases a,
{
    match (a, b) {
        (Value::Null, Value::Null) => true,
        (Value::Bool(x), Value::Bool(y)) => x == y,
        (Value::Number(x), Value::Number(y)) => x@ == y@,
        (Value::Text(x), Value::Text(y)) => x@ == y@,
        (Value::List(xs), Value::List(ys)) => xs@.len() == ys@.len() && forall|i: int|
            0 <= i < xs@.len() ==> same_value(#[trigger] xs@[i], ys@[i]),
        (Value::Object(xs), Value::Object(ys)) => xs@.len() == ys@.len() && forall|i: int|
            0 <= i < xs@.len() ==> xs@[i].0@ == ys@[i].0@ && same_value(#[trigger] xs@[i].1, ys@[i].1),
        _ => false,
    }
}

pub open spec fn same_opt_value(a: Option<Value>, b: Option<Value>) -> bool {
    match (a, b) {
        (Some(x), Some(y)) => same_value(x, y),
        (None, None) => true,
        _ => false,
    }
}

/// A copy of a value.
pub fn copy_value(v: &Value) -> (r: Value)
    ensures
        same_value(r, *v),
    decreases v,
{
    match v {
        Value::Null => Value::Null,
        Value::Bool(b) => Value::Bool(*b),
        Value::Number(n) => Value::Number(n.clone()),
        Value::Text(t) => Value::Text(t.clone()),
        Value::List(items) => {
            let mut out: Vec<Value> = Vec::new();
            let mut i: usize = 0;
            while i < items.len()
                invariant
                    i <= items@.len(),
                    *v == Value::List(*items),
                    out@.len() == i,
                    forall|q: int| 0 <= q < i ==> same_value(#[trigger] out@[q], items@[q]),
                decreases items.len() - i,
            {
                proof {
                    assert(decreases_to!(*v => (*v)->List_0));
                    assert(decreases_to!((*v)->List_0 => (*v)->List_0@));
                    assert(decreases_to!((*v)->List_0@ => items@[i as int]));
                }
                let c = copy_value(&items[i]);
                out.push(c);
                i = i + 1;
            }
            let r = Value::List(out);
            assert forall|q: int| 0 <= q < out@.len() implies same_value(#[trigger] out@[q], items@[q]) by {}
            r
        },
        Value::Object(entries) => {
            let mut out: Vec<(String, Value)> = Vec::new();
            let mut i: usize = 0;
            while i < entries.len()
                invariant
                    i <= entries@.len(),
                    *v == Value::Object(*entries),
                    out@.len() == i,
                    forall|q: int| 0 <= q < i ==> (#[trigger] out@[q]).0@ == entries@[q].0@,
                    forall|q: int| 0 <= q < i ==> same_value(#[trigger] out@[q].1, entries@[q].1),
                decreases entries.len() - i,
            {
                proof {
                    assert(decreases_to!(*v => (*v)->Object_0));
                    assert(decreases_to!((*v)->Object_0 => (*v)->Object_0@));
                    assert(decreases_to!((*v)->Object_0@ => entries@[i as int]));
                    assert(decreases_to!(entries@[i as int] => entries@[i as int].1));
                }
                let c = copy_value(&entries[i].1);
                let k = entries[i].0.clone();
                out.push((k, c));
                i = i + 1;
            }
            let r = Value::Object(out);
            assert forall|q: int| 0 <= q < out@.len() implies out@[q].0@ == entries@[q].0@ && same_value(#[trigger] out@[q].1, entries@[q].1) by {
                assert(out@[q].0@ == entries@[q].0@);
            }
            r
        },
    }
}


/// The data a value holds, as a mathematical value.
pub enum ValueModel {
    Null,
    Bool(bool),
    Number(Seq<char>),
    Text(Seq<char>),
    List(Seq<ValueModel>),
    Object(Seq<(Seq<char>, ValueModel)>),
}

/// The data of a value.
pub open spec fn model(v: Value) -> ValueModel
    decreases v,
{
    match v {
        Value::Null => ValueModel::Null,
        Value::Bool(b) => ValueModel::Bool(b),
        Value::Number(n) => ValueModel::Number(n@),
        Value::Text(t) => ValueModel::Text(t@),
        Value::List(items) => ValueModel::List(item_models(items@)),
        Value::Object(entries) => ValueModel::Object(entry_models(entries@)),
    }
}

pub open spec fn item_models(items: Seq<Value>) -> Seq<ValueModel>
    decreases items,
{
    if items.len() == 0 {
        Seq::empty()
    } else {
        item_models(items.drop_last()).push(model(items.last()))
    }
}

pub open spec fn entry_models(entries: Seq<(String, Value)>) -> Seq<(Seq<char>, ValueModel)>
    decreases entries,
{
    if entries.len() == 0 {
        Seq::empty()
    } else {
        entry_models(entries.drop_last()).push((entries.last().0@, model(entries.last().1)))
    }
}


pub proof fn lemma_item_models(items: Seq<Value>)
    ensures
        item_models(items).len() == items.len(),
        forall|i: int| 0 <= i < items.len() ==> #[trigger] item_models(items)[i] == model(items[i]),
    decreases items.len(),
{
    if items.len() > 0 {
        lemma_item_models(items.drop_last());
    }
}

pub proof fn lemma_entry_models(entries: Seq<(String, Value)>)
    ensures
        entry_models(entries).len() == entries.len(),
        forall|i: int| 0 <= i < entries.len() ==> #[trigger] entry_models(entries)[i] == (entries[i].0@, model(entries[i].1)),
    decreases entries.len(),
{
    if entries.len() > 0 {
        lemma_entry_models(entries.drop_last());
    }
}

/// Values that hold the same data have the same model.
pub proof fn lemma_same_value_model(a: Value, b: Value)
    requires
        same_value(a, b),
    ensures
        model(a) == model(b),
    decreases a,
{
    match (a, b) {
        (Value::List(xs), Value::List(ys)) => {
            lemma_item_models(xs@);
            lemma_item_models(ys@);
            assert forall|i: int| 0 <= i < xs@.len() implies item_models(xs@)[i] == item_models(ys@)[i] by {
                assert(decreases_to!(a => a->List_0));
                assert(decreases_to!(a->List_0 => xs@));
                assert(decreases_to!(xs@ => xs@[i]));
                lemma_same_value_model(xs@[i], ys@[i]);
            }
            assert(item_models(xs@) =~= item_models(ys@));
        },
        (Value::Object(xs), Value::Object(ys)) => {
            lemma_entry_models(xs@);
            lemma_entry_models(ys@);
            assert forall|i: int| 0 <= i < xs@.len() implies entry_models(xs@)[i] == entry_models(ys@)[i] by {
                assert(decreases_to!(a => a->Object_0));
                assert(decreases_to!(a->Object_0 => xs@));
                assert(decreases_to!(xs@ => xs@[i]));
                assert(decreases_to!(xs@[i] => xs@[i].1));
                lemma_same_value_model(xs@[i].1, ys@[i].1);
            }
            assert(entry_models(xs@) =~= entry_models(ys@));
        },
        _ => {},
    }
}

} // verus!
