//! The examples of a module or a stack: their variables must name variables that exist, in the
//! right letter case, and give every required variable.
use vstd::prelude::*;
use crate::casing::{camel_case, snake_case, to_camel_case, to_snake_case};
use crate::manifest::{ErrorView, ModuleError, ModuleExample, TfVariable};
use crate::resolver::prefixed;
use crate::text::{append_range, append_str, find_first, first_occ, from_chars, to_chars};
use crate::grouping::lemma_first_occ_bounds;
use crate::tfcode::head_segment;
use crate::value::Value;

verus! {

/// A variable is required: it has no default (or a null one) and is not nullable.
pub open spec fn is_required(v: TfVariable) -> bool {
    (v.default is None || v.default == Some(Value::Null)) && !v.nullable
}

/// The first variable of the given name.
pub open spec fn variable_named(vs: Seq<TfVariable>, name: Seq<char>) -> Option<TfVariable>
    decreases vs.len(),
{
    if vs.len() == 0 {
        None
    } else {
        match variable_named(vs.drop_last(), name) {
            Some(v) => Some(v),
            None => if vs.last().name@ == name {
                Some(vs.last())
            } else {
                None
            },
        }
    }
}

/// The entries of an example's variables (none where they are not a mapping).
pub open spec fn entries_of(v: Value) -> Seq<(String, Value)> {
    match v {
        Value::Object(es) => es@,
        _ => Seq::empty(),
    }
}

pub open spec fn has_entry_key(es: Seq<(String, Value)>, k: Seq<char>) -> bool {
    exists|i: int| 0 <= i < es.len() && (#[trigger] es[i]).0@ == k
}

/// What is wrong with one variable of a module example: not snake_case, not a variable of the
/// module, or null where the variable is required.
pub open spec fn module_entry_problem(vs: Seq<TfVariable>, e: (String, Value)) -> Option<Seq<char>> {
    let k = e.0@;
    if k != snake_case(k) {
        Some("Example variable "@ + k + " is not snake_case like the terraform variable"@)
    } else {
        match variable_named(vs, k) {
            None => Some("Example variable "@ + k + " does not exist"@),
            Some(v) => if is_required(v) && e.1 is Null {
                Some("Required variable "@ + k + " is null but mandatory"@)
            } else {
                None
            },
        }
    }
}

pub open spec fn first_module_entry_problem(vs: Seq<TfVariable>, es: Seq<(String, Value)>) -> Option<Seq<char>>
    decreases es.len(),
{
    if es.len() == 0 {
        None
    } else {
        match first_module_entry_problem(vs, es.drop_last()) {
            Some(p) => Some(p),
            None => module_entry_problem(vs, es.last()),
        }
    }
}

/// The first required variable that the example does not give.
pub open spec fn first_missing_required(vs: Seq<TfVariable>, es: Seq<(String, Value)>) -> Option<Seq<char>>
    decreases vs.len(),
{
    if vs.len() == 0 {
        None
    } else {
        match first_missing_required(vs.drop_last(), es) {
            Some(n) => Some(n),
            None => if is_required(vs.last()) && !has_entry_key(es, vs.last().name@) {
                Some(vs.last().name@)
            } else {
                None
            },
        }
    }
}

/// Why a module example is invalid, if it is: the first problem among its variables, in order,
/// else the first required variable it does not give.
pub open spec fn module_example_problem(vs: Seq<TfVariable>, example: Value) -> Option<Seq<char>> {
    let es = entries_of(example);
    match first_module_entry_problem(vs, es) {
        Some(p) => Some(p),
        None => match first_missing_required(vs, es) {
            Some(n) => Some("Required variable "@ + n + " is missing"@),
            None => None,
        },
    }
}

fn find_variable(vs: &Vec<TfVariable>, name: &String) -> (r: Option<usize>)
    ensures
        match r {
            Some(i) => i < vs@.len() && variable_named(vs@, name@) == Some(vs@[i as int]),
            None => variable_named(vs@, name@) is None,
        },
{
    let mut i: usize = 0;
    while i < vs.len()
        invariant
            i <= vs@.len(),
            variable_named(vs@.take(i as int), name@) is None,
        decreases vs.len() - i,
    {
        assert(vs@.take(i + 1).drop_last() =~= vs@.take(i as int));
        assert(vs@.take(i + 1).last() == vs@[i as int]);
        if vs[i].name == *name {
            proof {
                lemma_variable_named_prefix(vs@, name@, i + 1);
            }
            return Some(i);
        }
        i = i + 1;
    }
    assert(vs@.take(vs@.len() as int) =~= vs@);
    None
}

proof fn lemma_variable_named_prefix(vs: Seq<TfVariable>, name: Seq<char>, n: int)
    requires
        0 <= n <= vs.len(),
        variable_named(vs.take(n), name) is Some,
    ensures
        variable_named(vs, name) == variable_named(vs.take(n), name),
    decreases vs.len() - n,
{
    if n < vs.len() {
        assert(vs.take(n + 1).drop_last() =~= vs.take(n));
        lemma_variable_named_prefix(vs, name, n + 1);
    } else {
        assert(vs.take(n) =~= vs);
    }
}

fn is_required_exec(v: &TfVariable) -> (b: bool)
    ensures
        b == is_required(*v),
{
    let no_default = match &v.default {
        None => true,
        Some(Value::Null) => true,
        Some(_) => false,
    };
    no_default && !v.nullable
}

fn entries_have_key(es: &Vec<(String, Value)>, k: &String) -> (b: bool)
    ensures
        b == has_entry_key(es@, k@),
{
    let mut i: usize = 0;
    while i < es.len()
        invariant
            i <= es@.len(),
            forall|q: int| 0 <= q < i ==> (#[trigger] es@[q]).0@ != k@,
        decreases es.len() - i,
    {
        if es[i].0 == *k {
            return true;
        }
        i = i + 1;
    }
    false
}

fn message3(a: &str, b: &str, c: &str) -> (r: String)
    ensures
        r@ == a@ + b@ + c@,
{
    let mut out: Vec<char> = Vec::new();
    append_str(&mut out, a);
    append_str(&mut out, b);
    append_str(&mut out, c);
    from_chars(out.as_slice())
}

/// Whether a module example's variables are valid, and if not why (see
/// `module_example_problem`); the variables must be a mapping.
pub fn is_all_module_example_variables_valid(tf_variables: &Vec<TfVariable>, example_variables: &Value) -> (r: (bool, String))
    requires
        example_variables is Object,
    ensures
        match module_example_problem(tf_variables@, *example_variables) {
            Some(p) => !r.0 && r.1@ == p,
            None => r.0 && r.1@ == Seq::<char>::empty(),
        },
{
    let ghost vs = tf_variables@;
    let es = match example_variables {
        Value::Object(es) => es,
        _ => {
            return (true, String::new());
        },
    };
    let ghost ev = es@;
    let mut i: usize = 0;
    while i < es.len()
        invariant
            vs == tf_variables@,
            ev == es@,
            ev == entries_of(*example_variables),
            i <= ev.len(),
            first_module_entry_problem(vs, ev.take(i as int)) is None,
        decreases es.len() - i,
    {
        assert(ev.take(i + 1).drop_last() =~= ev.take(i as int));
        assert(ev.take(i + 1).last() == ev[i as int]);
        let key = &es[i].0;
        let snake = to_snake_case(key.as_str());
        let problem: Option<String> = if *key != snake {
            Some(message3("Example variable ", key.as_str(), " is not snake_case like the terraform variable"))
        } else {
            match find_variable(tf_variables, key) {
                None => Some(message3("Example variable ", key.as_str(), " does not exist")),
                Some(j) => {
                    let is_null = match &es[i].1 {
                        Value::Null => true,
                        _ => false,
                    };
                    if is_required_exec(&tf_variables[j]) && is_null {
                        Some(message3("Required variable ", key.as_str(), " is null but mandatory"))
                    } else {
                        None
                    }
                },
            }
        };
        match problem {
            Some(p) => {
                proof {
                    assert(first_module_entry_problem(vs, ev.take(i + 1)) == Some(p@));
                    lemma_module_problem_prefix(vs, ev, i + 1);
                }
                return (false, p);
            },
            None => {},
        }
        i = i + 1;
    }
    assert(ev.take(ev.len() as int) =~= ev);
    let mut k: usize = 0;
    while k < tf_variables.len()
        invariant
            vs == tf_variables@,
            ev == es@,
            ev == entries_of(*example_variables),
            first_module_entry_problem(vs, ev) is None,
            k <= vs.len(),
            first_missing_required(vs.take(k as int), ev) is None,
        decreases tf_variables.len() - k,
    {
        assert(vs.take(k + 1).drop_last() =~= vs.take(k as int));
        assert(vs.take(k + 1).last() == vs[k as int]);
        let v = &tf_variables[k];
        if is_required_exec(v) && !entries_have_key(es, &v.name) {
            proof {
                assert(first_missing_required(vs.take(k + 1), ev) == Some(v.name@));
                lemma_missing_prefix(vs, ev, k + 1);
            }
            return (false, message3("Required variable ", v.name.as_str(), " is missing"));
        }
        k = k + 1;
    }
    assert(vs.take(vs.len() as int) =~= vs);
    (true, String::new())
}

proof fn lemma_module_problem_prefix(vs: Seq<TfVariable>, es: Seq<(String, Value)>, n: int)
    requires
        0 <= n <= es.len(),
        first_module_entry_problem(vs, es.take(n)) is Some,
    ensures
        first_module_entry_problem(vs, es) == first_module_entry_problem(vs, es.take(n)),
    decreases es.len() - n,
{
    if n < es.len() {
        assert(es.take(n + 1).drop_last() =~= es.take(n));
        lemma_module_problem_prefix(vs, es, n + 1);
    } else {
        assert(es.take(n) =~= es);
    }
}

proof fn lemma_missing_prefix(vs: Seq<TfVariable>, es: Seq<(String, Value)>, n: int)
    requires
        0 <= n <= vs.len(),
        first_missing_required(vs.take(n), es) is Some,
    ensures
        first_missing_required(vs, es) == first_missing_required(vs.take(n), es),
    decreases vs.len() - n,
{
    if n < vs.len() {
        assert(vs.take(n + 1).drop_last() =~= vs.take(n));
        lemma_missing_prefix(vs, es, n + 1);
    } else {
        assert(vs.take(n) =~= vs);
    }
}

/// The part of a name after its last `__` (all of it where there is none).
pub open spec fn last_segment(s: Seq<char>) -> Seq<char>
    decreases s.len(),
{
    match first_occ(s, "__"@, 0) {
        Some(i) => {
            proof {
                lemma_first_occ_bounds(s, "__"@, 0);
                reveal_strlit("__");
            }
            last_segment(s.subrange(i + 2, s.len() as int))
        },
        None => s,
    }
}

/// Some variable's name starts with the claim name (its part before the first `__`).
pub open spec fn is_variable_claim(vs: Seq<TfVariable>, claim: Seq<char>) -> bool {
    exists|i: int| 0 <= i < vs.len() && head_segment((#[trigger] vs[i]).name@) == claim
}

/// The first top-level key of a stack example that is not the claim of any variable.
pub open spec fn first_unknown_claim(vs: Seq<TfVariable>, es: Seq<(String, Value)>) -> Option<Seq<char>>
    decreases es.len(),
{
    if es.len() == 0 {
        None
    } else {
        match first_unknown_claim(vs, es.drop_last()) {
            Some(k) => Some(k),
            None => if !is_variable_claim(vs, es.last().0@) {
                Some(es.last().0@)
            } else {
                None
            },
        }
    }
}

/// The stack variable that a claim's example variable sets: `claim__variable` in snake_case.
pub open spec fn full_variable_name(claim: Seq<char>, key: Seq<char>) -> Seq<char> {
    prefixed(claim, snake_case(key))
}

/// What is wrong with one variable of a claim in a stack example: not camelCase, or not a
/// variable of the stack.
pub open spec fn stack_entry_problem(vs: Seq<TfVariable>, claim: Seq<char>, key: Seq<char>) -> Option<Seq<char>> {
    if key != camel_case(key) {
        Some("Example variable "@ + key + " is not camelCase like in the deployment claims"@)
    } else if variable_named(vs, full_variable_name(claim, key)) is None {
        Some("Example variable "@ + key + " does not exist under "@ + claim + " (or maybe it is already set in claim?)"@)
    } else {
        None
    }
}

pub open spec fn first_inner_problem(vs: Seq<TfVariable>, claim: Seq<char>, inner: Seq<(String, Value)>) -> Option<Seq<char>>
    decreases inner.len(),
{
    if inner.len() == 0 {
        None
    } else {
        match first_inner_problem(vs, claim, inner.drop_last()) {
            Some(p) => Some(p),
            None => stack_entry_problem(vs, claim, inner.last().0@),
        }
    }
}

pub open spec fn first_claim_entry_problem(vs: Seq<TfVariable>, es: Seq<(String, Value)>) -> Option<Seq<char>>
    decreases es.len(),
{
    if es.len() == 0 {
        None
    } else {
        match first_claim_entry_problem(vs, es.drop_last()) {
            Some(p) => Some(p),
            None => first_inner_problem(vs, es.last().0@, entries_of(es.last().1)),
        }
    }
}

/// The example gives the stack variable `name`.
pub open spec fn example_sets(es: Seq<(String, Value)>, name: Seq<char>) -> bool {
    exists|i: int, j: int|
        0 <= i < es.len() && 0 <= j < entries_of(es[i].1).len() && #[trigger] full_variable_name(
            es[i].0@,
            (#[trigger] entries_of(es[i].1)[j]).0@,
        ) == name
}

/// The first required stack variable that the example does not set.
pub open spec fn first_unset_required(vs: Seq<TfVariable>, es: Seq<(String, Value)>) -> Option<Seq<char>>
    decreases vs.len(),
{
    if vs.len() == 0 {
        None
    } else {
        match first_unset_required(vs.drop_last(), es) {
            Some(n) => Some(n),
            None => if is_required(vs.last()) && !example_sets(es, vs.last().name@) {
                Some(vs.last().name@)
            } else {
                None
            },
        }
    }
}

/// Why a stack example is invalid, if it is: a top-level key that names no claim; else the first
/// problem among the claims' variables, in order; else the first required variable not set.
pub open spec fn stack_example_problem(vs: Seq<TfVariable>, example: Value) -> Option<Seq<char>> {
    let es = entries_of(example);
    match first_unknown_claim(vs, es) {
        Some(k) => Some("Example variable under claim name "@ + k + " does not exist"@),
        None => match first_claim_entry_problem(vs, es) {
            Some(p) => Some(p),
            None => match first_unset_required(vs, es) {
                Some(n) => Some("Example variable "@ + last_segment(n) + " under "@ + head_segment(n) + " is required but is not set"@),
                None => None,
            },
        },
    }
}

/// The example's variables are a mapping, and where every claim it names is known, the value
/// of each claim that is read before a problem is found is a mapping: the check finds a mapping
/// wherever it reads one.
pub open spec fn stack_example_readable(vs: Seq<TfVariable>, example: Value) -> bool {
    &&& example is Object
    &&& (first_unknown_claim(vs, entries_of(example)) is None ==> forall|i: int|
        0 <= i < entries_of(example).len() && first_claim_entry_problem(vs, entries_of(example).take(i)) is None
            ==> (#[trigger] entries_of(example)[i]).1 is Object)
}

fn head_of(name: &String) -> (r: String)
    ensures
        r@ == head_segment(name@),
{
    proof {
        reveal_strlit("__");
        assert("__"@.len() == 2);
    }
    let cs = to_chars(name.as_str());
    let mut out: Vec<char> = Vec::new();
    match find_first(&cs, "__", 0) {
        Some(i) => append_range(&mut out, cs.as_slice(), 0, i),
        None => append_range(&mut out, cs.as_slice(), 0, cs.len()),
    }
    assert(out@ =~= head_segment(name@));
    from_chars(out.as_slice())
}

fn last_of(name: &String) -> (r: String)
    ensures
        r@ == last_segment(name@),
{
    proof {
        reveal_strlit("__");
        assert("__"@.len() == 2);
    }
    let mut cur = to_chars(name.as_str());
    loop
        invariant_except_break
            "__"@.len() == 2,
            last_segment(cur@) == last_segment(name@),
        ensures
            cur@ == last_segment(name@),
        decreases cur@.len(),
    {
        let n = cur.len();
        match find_first(&cur, "__", 0) {
            Some(i) => {
                let mut next: Vec<char> = Vec::new();
                append_range(&mut next, cur.as_slice(), i + 2, n);
                assert(next@ =~= cur@.subrange(i + 2, cur@.len() as int));
                cur = next;
            },
            None => {
                break;
            },
        }
    }
    from_chars(cur.as_slice())
}

fn is_claim_of_some_variable(vs: &Vec<TfVariable>, claim: &String) -> (b: bool)
    ensures
        b == is_variable_claim(vs@, claim@),
{
    let mut i: usize = 0;
    while i < vs.len()
        invariant
            i <= vs@.len(),
            forall|q: int| 0 <= q < i ==> head_segment((#[trigger] vs@[q]).name@) != claim@,
        decreases vs.len() - i,
    {
        if head_of(&vs[i].name) == *claim {
            return true;
        }
        i = i + 1;
    }
    false
}

fn full_name_exec(claim: &String, key: &String) -> (r: String)
    ensures
        r@ == full_variable_name(claim@, key@),
{
    let k = to_snake_case(key.as_str());
    crate::resolver::TfInputResolver::prefix_name(claim.as_str(), k.as_str())
}

fn example_sets_exec(es: &Vec<(String, Value)>, name: &String) -> (b: bool)
    requires
        forall|i: int| 0 <= i < es@.len() ==> (#[trigger] es@[i]).1 is Object,
    ensures
        b == example_sets(es@, name@),
{
    let mut i: usize = 0;
    while i < es.len()
        invariant
            i <= es@.len(),
            forall|q: int| 0 <= q < es@.len() ==> (#[trigger] es@[q]).1 is Object,
            forall|q: int, j: int|
                0 <= q < i && 0 <= j < entries_of(es@[q].1).len() ==> #[trigger] full_variable_name(
                    es@[q].0@,
                    (#[trigger] entries_of(es@[q].1)[j]).0@,
                ) != name@,
        decreases es.len() - i,
    {
        match &es[i].1 {
            Value::Object(inner) => {
                let mut j: usize = 0;
                while j < inner.len()
                    invariant
                        i < es@.len(),
                        es@[i as int].1 == Value::Object(*inner),
                        j <= inner@.len(),
                        forall|q: int| 0 <= q < j ==> #[trigger] full_variable_name(es@[i as int].0@, inner@[q].0@) != name@,
                    decreases inner.len() - j,
                {
                    if full_name_exec(&es[i].0, &inner[j].0) == *name {
                        assert(entries_of(es@[i as int].1)[j as int] == inner@[j as int]);
                        return true;
                    }
                    j = j + 1;
                }
                assert forall|j2: int| 0 <= j2 < entries_of(es@[i as int].1).len() implies #[trigger] full_variable_name(
                    es@[i as int].0@,
                    (#[trigger] entries_of(es@[i as int].1)[j2]).0@,
                ) != name@ by {
                    assert(entries_of(es@[i as int].1)[j2] == inner@[j2]);
                }
            },
            _ => {},
        }
        i = i + 1;
    }
    false
}

/// Whether a stack example's variables are valid, and if not why (see `stack_example_problem`);
/// the variables must be a mapping of claim names to mappings.
pub fn is_all_stack_example_variables_valid(tf_variables: &Vec<TfVariable>, example_variables: &Value) -> (r: (bool, String))
    requires
        stack_example_readable(tf_variables@, *example_variables),
    ensures
        match stack_example_problem(tf_variables@, *example_variables) {
            Some(p) => !r.0 && r.1@ == p,
            None => r.0 && r.1@ == Seq::<char>::empty(),
        },
{
    let ghost vs = tf_variables@;
    let es = match example_variables {
        Value::Object(es) => es,
        _ => {
            return (true, String::new());
        },
    };
    let ghost ev = es@;
    let mut i: usize = 0;
    while i < es.len()
        invariant
            vs == tf_variables@,
            ev == es@,
            ev == entries_of(*example_variables),
            i <= ev.len(),
            first_unknown_claim(vs, ev.take(i as int)) is None,
        decreases es.len() - i,
    {
        assert(ev.take(i + 1).drop_last() =~= ev.take(i as int));
        assert(ev.take(i + 1).last() == ev[i as int]);
        if !is_claim_of_some_variable(tf_variables, &es[i].0) {
            proof {
                assert(first_unknown_claim(vs, ev.take(i + 1)) == Some(ev[i as int].0@));
                lemma_unknown_claim_prefix(vs, ev, i + 1);
            }
            return (false, message3("Example variable under claim name ", es[i].0.as_str(), " does not exist"));
        }
        i = i + 1;
    }
    assert(ev.take(ev.len() as int) =~= ev);
    let mut i: usize = 0;
    while i < es.len()
        invariant
            vs == tf_variables@,
            ev == es@,
            ev == entries_of(*example_variables),
            stack_example_readable(vs, *example_variables),
            first_unknown_claim(vs, ev) is None,
            i <= ev.len(),
            first_claim_entry_problem(vs, ev.take(i as int)) is None,
        decreases es.len() - i,
    {
        assert(ev.take(i + 1).drop_last() =~= ev.take(i as int));
        assert(ev.take(i + 1).last() == ev[i as int]);
        let claim = &es[i].0;
        assert(entries_of(*example_variables)[i as int].1 is Object);
        let inner = match &es[i].1 {
            Value::Object(inner) => inner,
            _ => {
                return (true, String::new());
            },
        };
        let ghost iv = inner@;
        assert(iv == entries_of(ev[i as int].1));
        let mut j: usize = 0;
        while j < inner.len()
            invariant
                vs == tf_variables@,
                ev == es@,
                ev == entries_of(*example_variables),
                first_unknown_claim(vs, ev) is None,
                i < ev.len(),
                *claim == ev[i as int].0,
                iv == inner@,
                iv == entries_of(ev[i as int].1),
                first_claim_entry_problem(vs, ev.take(i as int)) is None,
                ev.take(i + 1).drop_last() == ev.take(i as int),
                ev.take(i + 1).last() == ev[i as int],
                j <= iv.len(),
                first_inner_problem(vs, claim@, iv.take(j as int)) is None,
            decreases inner.len() - j,
        {
            assert(iv.take(j + 1).drop_last() =~= iv.take(j as int));
            assert(iv.take(j + 1).last() == iv[j as int]);
            let key = &inner[j].0;
            let camel = to_camel_case(key.as_str());
            let problem: Option<String> = if *key != camel {
                Some(message3("Example variable ", key.as_str(), " is not camelCase like in the deployment claims"))
            } else {
                let full = full_name_exec(claim, key);
                match find_variable(tf_variables, &full) {
                    None => {
                        let mut out: Vec<char> = Vec::new();
                        append_str(&mut out, "Example variable ");
                        append_str(&mut out, key.as_str());
                        append_str(&mut out, " does not exist under ");
                        append_str(&mut out, claim.as_str());
                        append_str(&mut out, " (or maybe it is already set in claim?)");
                        Some(from_chars(out.as_slice()))
                    },
                    Some(_) => None,
                }
            };
            match problem {
                Some(p) => {
                    proof {
                        assert(first_inner_problem(vs, claim@, iv.take(j + 1)) == Some(p@));
                        lemma_inner_problem_prefix(vs, claim@, iv, j + 1);
                        assert(first_claim_entry_problem(vs, ev.take(i + 1)) == Some(p@));
                        lemma_claim_entry_problem_prefix(vs, ev, i + 1);
                    }
                    return (false, p);
                },
                None => {},
            }
            j = j + 1;
        }
        assert(iv.take(iv.len() as int) =~= iv);
        i = i + 1;
    }
    assert(ev.take(ev.len() as int) =~= ev);
    assert forall|q: int| 0 <= q < ev.len() implies (#[trigger] ev[q]).1 is Object by {
        if first_claim_entry_problem(vs, ev.take(q)) is Some {
            lemma_claim_entry_problem_prefix(vs, ev, q);
        }
    }
    let mut k: usize = 0;
    while k < tf_variables.len()
        invariant
            vs == tf_variables@,
            ev == es@,
            ev == entries_of(*example_variables),
            forall|q: int| 0 <= q < ev.len() ==> (#[trigger] ev[q]).1 is Object,
            first_unknown_claim(vs, ev) is None,
            first_claim_entry_problem(vs, ev) is None,
            k <= vs.len(),
            first_unset_required(vs.take(k as int), ev) is None,
        decreases tf_variables.len() - k,
    {
        assert(vs.take(k + 1).drop_last() =~= vs.take(k as int));
        assert(vs.take(k + 1).last() == vs[k as int]);
        let v = &tf_variables[k];
        if is_required_exec(v) && !example_sets_exec(es, &v.name) {
            proof {
                assert(first_unset_required(vs.take(k + 1), ev) == Some(v.name@));
                lemma_unset_prefix(vs, ev, k + 1);
            }
            let key_str = last_of(&v.name);
            let claim_key = head_of(&v.name);
            let mut out: Vec<char> = Vec::new();
            append_str(&mut out, "Example variable ");
            append_str(&mut out, key_str.as_str());
            append_str(&mut out, " under ");
            append_str(&mut out, claim_key.as_str());
            append_str(&mut out, " is required but is not set");
            return (false, from_chars(out.as_slice()));
        }
        k = k + 1;
    }
    assert(vs.take(vs.len() as int) =~= vs);
    (true, String::new())
}

proof fn lemma_unknown_claim_prefix(vs: Seq<TfVariable>, es: Seq<(String, Value)>, n: int)
    requires
        0 <= n <= es.len(),
        first_unknown_claim(vs, es.take(n)) is Some,
    ensures
        first_unknown_claim(vs, es) == first_unknown_claim(vs, es.take(n)),
    decreases es.len() - n,
{
    if n < es.len() {
        assert(es.take(n + 1).drop_last() =~= es.take(n));
        lemma_unknown_claim_prefix(vs, es, n + 1);
    } else {
        assert(es.take(n) =~= es);
    }
}

proof fn lemma_inner_problem_prefix(vs: Seq<TfVariable>, claim: Seq<char>, es: Seq<(String, Value)>, n: int)
    requires
        0 <= n <= es.len(),
        first_inner_problem(vs, claim, es.take(n)) is Some,
    ensures
        first_inner_problem(vs, claim, es) == first_inner_problem(vs, claim, es.take(n)),
    decreases es.len() - n,
{
    if n < es.len() {
        assert(es.take(n + 1).drop_last() =~= es.take(n));
        lemma_inner_problem_prefix(vs, claim, es, n + 1);
    } else {
        assert(es.take(n) =~= es);
    }
}

proof fn lemma_claim_entry_problem_prefix(vs: Seq<TfVariable>, es: Seq<(String, Value)>, n: int)
    requires
        0 <= n <= es.len(),
        first_claim_entry_problem(vs, es.take(n)) is Some,
    ensures
        first_claim_entry_problem(vs, es) == first_claim_entry_problem(vs, es.take(n)),
    decreases es.len() - n,
{
    if n < es.len() {
        assert(es.take(n + 1).drop_last() =~= es.take(n));
        lemma_claim_entry_problem_prefix(vs, es, n + 1);
    } else {
        assert(es.take(n) =~= es);
    }
}

proof fn lemma_unset_prefix(vs: Seq<TfVariable>, es: Seq<(String, Value)>, n: int)
    requires
        0 <= n <= vs.len(),
        first_unset_required(vs.take(n), es) is Some,
    ensures
        first_unset_required(vs, es) == first_unset_required(vs.take(n), es),
    decreases vs.len() - n,
{
    if n < vs.len() {
        assert(vs.take(n + 1).drop_last() =~= vs.take(n));
        lemma_unset_prefix(vs, es, n + 1);
    } else {
        assert(vs.take(n) =~= vs);
    }
}

/// The first invalid example, by the given rule.
pub open spec fn first_invalid_stack_example(vs: Seq<TfVariable>, exs: Seq<ModuleExample>) -> Option<Seq<char>>
    decreases exs.len(),
{
    if exs.len() == 0 {
        None
    } else {
        match first_invalid_stack_example(vs, exs.drop_last()) {
            Some(p) => Some(p),
            None => stack_example_problem(vs, exs.last().variables),
        }
    }
}

pub open spec fn first_invalid_module_example(vs: Seq<TfVariable>, exs: Seq<ModuleExample>) -> Option<Seq<char>>
    decreases exs.len(),
{
    if exs.len() == 0 {
        None
    } else {
        match first_invalid_module_example(vs, exs.drop_last()) {
            Some(p) => Some(p),
            None => module_example_problem(vs, exs.last().variables),
        }
    }
}

fn check_stack_examples(tf_variables: &Vec<TfVariable>, exs: &Vec<ModuleExample>) -> (r: Result<(), ModuleError>)
    requires
        forall|i: int|
            0 <= i < exs@.len() && first_invalid_stack_example(tf_variables@, exs@.take(i)) is None
                ==> stack_example_readable(tf_variables@, #[trigger] exs@[i].variables),
    ensures
        match first_invalid_stack_example(tf_variables@, exs@) {
            Some(p) => r is Err && r->Err_0@ == ErrorView::InvalidExampleVariable(p),
            None => r is Ok,
        },
{
    let mut i: usize = 0;
    while i < exs.len()
        invariant
            i <= exs@.len(),
            forall|q: int|
                0 <= q < exs@.len() && first_invalid_stack_example(tf_variables@, exs@.take(q)) is None
                    ==> stack_example_readable(tf_variables@, #[trigger] exs@[q].variables),
            first_invalid_stack_example(tf_variables@, exs@.take(i as int)) is None,
        decreases exs.len() - i,
    {
        assert(exs@.take(i + 1).drop_last() =~= exs@.take(i as int));
        assert(exs@.take(i + 1).last() == exs@[i as int]);
        let (ok, error) = is_all_stack_example_variables_valid(tf_variables, &exs[i].variables);
        if !ok {
            proof {
                assert(first_invalid_stack_example(tf_variables@, exs@.take(i + 1)) == Some(error@));
                lemma_stack_examples_prefix(tf_variables@, exs@, i + 1);
            }
            return Err(ModuleError::InvalidExampleVariable(error));
        }
        i = i + 1;
    }
    assert(exs@.take(exs@.len() as int) =~= exs@);
    Ok(())
}

fn check_module_examples(tf_variables: &Vec<TfVariable>, exs: &Vec<ModuleExample>) -> (r: Result<(), ModuleError>)
    requires
        forall|i: int| 0 <= i < exs@.len() ==> (#[trigger] exs@[i].variables) is Object,
    ensures
        match first_invalid_module_example(tf_variables@, exs@) {
            Some(p) => r is Err && r->Err_0@ == ErrorView::InvalidExampleVariable(p),
            None => r is Ok,
        },
{
    let mut i: usize = 0;
    while i < exs.len()
        invariant
            i <= exs@.len(),
            forall|q: int| 0 <= q < exs@.len() ==> (#[trigger] exs@[q].variables) is Object,
            first_invalid_module_example(tf_variables@, exs@.take(i as int)) is None,
        decreases exs.len() - i,
    {
        assert(exs@.take(i + 1).drop_last() =~= exs@.take(i as int));
        assert(exs@.take(i + 1).last() == exs@[i as int]);
        let (ok, error) = is_all_module_example_variables_valid(tf_variables, &exs[i].variables);
        if !ok {
            proof {
                assert(first_invalid_module_example(tf_variables@, exs@.take(i + 1)) == Some(error@));
                lemma_module_examples_prefix(tf_variables@, exs@, i + 1);
            }
            return Err(ModuleError::InvalidExampleVariable(error));
        }
        i = i + 1;
    }
    assert(exs@.take(exs@.len() as int) =~= exs@);
    Ok(())
}

/// The examples of a stack are valid for its variables; the first invalid one is the error.
pub fn validate_examples(tf_variables: &Vec<TfVariable>, examples: &Option<Vec<ModuleExample>>) -> (r: Result<(), ModuleError>)
    requires
        match *examples {
            Some(exs) => forall|i: int|
                0 <= i < exs@.len() && first_invalid_stack_example(tf_variables@, exs@.take(i)) is None
                    ==> stack_example_readable(tf_variables@, #[trigger] exs@[i].variables),
            None => true,
        },
    ensures
        match *examples {
            Some(exs) => match first_invalid_stack_example(tf_variables@, exs@) {
                Some(p) => r is Err && r->Err_0@ == ErrorView::InvalidExampleVariable(p),
                None => r is Ok,
            },
            None => r is Ok,
        },
{
    match examples {
        None => Ok(()),
        Some(exs) => check_stack_examples(tf_variables, exs),
    }
}

/// The examples of a module are valid for its variables (and those of its providers); the first
/// invalid one is the error.
pub fn validate_module_examples(tf_variables: &Vec<TfVariable>, examples: &Option<Vec<ModuleExample>>) -> (r: Result<(), ModuleError>)
    requires
        match *examples {
            Some(exs) => forall|i: int| 0 <= i < exs@.len() ==> (#[trigger] exs@[i].variables) is Object,
            None => true,
        },
    ensures
        match *examples {
            Some(exs) => match first_invalid_module_example(tf_variables@, exs@) {
                Some(p) => r is Err && r->Err_0@ == ErrorView::InvalidExampleVariable(p),
                None => r is Ok,
            },
            None => r is Ok,
        },
{
    match examples {
        None => Ok(()),
        Some(exs) => check_module_examples(tf_variables, exs),
    }
}

proof fn lemma_stack_examples_prefix(vs: Seq<TfVariable>, exs: Seq<ModuleExample>, n: int)
    requires
        0 <= n <= exs.len(),
        first_invalid_stack_example(vs, exs.take(n)) is Some,
    ensures
        first_invalid_stack_example(vs, exs) == first_invalid_stack_example(vs, exs.take(n)),
    decreases exs.len() - n,
{
    if n < exs.len() {
        assert(exs.take(n + 1).drop_last() =~= exs.take(n));
        lemma_stack_examples_prefix(vs, exs, n + 1);
    } else {
        assert(exs.take(n) =~= exs);
    }
}

proof fn lemma_module_examples_prefix(vs: Seq<TfVariable>, exs: Seq<ModuleExample>, n: int)
    requires
        0 <= n <= exs.len(),
        first_invalid_module_example(vs, exs.take(n)) is Some,
    ensures
        first_invalid_module_example(vs, exs) == first_invalid_module_example(vs, exs.take(n)),
    decreases exs.len() - n,
{
    if n < exs.len() {
        assert(exs.take(n + 1).drop_last() =~= exs.take(n));
        lemma_module_examples_prefix(vs, exs, n + 1);
    } else {
        assert(exs.take(n) =~= exs);
    }
}

} // verus!
