//! Properties that hold across the library's functions and across all their inputs.
use vstd::prelude::*;
use crate::casing::{ascii_lower, ascii_upper, camel_case, camel_pending, snake_case};
use crate::text::{is_ascii_lower, is_ascii_upper};
use crate::grouping::{
    active_group, active_groups, deleted_groups, has_key, is_last_of_key, key_view, last_of_key,
    manifest_groups, view_of_change, GroupAction, GroupView, ManifestChange,
};
use crate::infra::namespace_of;
use crate::publishing::{configuration_name, first_shared, shares_configuration, ProviderConfig};
use crate::stack::{depends_on, is_claim_name, is_dependency_cycle, ClaimModule};
use crate::graph::next_of;
use crate::claims::first_duplicate;
use crate::manifest::TfVariable;
use crate::publishing::{environment_variable_names, is_environment_variable, user_variables};
use crate::text::{contains, occurs_at, replace_all};
use crate::tfcode::{dependency_map_upto};

verus! {

/// A name in camelCase form: no `_`, and not starting with an uppercase letter.
pub open spec fn camel_form(s: Seq<char>) -> bool {
    &&& forall|i: int| 0 <= i < s.len() ==> #[trigger] s[i] != '_'
    &&& s.len() > 0 ==> !is_ascii_upper(s[0])
}

/// A name in snake_case form: no uppercase letter, and every `_` stands between a character
/// and a lowercase letter.
pub open spec fn snake_form(s: Seq<char>) -> bool {
    forall|i: int|
        0 <= i < s.len() ==> !is_ascii_upper(#[trigger] s[i]) && (s[i] == '_' ==> 0 < i && i + 1 < s.len()
            && is_ascii_lower(s[i + 1]))
}

proof fn lemma_upper_lower(c: char)
    requires
        is_ascii_upper(c),
    ensures
        is_ascii_lower(ascii_lower(c)),
        ascii_upper(ascii_lower(c)) == c,
        ascii_lower(c) != '_',
{
}

proof fn lemma_lower_upper(c: char)
    requires
        is_ascii_lower(c),
    ensures
        is_ascii_upper(ascii_upper(c)),
        ascii_lower(ascii_upper(c)) == c,
{
}

/// The last character of a snake_case name is `_` only where the name's last character is.
proof fn lemma_snake_last(s: Seq<char>)
    ensures
        s.len() > 0 <==> snake_case(s).len() > 0,
        s.len() > 0 ==> (snake_case(s).last() == '_' <==> s.last() == '_'),
    decreases s.len(),
{
    if s.len() > 0 {
        lemma_snake_last(s.drop_last());
        let c = s.last();
        if is_ascii_upper(c) {
            lemma_upper_lower(c);
        }
    }
}

/// Converting a camelCase name to snake_case and back gives the name again.
pub proof fn law_camel_snake_round_trip(s: Seq<char>)
    requires
        camel_form(s),
    ensures
        camel_case(snake_case(s)) == s,
    decreases s.len(),
{
    if s.len() > 0 {
        let t = s.drop_last();
        let c = s.last();
        assert(camel_form(t)) by {
            assert forall|i: int| 0 <= i < t.len() implies #[trigger] t[i] != '_' by {
                assert(t[i] == s[i]);
            }
            if t.len() > 0 {
                assert(t[0] == s[0]);
            }
        }
        law_camel_snake_round_trip(t);
        lemma_snake_last(t);
        assert(c == s[s.len() - 1]);
        assert(c != '_');
        if is_ascii_upper(c) {
            assert(s.len() > 1);
            lemma_upper_lower(c);
            let u = snake_case(t).push('_');
            assert(snake_case(s) == u.push(ascii_lower(c)));
            assert(u.push(ascii_lower(c)).drop_last() =~= u);
            assert(u.drop_last() =~= snake_case(t));
            assert(camel_pending(u));
            assert(camel_case(u) == camel_case(snake_case(t)));
            assert(camel_case(snake_case(s)) == camel_case(u).push(ascii_upper(ascii_lower(c))));
            assert(camel_case(snake_case(s)) =~= s);
        } else {
            assert(snake_case(s) == snake_case(t).push(c));
            assert(snake_case(t).push(c).drop_last() =~= snake_case(t));
            if t.len() > 0 {
                assert(t.last() == s[t.len() - 1]);
            }
            assert(!camel_pending(snake_case(t)));
            assert(camel_case(snake_case(s)) =~= s);
        }
    }
}

/// Converting a snake_case name to camelCase and back gives the name again.
pub proof fn law_snake_camel_round_trip(s: Seq<char>)
    requires
        snake_form(s),
    ensures
        snake_case(camel_case(s)) == s,
    decreases s.len(),
{
    if s.len() > 0 {
        let t = s.drop_last();
        let c = s.last();
        assert(c == s[s.len() - 1]);
        assert(!is_ascii_upper(c));
        assert(c != '_');
        if t.len() > 0 && t.last() == '_' {
            let u = t.drop_last();
            assert(t.last() == s[s.len() - 2]);
            assert(s.len() >= 3);
            assert(is_ascii_lower(c));
            assert(snake_form(u)) by {
                assert forall|i: int| 0 <= i < u.len() implies !is_ascii_upper(#[trigger] u[i]) && (u[i] == '_' ==> 0 < i && i
                    + 1 < u.len() && is_ascii_lower(u[i + 1])) by {
                    assert(u[i] == s[i]);
                    if u[i] == '_' {
                        assert(s[i + 1] != '_') by {
                            if i + 1 == s.len() - 2 {
                                assert(is_ascii_lower(s[i + 1]));
                            }
                        }
                        if i + 1 < u.len() {
                            assert(u[i + 1] == s[i + 1]);
                        } else {
                            assert(s[i + 1] == t.last());
                        }
                    }
                }
            }
            law_snake_camel_round_trip(u);
            assert(u.len() > 0);
            assert(u[0] == s[0]);
            assert(u[0] != '_');
            lemma_camel_nonempty(u);
            assert(camel_case(t) == camel_case(u));
            assert(camel_pending(t));
            assert(camel_case(s) == camel_case(u).push(ascii_upper(c)));
            lemma_lower_upper(c);
            let v = camel_case(u).push(ascii_upper(c));
            assert(v.drop_last() =~= camel_case(u));
            assert(v.len() > 1);
            assert(snake_case(v) == snake_case(camel_case(u)).push('_').push(ascii_lower(ascii_upper(c))));
            assert(snake_case(v) =~= s);
        } else {
            assert(snake_form(t)) by {
                assert forall|i: int| 0 <= i < t.len() implies !is_ascii_upper(#[trigger] t[i]) && (t[i] == '_' ==> 0 < i && i
                    + 1 < t.len() && is_ascii_lower(t[i + 1])) by {
                    assert(t[i] == s[i]);
                    if t[i] == '_' {
                        if i + 1 < t.len() {
                            assert(t[i + 1] == s[i + 1]);
                        } else {
                            assert(t.last() == '_');
                        }
                    }
                }
            }
            law_snake_camel_round_trip(t);
            assert(!camel_pending(t));
            assert(camel_case(s) == camel_case(t).push(c));
            let v = camel_case(t).push(c);
            assert(v.drop_last() =~= camel_case(t));
            assert(snake_case(v) == snake_case(camel_case(t)).push(c));
            assert(snake_case(v) =~= s);
        }
    }
}

/// A name that does not start with `_` keeps at least one character in camelCase.
proof fn lemma_camel_nonempty(s: Seq<char>)
    requires
        s.len() > 0,
        s[0] != '_',
    ensures
        camel_case(s).len() > 0,
    decreases s.len(),
{
    if s.len() > 1 {
        let t = s.drop_last();
        assert(t[0] == s[0]);
        lemma_camel_nonempty(t);
        lemma_camel_grows(s);
    }
}

proof fn lemma_camel_grows(s: Seq<char>)
    requires
        s.len() > 0,
    ensures
        camel_case(s.drop_last()).len() <= camel_case(s).len(),
{
}

/// Asking twice for the namespace of a Python deployment gives what asking once gives.
pub proof fn law_namespace_idempotent(arg: Seq<char>)
    ensures
        namespace_of(namespace_of(arg)) == namespace_of(arg),
{
    reveal_strlit("python/");
    if !arg.contains('/') {
        let n = "python/"@ + arg;
        assert(n[6] == '/');
        assert(n.contains('/'));
    }
}

/// Every claim in a cycle of dependencies is a claim of the stack.
pub proof fn law_cycle_names_are_claims(cms: Seq<ClaimModule>, c: Seq<Seq<char>>)
    requires
        is_dependency_cycle(cms, c),
    ensures
        forall|k: int| 0 <= k < c.len() ==> is_claim_name(cms, #[trigger] c[k]),
{
    assert forall|k: int| 0 <= k < c.len() implies is_claim_name(cms, #[trigger] c[k]) by {
        let m = if k == 0 { c.len() - 1 } else { k - 1 };
        assert(next_of(c.len() as int, m) == k);
        assert(depends_on(cms, c[m], c[next_of(c.len() as int, m)]));
    }
}

/// The providers of a module pass the check exactly when no two of them have the same
/// configuration.
pub proof fn law_providers_distinct(ps: Seq<ProviderConfig>)
    ensures
        first_shared(ps, ps.len() as int) is None <==> forall|i: int, j: int|
            0 <= i < ps.len() && 0 <= j < ps.len() && i != j ==> configuration_name(#[trigger] ps[i]) != configuration_name(#[trigger] ps[j]),
{
    lemma_first_shared_none(ps, ps.len() as int);
    if first_shared(ps, ps.len() as int) is None {
        assert forall|i: int, j: int| 0 <= i < ps.len() && 0 <= j < ps.len() && i != j implies configuration_name(#[trigger] ps[i]) != configuration_name(#[trigger] ps[j]) by {
            assert(!shares_configuration(ps, i));
        }
    } else {
        let i = choose|i: int| 0 <= i < ps.len() && shares_configuration(ps, i);
        let j = choose|j: int| 0 <= j < ps.len() && j != i && configuration_name(#[trigger] ps[j]) == configuration_name(ps[i]);
        assert(configuration_name(ps[i]) == configuration_name(ps[j]));
    }
}

proof fn lemma_first_shared_none(ps: Seq<ProviderConfig>, n: int)
    requires
        0 <= n <= ps.len(),
    ensures
        first_shared(ps, n) is None <==> forall|i: int| 0 <= i < n ==> !shares_configuration(ps, i),
    decreases n,
{
    if n > 0 {
        lemma_first_shared_none(ps, n - 1);
    }
}

/// The groups of the first `n` active changes are for distinct identities, each that of an
/// active change among them that is the last of its identity.
proof fn lemma_active_groups_keys(actives: Seq<ManifestChange>, deleteds: Seq<ManifestChange>, n: int)
    requires
        0 <= n <= actives.len(),
    ensures
        forall|i: int| 0 <= i < active_groups(actives, deleteds, n).len() ==> exists|j: int|
            0 <= j < n && is_last_of_key(actives, j) && (#[trigger] active_groups(actives, deleteds, n)[i]).key == key_view(actives[j].key),
        forall|i: int, j: int|
            0 <= i < j < active_groups(actives, deleteds, n).len() ==> (#[trigger] active_groups(actives, deleteds, n)[i]).key
                != (#[trigger] active_groups(actives, deleteds, n)[j]).key,
    decreases n,
{
    if n > 0 {
        lemma_active_groups_keys(actives, deleteds, n - 1);
        let prev = active_groups(actives, deleteds, n - 1);
        let cur = active_groups(actives, deleteds, n);
        let extra = if is_last_of_key(actives, n - 1) {
            active_group(actives[n - 1], last_of_key(deleteds, key_view(actives[n - 1].key)))
        } else {
            Seq::empty()
        };
        assert(cur == prev + extra);
        assert(extra.len() <= 1);
        assert(forall|i: int| 0 <= i < extra.len() ==> (#[trigger] extra[i]).key == key_view(actives[n - 1].key));
        assert forall|i: int| 0 <= i < cur.len() implies exists|j: int|
            0 <= j < n && is_last_of_key(actives, j) && (#[trigger] cur[i]).key == key_view(actives[j].key) by {
            if i < prev.len() {
                assert(cur[i] == prev[i]);
                let j = choose|j: int| 0 <= j < n - 1 && is_last_of_key(actives, j) && prev[i].key == key_view(actives[j].key);
            } else {
                assert(cur[i] == extra[i - prev.len()]);
            }
        }
        assert forall|i: int, j: int| 0 <= i < j < cur.len() implies (#[trigger] cur[i]).key != (#[trigger] cur[j]).key by {
            if j < prev.len() {
                assert(cur[i] == prev[i]);
                assert(cur[j] == prev[j]);
            } else if i < prev.len() {
                assert(cur[i] == prev[i]);
                assert(cur[j] == extra[j - prev.len()]);
                let q = choose|q: int| 0 <= q < n - 1 && is_last_of_key(actives, q) && prev[i].key == key_view(actives[q].key);
                assert(key_view(actives[n - 1].key) != key_view(actives[q].key));
            } else {
                assert(extra.len() <= 1);
            }
        }
    }
}

/// The groups of the first `n` removed changes are for distinct identities, none of them that
/// of an active change.
proof fn lemma_deleted_groups_keys(actives: Seq<ManifestChange>, deleteds: Seq<ManifestChange>, n: int)
    requires
        0 <= n <= deleteds.len(),
    ensures
        forall|i: int| 0 <= i < deleted_groups(actives, deleteds, n).len() ==> exists|j: int|
            0 <= j < n && is_last_of_key(deleteds, j) && !has_key(actives, key_view(deleteds[j].key))
                && (#[trigger] deleted_groups(actives, deleteds, n)[i]).key == key_view(deleteds[j].key),
        forall|i: int, j: int|
            0 <= i < j < deleted_groups(actives, deleteds, n).len() ==> (#[trigger] deleted_groups(actives, deleteds, n)[i]).key
                != (#[trigger] deleted_groups(actives, deleteds, n)[j]).key,
    decreases n,
{
    if n > 0 {
        lemma_deleted_groups_keys(actives, deleteds, n - 1);
        let prev = deleted_groups(actives, deleteds, n - 1);
        let cur = deleted_groups(actives, deleteds, n);
        let add = is_last_of_key(deleteds, n - 1) && !has_key(actives, key_view(deleteds[n - 1].key));
        let extra = if add {
            seq![view_of_change(deleteds[n - 1], GroupAction::Destroy)]
        } else {
            Seq::empty()
        };
        assert(cur == prev + extra);
        assert forall|i: int| 0 <= i < cur.len() implies exists|j: int|
            0 <= j < n && is_last_of_key(deleteds, j) && !has_key(actives, key_view(deleteds[j].key))
                && (#[trigger] cur[i]).key == key_view(deleteds[j].key) by {
            if i < prev.len() {
                assert(cur[i] == prev[i]);
                let j = choose|j: int| 0 <= j < n - 1 && is_last_of_key(deleteds, j) && !has_key(actives, key_view(deleteds[j].key)) && prev[i].key == key_view(deleteds[j].key);
            } else {
                assert(cur[i] == extra[i - prev.len()]);
            }
        }
        assert forall|i: int, j: int| 0 <= i < j < cur.len() implies (#[trigger] cur[i]).key != (#[trigger] cur[j]).key by {
            if j < prev.len() {
                assert(cur[i] == prev[i]);
                assert(cur[j] == prev[j]);
            } else if i < prev.len() {
                assert(cur[i] == prev[i]);
                assert(cur[j] == extra[j - prev.len()]);
                let q = choose|q: int| 0 <= q < n - 1 && is_last_of_key(deleteds, q) && !has_key(actives, key_view(deleteds[q].key)) && prev[i].key == key_view(deleteds[q].key);
                assert(key_view(deleteds[n - 1].key) != key_view(deleteds[q].key));
            }
        }
    }
}

/// No two groups of a change set are for the same manifest identity: each manifest is applied,
/// destroyed or renamed at most once.
pub proof fn law_groups_have_distinct_identities(actives: Seq<ManifestChange>, deleteds: Seq<ManifestChange>)
    ensures
        forall|i: int, j: int|
            0 <= i < j < manifest_groups(actives, deleteds).len() ==> (#[trigger] manifest_groups(actives, deleteds)[i]).key
                != (#[trigger] manifest_groups(actives, deleteds)[j]).key,
{
    lemma_active_groups_keys(actives, deleteds, actives.len() as int);
    lemma_deleted_groups_keys(actives, deleteds, deleteds.len() as int);
    let a = active_groups(actives, deleteds, actives.len() as int);
    let d = deleted_groups(actives, deleteds, deleteds.len() as int);
    let g = manifest_groups(actives, deleteds);
    assert(g == a + d);
    assert forall|i: int, j: int| 0 <= i < j < g.len() implies (#[trigger] g[i]).key != (#[trigger] g[j]).key by {
        if j < a.len() {
            assert(g[i] == a[i]);
            assert(g[j] == a[j]);
        } else if i >= a.len() {
            assert(g[i] == d[i - a.len()]);
            assert(g[j] == d[j - a.len()]);
        } else {
            assert(g[i] == a[i]);
            assert(g[j] == d[j - a.len()]);
            let p = choose|p: int| 0 <= p < actives.len() && is_last_of_key(actives, p) && a[i].key == key_view(actives[p].key);
            let q = choose|q: int| 0 <= q < deleteds.len() && is_last_of_key(deleteds, q) && !has_key(actives, key_view(deleteds[q].key)) && d[j - a.len()].key == key_view(deleteds[q].key);
            if a[i].key == d[j - a.len()].key {
                assert(has_key(actives, key_view(deleteds[q].key)));
            }
        }
    }
}

/// A list of names has no duplicate exactly when no name equals another.
pub proof fn law_no_duplicate_iff_distinct(names: Seq<Seq<char>>)
    ensures
        first_duplicate(names) is None <==> forall|i: int, j: int| 0 <= i < j < names.len() ==> names[i] != names[j],
    decreases names.len(),
{
    if names.len() > 0 {
        let t = names.drop_last();
        law_no_duplicate_iff_distinct(t);
        if first_duplicate(names) is None {
            assert forall|i: int, j: int| 0 <= i < j < names.len() implies names[i] != names[j] by {
                if j < names.len() - 1 {
                    assert(names[i] == t[i] && names[j] == t[j]);
                } else {
                    assert(names[i] == t[i]);
                    if names[i] == names[j] {
                        assert(t.contains(names.last()));
                    }
                }
            }
        } else if first_duplicate(t) is None {
            assert(t.contains(names.last()));
            let i = choose|i: int| 0 <= i < t.len() && t[i] == names.last();
            assert(names[i] == names[names.len() - 1]);
        } else {
            let (i, j) = choose|i: int, j: int| 0 <= i < j < t.len() && t[i] == t[j];
            assert(names[i] == names[j]);
        }
    }
}

/// The variables of a module are split without loss: each is either set by users or set from
/// the environment, never both.
pub proof fn law_environment_split_is_partition(vs: Seq<TfVariable>)
    ensures
        user_variables(vs).len() + environment_variable_names(vs).len() == vs.len(),
        forall|i: int| 0 <= i < user_variables(vs).len() ==> !is_environment_variable(#[trigger] user_variables(vs)[i].name@),
        forall|i: int| 0 <= i < environment_variable_names(vs).len() ==> is_environment_variable(#[trigger] environment_variable_names(vs)[i]),
    decreases vs.len(),
{
    if vs.len() > 0 {
        law_environment_split_is_partition(vs.drop_last());
        let u = user_variables(vs.drop_last());
        let e = environment_variable_names(vs.drop_last());
        if is_environment_variable(vs.last().name@) {
            assert(user_variables(vs) == u);
            assert forall|i: int| 0 <= i < user_variables(vs).len() implies !is_environment_variable(#[trigger] user_variables(vs)[i].name@) by {
                assert(user_variables(vs)[i] == u[i]);
                assert(!is_environment_variable(u[i].name@));
            }
            assert forall|i: int| 0 <= i < environment_variable_names(vs).len() implies is_environment_variable(#[trigger] environment_variable_names(vs)[i]) by {
                if i < e.len() {
                    assert(environment_variable_names(vs)[i] == e[i]);
                }
            }
        } else {
            assert(environment_variable_names(vs) == e);
            assert(user_variables(vs) == u.push(vs.last()));
            assert forall|i: int| 0 <= i < user_variables(vs).len() implies !is_environment_variable(#[trigger] user_variables(vs)[i].name@) by {
                if i < u.len() {
                    assert(user_variables(vs)[i] == u[i]);
                    assert(!is_environment_variable(u[i].name@));
                } else {
                    assert(user_variables(vs)[i] == vs.last());
                    assert(!is_environment_variable(vs.last().name@));
                }
            }
        }
    }
}

/// Replacing a text that does not occur changes nothing.
pub proof fn law_replace_without_occurrence(s: Seq<char>, from: Seq<char>, to: Seq<char>)
    requires
        !contains(s, from),
    ensures
        replace_all(s, from, to) == s,
    decreases s.len(),
{
    if s.len() > 0 && from.len() > 0 {
        assert(!occurs_at(s, from, 0));
        let t = s.drop_first();
        assert(!contains(t, from)) by {
            if contains(t, from) {
                let i = choose|i: int| occurs_at(t, from, i);
                assert(t.subrange(i, i + from.len()) =~= s.subrange(i + 1, i + 1 + from.len()));
                assert(occurs_at(s, from, i + 1));
            }
        }
        law_replace_without_occurrence(t, from, to);
        assert(seq![s[0]] + t =~= s);
    }
}

/// Every variable that the dependency map wires is a variable of the stack.
pub proof fn law_dependency_map_keys_are_variables(
    vs: Seq<(String, TfVariable)>,
    okeys: Seq<Seq<char>>,
    n: int,
)
    requires
        0 <= n <= vs.len(),
        dependency_map_upto(vs, okeys, n) is Ok,
    ensures
        forall|k: int| 0 <= k < dependency_map_upto(vs, okeys, n)->Ok_0.len() ==> exists|i: int|
            0 <= i < n && vs[i].0@ == (#[trigger] dependency_map_upto(vs, okeys, n)->Ok_0[k]).0,
    decreases n,
{
    if n > 0 {
        law_dependency_map_keys_are_variables(vs, okeys, n - 1);
        let prev = dependency_map_upto(vs, okeys, n - 1)->Ok_0;
        let cur = dependency_map_upto(vs, okeys, n)->Ok_0;
        assert forall|k: int| 0 <= k < cur.len() implies exists|i: int| 0 <= i < n && vs[i].0@ == (#[trigger] cur[k]).0 by {
            if k < prev.len() {
                assert(cur[k] == prev[k]);
                let i = choose|i: int| 0 <= i < n - 1 && vs[i].0@ == prev[k].0;
            } else {
                assert(cur[k].0 == vs[n - 1].0@);
            }
        }
    }
}

proof fn lemma_last_of_key_is_last(cs: Seq<ManifestChange>, i: int)
    requires
        0 <= i < cs.len(),
        is_last_of_key(cs, i),
    ensures
        last_of_key(cs, key_view(cs[i].key)) == Some(cs[i]),
    decreases cs.len(),
{
    if i < cs.len() - 1 {
        let p = cs.drop_last();
        assert(key_view(cs[cs.len() - 1].key) != key_view(cs[i].key));
        assert(is_last_of_key(p, i)) by {
            assert forall|j: int| i < j < p.len() implies key_view((#[trigger] p[j]).key) != key_view(p[i].key) by {
                assert(p[j] == cs[j]);
            }
        }
        lemma_last_of_key_is_last(p, i);
        assert(p[i] == cs[i]);
    }
}

proof fn lemma_unchanged_active_groups(cs: Seq<ManifestChange>, n: int)
    requires
        0 <= n <= cs.len(),
    ensures
        active_groups(cs, cs, n).len() == 0,
    decreases n,
{
    if n > 0 {
        lemma_unchanged_active_groups(cs, n - 1);
        if is_last_of_key(cs, n - 1) {
            lemma_last_of_key_is_last(cs, n - 1);
            assert(active_group(cs[n - 1], Some(cs[n - 1])) =~= Seq::<GroupView>::empty());
        }
        assert(active_groups(cs, cs, n) =~= Seq::<GroupView>::empty());
    }
}

proof fn lemma_unchanged_deleted_groups(cs: Seq<ManifestChange>, n: int)
    requires
        0 <= n <= cs.len(),
    ensures
        deleted_groups(cs, cs, n).len() == 0,
    decreases n,
{
    if n > 0 {
        lemma_unchanged_deleted_groups(cs, n - 1);
        assert(has_key(cs, key_view(cs[n - 1].key)));
        assert(deleted_groups(cs, cs, n) =~= Seq::<GroupView>::empty());
    }
}

/// Manifests that did not change give no group: where the manifests after a change are those
/// before it, nothing is applied, destroyed or renamed.
pub proof fn law_unchanged_manifests_give_no_group(cs: Seq<ManifestChange>)
    ensures
        manifest_groups(cs, cs).len() == 0,
{
    lemma_unchanged_active_groups(cs, cs.len() as int);
    lemma_unchanged_deleted_groups(cs, cs.len() as int);
}

} // verus!
