//! The decisions of publishing a module or a stack: which variables are set by the environment,
//! which providers may be combined, where the package is stored, and how many uploads run at once.
use vstd::prelude::*;
use crate::manifest::TfVariable;
use crate::stdwrap::{lowercase_of, to_lowercase_string};
use crate::text::{append_str, from_chars, starts_with, starts_with_exec, to_chars};
use crate::tfcode::{copy_opt_value, var_like, variable_with_default};

verus! {

/// A variable named `INFRAWEAVE_...` is set from the environment, not by the user.
pub open spec fn is_environment_variable(name: Seq<char>) -> bool {
    starts_with(name, "INFRAWEAVE_"@)
}

pub(crate) fn is_environment_variable_exec(name: &String) -> (b: bool)
    ensures
        b == is_environment_variable(name@),
{
    let cs = to_chars(name.as_str());
    let p = to_chars("INFRAWEAVE_");
    starts_with_exec(cs.as_slice(), p.as_slice())
}

/// The variables that users set, in order.
pub open spec fn user_variables(vs: Seq<TfVariable>) -> Seq<TfVariable>
    decreases vs.len(),
{
    if vs.len() == 0 {
        Seq::empty()
    } else if is_environment_variable(vs.last().name@) {
        user_variables(vs.drop_last())
    } else {
        user_variables(vs.drop_last()).push(vs.last())
    }
}

/// The names of the variables set from the environment, in order.
pub open spec fn environment_variable_names(vs: Seq<TfVariable>) -> Seq<Seq<char>>
    decreases vs.len(),
{
    if vs.len() == 0 {
        Seq::empty()
    } else if is_environment_variable(vs.last().name@) {
        environment_variable_names(vs.drop_last()).push(vs.last().name@)
    } else {
        environment_variable_names(vs.drop_last())
    }
}

pub open spec fn copies_of(r: Seq<TfVariable>, vs: Seq<TfVariable>) -> bool {
    r.len() == vs.len() && forall|i: int| 0 <= i < r.len() ==> var_like(#[trigger] r[i], vs[i], vs[i].default)
}

pub(crate) fn copy_variable(v: &TfVariable) -> (r: TfVariable)
    ensures
        var_like(r, *v, v.default),
{
    let d = copy_opt_value(&v.default);
    variable_with_default(v, d)
}

/// The variables of a module split into those users set and the names of those set from the
/// environment (`INFRAWEAVE_...`), each in order.
pub fn split_environment_variables(tf_variables: &Vec<TfVariable>) -> (r: (Vec<TfVariable>, Vec<String>))
    ensures
        copies_of(r.0@, user_variables(tf_variables@)),
        r.1@.map_values(|s: String| s@) == environment_variable_names(tf_variables@),
{
    let ghost vs = tf_variables@;
    let mut users: Vec<TfVariable> = Vec::new();
    let mut env: Vec<String> = Vec::new();
    let mut i: usize = 0;
    while i < tf_variables.len()
        invariant
            vs == tf_variables@,
            i <= vs.len(),
            copies_of(users@, user_variables(vs.take(i as int))),
            env@.map_values(|s: String| s@) == environment_variable_names(vs.take(i as int)),
        decreases tf_variables.len() - i,
    {
        assert(vs.take(i + 1).drop_last() =~= vs.take(i as int));
        assert(vs.take(i + 1).last() == vs[i as int]);
        let v = &tf_variables[i];
        if is_environment_variable_exec(&v.name) {
            let ghost before = env@.map_values(|s: String| s@);
            env.push(v.name.clone());
            assert(env@.map_values(|s: String| s@) =~= before.push(v.name@));
        } else {
            let ghost before = users@;
            let ghost target = user_variables(vs.take(i as int));
            users.push(copy_variable(v));
            assert forall|q: int| 0 <= q < users@.len() implies var_like(#[trigger] users@[q], target.push(*v)[q], target.push(*v)[q].default) by {
                if q < before.len() {
                    assert(users@[q] == before[q]);
                }
            }
        }
        i = i + 1;
    }
    assert(vs.take(vs.len() as int) =~= vs);
    (users, env)
}

/// A provider that a module uses: its name, and the Terraform provider and alias it configures.
#[derive(Debug)]
pub struct ProviderConfig {
    pub name: String,
    pub provider: String,
    pub alias: Option<String>,
}

/// The configuration a provider occupies in Terraform: `provider` or `provider.alias`.
pub open spec fn configuration_name(p: ProviderConfig) -> Seq<char> {
    match p.alias {
        Some(a) => p.provider@ + "."@ + a@,
        None => p.provider@,
    }
}

/// Another provider of the list has the same configuration.
pub open spec fn shares_configuration(ps: Seq<ProviderConfig>, i: int) -> bool {
    exists|j: int| 0 <= j < ps.len() && j != i && configuration_name(#[trigger] ps[j]) == configuration_name(ps[i])
}

/// The first provider whose configuration another provider has too.
pub open spec fn first_shared(ps: Seq<ProviderConfig>, n: int) -> Option<int>
    decreases n,
{
    if n <= 0 {
        None
    } else {
        match first_shared(ps, n - 1) {
            Some(i) => Some(i),
            None => if shares_configuration(ps, n - 1) {
                Some(n - 1)
            } else {
                None
            },
        }
    }
}

/// The names of the providers of one configuration, in order.
pub open spec fn names_with_configuration(ps: Seq<ProviderConfig>, c: Seq<char>) -> Seq<Seq<char>>
    decreases ps.len(),
{
    if ps.len() == 0 {
        Seq::empty()
    } else if configuration_name(ps.last()) == c {
        names_with_configuration(ps.drop_last(), c).push(ps.last().name@)
    } else {
        names_with_configuration(ps.drop_last(), c)
    }
}

/// The names joined by `, `.
pub open spec fn joined(names: Seq<Seq<char>>) -> Seq<char>
    decreases names.len(),
{
    if names.len() == 0 {
        Seq::empty()
    } else if names.len() == 1 {
        names[0]
    } else {
        joined(names.drop_last()) + ", "@ + names.last()
    }
}

/// The message for a configuration that several providers of a module have.
pub open spec fn shared_configuration_message(ps: Seq<ProviderConfig>, c: Seq<char>) -> Seq<char> {
    "configuration name \""@ + c + "\" occurs in multiple providers ["@ + joined(names_with_configuration(ps, c))
        + "], this is not allowed, update providers in module.yaml"@
}

fn configuration_of(p: &ProviderConfig) -> (r: String)
    ensures
        r@ == configuration_name(*p),
{
    match &p.alias {
        Some(a) => {
            let mut out: Vec<char> = Vec::new();
            append_str(&mut out, p.provider.as_str());
            append_str(&mut out, ".");
            append_str(&mut out, a.as_str());
            from_chars(out.as_slice())
        },
        None => p.provider.clone(),
    }
}

/// Checks that no two providers of a module have the same configuration, which publishing
/// refuses (see `shared_configuration`, which finds where they do); nothing is left to do where
/// none do.
pub fn validate_providers(tf_providers: &Vec<ProviderConfig>)
    requires
        first_shared(tf_providers@, tf_providers@.len() as int) is None,
{
}

/// Where two providers of a module have the same configuration, the message that names the
/// first such configuration and all providers that have it; `None` where no two do.
pub fn shared_configuration(tf_providers: &Vec<ProviderConfig>) -> (r: Option<String>)
    ensures
        match first_shared(tf_providers@, tf_providers@.len() as int) {
            Some(i) => r is Some && r->Some_0@ == shared_configuration_message(tf_providers@, configuration_name(tf_providers@[i])),
            None => r is None,
        },
{
    let ghost ps = tf_providers@;
    let mut i: usize = 0;
    while i < tf_providers.len()
        invariant
            ps == tf_providers@,
            i <= ps.len(),
            first_shared(ps, i as int) is None,
        decreases tf_providers.len() - i,
    {
        let ci = configuration_of(&tf_providers[i]);
        let mut shared = false;
        let mut j: usize = 0;
        while j < tf_providers.len()
            invariant
                ps == tf_providers@,
                i < ps.len(),
                ci@ == configuration_name(ps[i as int]),
                j <= ps.len(),
                shared == exists|q: int| 0 <= q < j && q != i && configuration_name(#[trigger] ps[q]) == configuration_name(ps[i as int]),
            decreases tf_providers.len() - j,
        {
            if j != i && configuration_of(&tf_providers[j]) == ci {
                shared = true;
            }
            j = j + 1;
        }
        if shared {
            proof {
                assert(first_shared(ps, i + 1) == Some(i as int));
                lemma_first_shared_prefix(ps, i + 1, ps.len() as int);
            }
            let mut names: Vec<char> = Vec::new();
            let mut count: usize = 0;
            let mut k: usize = 0;
            while k < tf_providers.len()
                invariant
                    ps == tf_providers@,
                    ci@ == configuration_name(ps[i as int]),
                    k <= ps.len(),
                    count <= k,
                    count == names_with_configuration(ps.take(k as int), ci@).len(),
                    names@ == joined(names_with_configuration(ps.take(k as int), ci@)),
                decreases tf_providers.len() - k,
            {
                assert(ps.take(k + 1).drop_last() =~= ps.take(k as int));
                assert(ps.take(k + 1).last() == ps[k as int]);
                if configuration_of(&tf_providers[k]) == ci {
                    if count > 0 {
                        append_str(&mut names, ", ");
                    }
                    append_str(&mut names, tf_providers[k].name.as_str());
                    proof {
                        let ns = names_with_configuration(ps.take(k as int), ci@);
                        if ns.len() == 0 {
                            assert(ns.push(ps[k as int].name@) =~= seq![ps[k as int].name@]);
                        } else {
                            assert(ns.push(ps[k as int].name@).drop_last() =~= ns);
                        }
                    }
                    count = count + 1;
                }
                k = k + 1;
            }
            assert(ps.take(ps.len() as int) =~= ps);
            let mut msg: Vec<char> = Vec::new();
            append_str(&mut msg, "configuration name \"");
            append_str(&mut msg, ci.as_str());
            append_str(&mut msg, "\" occurs in multiple providers [");
            let joined_names = from_chars(names.as_slice());
            append_str(&mut msg, joined_names.as_str());
            append_str(&mut msg, "], this is not allowed, update providers in module.yaml");
            return Some(from_chars(msg.as_slice()));
        }
        proof {
            assert(first_shared(ps, i + 1) is None);
        }
        i = i + 1;
    }
    None
}

proof fn lemma_first_shared_prefix(ps: Seq<ProviderConfig>, n: int, m: int)
    requires
        0 <= n <= m,
        first_shared(ps, n) is Some,
    ensures
        first_shared(ps, m) == first_shared(ps, n),
    decreases m - n,
{
    if n < m {
        lemma_first_shared_prefix(ps, n, m - 1);
    }
}

/// The value of a decimal numeral: digits only, at least one.
pub open spec fn digits_value(s: Seq<char>) -> int
    decreases s.len(),
{
    if s.len() == 0 {
        0
    } else {
        digits_value(s.drop_last()) * 10 + (s.last() as int - 48)
    }
}

pub open spec fn all_digits(s: Seq<char>) -> bool {
    s.len() > 0 && forall|i: int| 0 <= i < s.len() ==> '0' <= #[trigger] s[i] <= '9'
}

/// What `str::parse::<usize>` gives: an optional `+`, then decimal digits whose value fits.
pub open spec fn parse_usize_of(s: Seq<char>) -> Option<int> {
    let t = if s.len() > 0 && s[0] == '+' {
        s.drop_first()
    } else {
        s
    };
    if all_digits(t) && digits_value(t) <= usize::MAX {
        Some(digits_value(t))
    } else {
        None
    }
}

proof fn lemma_digits_value_nonneg(s: Seq<char>)
    requires
        forall|i: int| 0 <= i < s.len() ==> '0' <= #[trigger] s[i] <= '9',
    ensures
        digits_value(s) >= 0,
    decreases s.len(),
{
    if s.len() > 0 {
        lemma_digits_value_nonneg(s.drop_last());
    }
}

proof fn lemma_digits_value_grows(s: Seq<char>)
    requires
        s.len() > 0,
        forall|i: int| 0 <= i < s.len() ==> '0' <= #[trigger] s[i] <= '9',
    ensures
        digits_value(s.drop_last()) <= digits_value(s),
{
    lemma_digits_value_nonneg(s.drop_last());
}

/// Reads a decimal number as `str::parse::<usize>` does.
pub fn parse_usize(s: &str) -> (r: Option<usize>)
    ensures
        match parse_usize_of(s@) {
            Some(v) => r is Some && r->Some_0 as int == v,
            None => r is None,
        },
{
    let cs = to_chars(s);
    let start: usize = if cs.len() > 0 && cs[0] == '+' { 1 } else { 0 };
    let ghost t = if s@.len() > 0 && s@[0] == '+' { s@.drop_first() } else { s@ };
    assert(t =~= cs@.subrange(start as int, cs@.len() as int));
    if start >= cs.len() {
        assert(t.len() == 0);
        return None;
    }
    let mut value: usize = 0;
    let mut i: usize = start;
    while i < cs.len()
        invariant
            cs@ == s@,
            start <= i <= cs@.len(),
            start < cs@.len(),
            t == cs@.subrange(start as int, cs@.len() as int),
            parse_usize_of(s@) == (if all_digits(t) && digits_value(t) <= usize::MAX { Some(digits_value(t)) } else { None::<int> }),
            forall|q: int| start <= q < i ==> '0' <= #[trigger] cs@[q] <= '9',
            value == digits_value(cs@.subrange(start as int, i as int)),
        decreases cs.len() - i,
    {
        let c = cs[i];
        if !('0' <= c && c <= '9') {
            assert(t[i - start] == c);
            assert(!all_digits(t));
            return None;
        }
        let d: usize = (c as u32 - 48) as usize;
        let ghost pre = cs@.subrange(start as int, i as int);
        let ghost next = cs@.subrange(start as int, i + 1);
        assert(next.drop_last() =~= pre);
        assert(next.last() == c);
        assert(digits_value(next) == value * 10 + d);
        if value > (usize::MAX - d) / 10 {
            proof {
                assert(value * 10 + d > usize::MAX) by (nonlinear_arith)
                    requires
                        value > (usize::MAX - d) / 10,
                        d <= 9;
                if all_digits(t) {
                    lemma_prefix_value_bounded(t, i + 1 - start);
                    assert(t.subrange(0, i + 1 - start) =~= next);
                }
            }
            return None;
        }
        assert(value * 10 + d <= usize::MAX) by (nonlinear_arith)
            requires
                value <= (usize::MAX - d) / 10,
                d <= 9;
        value = value * 10 + d;
        i = i + 1;
    }
    assert(cs@.subrange(start as int, i as int) =~= t);
    assert(all_digits(t)) by {
        assert forall|q: int| 0 <= q < t.len() implies '0' <= #[trigger] t[q] <= '9' by {
            assert(t[q] == cs@[q + start]);
        }
    }
    Some(value)
}

/// A prefix of a numeral has no greater value than the numeral.
proof fn lemma_prefix_value_bounded(t: Seq<char>, n: int)
    requires
        all_digits(t),
        0 <= n <= t.len(),
    ensures
        digits_value(t.subrange(0, n)) <= digits_value(t),
    decreases t.len() - n,
{
    if n < t.len() {
        lemma_prefix_value_bounded(t, n + 1);
        let a = t.subrange(0, n + 1);
        assert(a.drop_last() =~= t.subrange(0, n));
        lemma_digits_value_grows(a);
    } else {
        assert(t.subrange(0, n) =~= t);
    }
}

/// Whether the `TEST_MODE` setting turns test mode on: `true` in any letter case, or `1`.
pub open spec fn test_mode_of(setting: Option<Seq<char>>) -> bool {
    match setting {
        Some(v) => lowercase_of(v) == "true"@ || v == "1"@,
        None => false,
    }
}

pub fn is_test_mode(setting: Option<&str>) -> (b: bool)
    ensures
        b == test_mode_of(match setting {
            Some(v) => Some(v@),
            None => None,
        }),
{
    match setting {
        Some(v) => to_lowercase_string(v) == String::from_str("true") || String::from_str(v) == String::from_str("1"),
        None => false,
    }
}

/// How many uploads run at once: one in test mode; else the `CONCURRENCY_LIMIT` setting where it
/// is a number, else 10; and never more than there are uploads.
pub open spec fn concurrency_limit_of(test_mode: bool, limit_setting: Option<Seq<char>>, tasks: int) -> int {
    let configured = match limit_setting {
        Some(v) => match parse_usize_of(v) {
            Some(n) => n,
            None => 10,
        },
        None => 10,
    };
    let effective = if test_mode { 1 } else { configured };
    if tasks < effective { tasks } else { effective }
}

pub fn effective_concurrency_limit(test_mode: bool, limit_setting: Option<&str>, tasks: usize) -> (r: usize)
    ensures
        r == concurrency_limit_of(test_mode, match limit_setting {
            Some(v) => Some(v@),
            None => None,
        }, tasks as int),
{
    let configured: usize = match limit_setting {
        Some(v) => match parse_usize(v) {
            Some(n) => n,
            None => 10,
        },
        None => 10,
    };
    let effective: usize = if test_mode { 1 } else { configured };
    if tasks < effective { tasks } else { effective }
}

/// Where a package is stored: `<name>/<name>-<version>.zip`.
pub fn package_s3_key(name: &str, version: &str) -> (r: String)
    ensures
        r@ == name@ + "/"@ + name@ + "-"@ + version@ + ".zip"@,
{
    let mut out: Vec<char> = Vec::new();
    append_str(&mut out, name);
    append_str(&mut out, "/");
    append_str(&mut out, name);
    append_str(&mut out, "-");
    append_str(&mut out, version);
    append_str(&mut out, ".zip");
    from_chars(out.as_slice())
}

} // verus!
