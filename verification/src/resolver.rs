//! Turns the values of a claim inside a stack into Terraform (HCL) expressions, resolving each
//! `{{ Kind::claim::field }}` reference into the output of another claim's module, a variable
//! of the stack, or a variable of another claim.
use vstd::prelude::*;
use crate::casing::{snake_case, to_snake_case};
use crate::manifest::{ErrorView, ModuleError};
use crate::refs::{find_refs, lemma_refs_from_ordered, match_view, matches_view, refs_in, RefMatch, RefSpan};
use crate::stack::strs_view;
use crate::text::{append_range, append_str, from_chars, to_chars};
use crate::value::Value;

verus! {

/// An HCL expression, as far as claim values produce them.
#[derive(Debug)]
pub enum HclExpr {
    Null,
    Bool(bool),
    /// A number, as its text.
    Number(String),
    /// A plain string.
    Str(String),
    /// A traversal: a root variable (`var` or `module`) and the attributes after it.
    Traversal(String, Vec<String>),
    /// A quoted template string, such as `"${module.a.b}-suffix"`.
    Quoted(String),
    /// A heredoc template (delimiter `EOF`), for templates that span lines.
    Heredoc(String),
    Array(Vec<HclExpr>),
    /// An object; each key is used as an identifier.
    Object(Vec<(String, HclExpr)>),
    /// Any other expression (a function call, an operation, a `for` expression, ...), kept as
    /// its Terraform text.
    Other(String),
}

/// What a string becomes.
pub enum StrExprView {
    Str(Seq<char>),
    Traversal(Seq<char>, Seq<Seq<char>>),
    Quoted(Seq<char>),
    Heredoc(Seq<char>),
}

/// Resolves the references of claim values against the known variables and outputs of a stack.
pub struct TfInputResolver {
    known_variables: Vec<String>,
    known_outputs: Vec<String>,
}

pub open spec fn has_name(names: Seq<Seq<char>>, n: Seq<char>) -> bool {
    names.contains(n)
}

/// `claim__field`, with the claim name in snake_case.
pub open spec fn prefixed(claim: Seq<char>, field: Seq<char>) -> Seq<char> {
    snake_case(claim) + "__"@ + field
}

/// The traversal (root and attributes) that a reference resolves to, or the key that was looked
/// up in vain: a stack variable `stack__field`; else an output of the claim's module, else a
/// variable `claim__field`.
pub open spec fn ref_target(m: RefSpan, vars: Seq<Seq<char>>, outs: Seq<Seq<char>>) -> Result<
    (Seq<char>, Seq<Seq<char>>),
    Seq<char>,
> {
    let field = snake_case(m.field);
    if m.kind == "Stack"@ && m.claim == "variables"@ {
        let key = "stack__"@ + field;
        if has_name(vars, key) {
            Ok(("var"@, seq![key]))
        } else {
            Err(key)
        }
    } else {
        let key = prefixed(m.claim, field);
        if has_name(outs, key) {
            Ok(("module"@, seq![snake_case(m.claim), field]))
        } else if has_name(vars, key) {
            Ok(("var"@, seq![key]))
        } else {
            Err(key)
        }
    }
}

/// `root.attr1.attr2...`
pub open spec fn dotted(root: Seq<char>, attrs: Seq<Seq<char>>) -> Seq<char>
    decreases attrs.len(),
{
    if attrs.len() == 0 {
        root
    } else {
        dotted(root, attrs.drop_last()) + "."@ + attrs.last()
    }
}

/// The interpolation that replaces a resolved reference inside a template: `${root.attrs}`.
pub open spec fn interpolation(m: RefSpan, vars: Seq<Seq<char>>, outs: Seq<Seq<char>>) -> Seq<char> {
    match ref_target(m, vars, outs) {
        Ok((root, attrs)) => "${"@ + dotted(root, attrs) + "}"@,
        Err(_) => Seq::empty(),
    }
}

/// The first reference, in order, that does not resolve: its text and the key looked up.
pub open spec fn first_unresolved(s: Seq<char>, ms: Seq<RefSpan>, vars: Seq<Seq<char>>, outs: Seq<Seq<char>>) -> Option<(Seq<char>, Seq<char>)>
    decreases ms.len(),
{
    if ms.len() == 0 {
        None
    } else {
        match first_unresolved(s, ms.drop_last(), vars, outs) {
            Some(x) => Some(x),
            None => match ref_target(ms.last(), vars, outs) {
                Err(key) => Some((s.subrange(ms.last().start, ms.last().end), key)),
                Ok(_) => None,
            },
        }
    }
}

pub open spec fn gap_start(ms: Seq<RefSpan>, k: int) -> int {
    if k == 0 {
        0
    } else {
        ms[k - 1].end
    }
}

/// The string up to the end of the `k`-th reference, each reference replaced by its
/// interpolation.
pub open spec fn spliced_upto(s: Seq<char>, ms: Seq<RefSpan>, vars: Seq<Seq<char>>, outs: Seq<Seq<char>>, k: int) -> Seq<char>
    decreases k,
{
    if k <= 0 {
        Seq::empty()
    } else {
        spliced_upto(s, ms, vars, outs, k - 1) + s.subrange(gap_start(ms, k - 1), ms[k - 1].start)
            + interpolation(ms[k - 1], vars, outs)
    }
}

/// The string with each reference replaced by its interpolation.
pub open spec fn spliced(s: Seq<char>, vars: Seq<Seq<char>>, outs: Seq<Seq<char>>) -> Seq<char> {
    let ms = refs_in(s);
    spliced_upto(s, ms, vars, outs, ms.len() as int) + s.subrange(gap_start(ms, ms.len() as int), s.len() as int)
}

/// What a string value becomes: itself where it holds no reference; the error of its first
/// reference that does not resolve (its text and the key looked up); a traversal where the
/// whole string is one reference; else a template with each reference replaced by its
/// interpolation, a heredoc where it spans lines and a quoted string where it does not.
pub open spec fn string_result(s: Seq<char>, vars: Seq<Seq<char>>, outs: Seq<Seq<char>>) -> Result<StrExprView, (Seq<char>, Seq<char>)> {
    let ms = refs_in(s);
    if ms.len() == 0 {
        Ok(StrExprView::Str(s))
    } else {
        match first_unresolved(s, ms, vars, outs) {
            Some(x) => Err(x),
            None => if ms[0].start == 0 && ms[0].end == s.len() {
                match ref_target(ms[0], vars, outs) {
                    Ok((root, attrs)) => Ok(StrExprView::Traversal(root, attrs)),
                    Err(_) => Ok(StrExprView::Str(s)),
                }
            } else if spliced(s, vars, outs).contains('\n') {
                Ok(StrExprView::Heredoc(spliced(s, vars, outs)))
            } else {
                Ok(StrExprView::Quoted(spliced(s, vars, outs)))
            },
        }
    }
}

/// The expression is what the string becomes.
pub open spec fn str_expr_is(e: HclExpr, x: StrExprView) -> bool {
    match x {
        StrExprView::Str(s) => e matches HclExpr::Str(t) && t@ == s,
        StrExprView::Traversal(root, attrs) => e matches HclExpr::Traversal(r, a) && r@ == root && strs_view(a@) == attrs,
        StrExprView::Quoted(s) => e matches HclExpr::Quoted(t) && t@ == s,
        StrExprView::Heredoc(s) => e matches HclExpr::Heredoc(t) && t@ == s,
    }
}

/// Every string inside the value resolves.
pub open spec fn resolvable(v: Value, vars: Seq<Seq<char>>, outs: Seq<Seq<char>>) -> bool
    decreases v,
{
    match v {
        Value::Text(s) => string_result(s@, vars, outs) is Ok,
        Value::List(items) => forall|i: int| 0 <= i < items@.len() ==> resolvable(#[trigger] items@[i], vars, outs),
        Value::Object(entries) => forall|i: int| 0 <= i < entries@.len() ==> resolvable(#[trigger] entries@[i].1, vars, outs),
        _ => true,
    }
}

/// The expression is what the value becomes: null, booleans and numbers as they are, strings
/// as `string_result` says, lists and mappings item by item, keys kept.
pub open spec fn expr_of(v: Value, e: HclExpr, vars: Seq<Seq<char>>, outs: Seq<Seq<char>>) -> bool
    decreases v,
{
    match v {
        Value::Null => e is Null,
        Value::Bool(b) => e matches HclExpr::Bool(c) && b == c,
        Value::Number(n) => e matches HclExpr::Number(m) && m@ == n@,
        Value::Text(s) => match string_result(s@, vars, outs) {
            Ok(x) => str_expr_is(e, x),
            Err(_) => false,
        },
        Value::List(items) => match e {
            HclExpr::Array(es) => es@.len() == items@.len() && forall|i: int|
                0 <= i < items@.len() ==> expr_of(#[trigger] items@[i], es@[i], vars, outs),
            _ => false,
        },
        Value::Object(entries) => match e {
            HclExpr::Object(es) => es@.len() == entries@.len() && forall|i: int|
                0 <= i < entries@.len() ==> es@[i].0@ == entries@[i].0@ && expr_of(
                    #[trigger] entries@[i].1,
                    es@[i].1,
                    vars,
                    outs,
                ),
            _ => false,
        },
    }
}

fn copy_str(s: &String) -> (r: String)
    ensures
        r@ == s@,
{
    s.clone()
}

fn names_contain(names: &Vec<String>, n: &String) -> (b: bool)
    ensures
        b == has_name(strs_view(names@), n@),
{
    let mut i: usize = 0;
    while i < names.len()
        invariant
            i <= names@.len(),
            forall|j: int| 0 <= j < i ==> names@[j]@ != n@,
        decreases names.len() - i,
    {
        if names[i] == *n {
            assert(strs_view(names@)[i as int] == n@);
            return true;
        }
        i = i + 1;
    }
    assert(!strs_view(names@).contains(n@)) by {
        if strs_view(names@).contains(n@) {
            let j = choose|j: int| 0 <= j < strs_view(names@).len() && strs_view(names@)[j] == n@;
            assert(names@[j]@ == n@);
        }
    }
    false
}

fn contains_newline(cs: &Vec<char>) -> (b: bool)
    ensures
        b == cs@.contains('\n'),
{
    let mut i: usize = 0;
    while i < cs.len()
        invariant
            i <= cs@.len(),
            forall|j: int| 0 <= j < i ==> cs@[j] != '\n',
        decreases cs.len() - i,
    {
        if cs[i] == '\n' {
            return true;
        }
        i = i + 1;
    }
    false
}

impl TfInputResolver {
    pub closed spec fn vars(&self) -> Seq<Seq<char>> {
        strs_view(self.known_variables@)
    }

    pub closed spec fn outs(&self) -> Seq<Seq<char>> {
        strs_view(self.known_outputs@)
    }

    /// A resolver that knows the given variables (`claim__variable`, and `stack__variable` for
    /// the stack's own) and outputs (`claim__output`).
    pub fn new(known_variables: Vec<String>, known_outputs: Vec<String>) -> (r: Self)
        ensures
            r.vars() == strs_view(known_variables@),
            r.outs() == strs_view(known_outputs@),
    {
        TfInputResolver { known_variables, known_outputs }
    }

    /// `claim__field`, with the claim name in snake_case.
    pub fn prefix_name(claim_name: &str, field_name: &str) -> (r: String)
        ensures
            r@ == prefixed(claim_name@, field_name@),
    {
        let mut out: Vec<char> = Vec::new();
        let c = to_snake_case(claim_name);
        append_str(&mut out, c.as_str());
        append_str(&mut out, "__");
        append_str(&mut out, field_name);
        from_chars(&out)
    }

    /// The traversal a reference resolves to, or the key looked up in vain.
    fn target(&self, m: &RefMatch) -> (r: Result<(String, Vec<String>), String>)
        ensures
            match ref_target(match_view(*m), self.vars(), self.outs()) {
                Ok((root, attrs)) => r is Ok && r->Ok_0.0@ == root && strs_view(r->Ok_0.1@) == attrs,
                Err(key) => r is Err && r->Err_0@ == key,
            },
    {
        let field = to_snake_case(m.field.as_str());
        if m.kind == String::from_str("Stack") && m.claim == String::from_str("variables") {
            let mut kc: Vec<char> = Vec::new();
            append_str(&mut kc, "stack__");
            append_str(&mut kc, field.as_str());
            let key = from_chars(&kc);
            if names_contain(&self.known_variables, &key) {
                let ghost k2 = key@;
                let mut attrs: Vec<String> = Vec::new();
                attrs.push(key);
                assert(strs_view(attrs@) =~= seq![k2]);
                Ok((String::from_str("var"), attrs))
            } else {
                Err(key)
            }
        } else {
            let key = TfInputResolver::prefix_name(m.claim.as_str(), field.as_str());
            if names_contain(&self.known_outputs, &key) {
                let c = to_snake_case(m.claim.as_str());
                let ghost (cv, fv) = (c@, field@);
                let mut attrs: Vec<String> = Vec::new();
                attrs.push(c);
                attrs.push(field);
                assert(strs_view(attrs@) =~= seq![cv, fv]);
                Ok((String::from_str("module"), attrs))
            } else if names_contain(&self.known_variables, &key) {
                let ghost k2 = key@;
                let mut attrs: Vec<String> = Vec::new();
                attrs.push(key);
                assert(strs_view(attrs@) =~= seq![k2]);
                Ok((String::from_str("var"), attrs))
            } else {
                Err(key)
            }
        }
    }
}

/// Appends `${root.attr1.attr2...}`.
fn push_interpolation(out: &mut Vec<char>, root: &String, attrs: &Vec<String>)
    ensures
        final(out)@ == old(out)@ + ("${"@ + dotted(root@, strs_view(attrs@)) + "}"@),
{
    let ghost o0 = out@;
    append_str(out, "${");
    append_str(out, root.as_str());
    let mut i: usize = 0;
    while i < attrs.len()
        invariant
            i <= attrs@.len(),
            out@ == o0 + "${"@ + dotted(root@, strs_view(attrs@).take(i as int)),
        decreases attrs.len() - i,
    {
        assert(strs_view(attrs@).take(i + 1).drop_last() =~= strs_view(attrs@).take(i as int));
        append_str(out, ".");
        append_str(out, attrs[i].as_str());
        assert(out@ =~= o0 + "${"@ + dotted(root@, strs_view(attrs@).take(i + 1)));
        i = i + 1;
    }
    assert(strs_view(attrs@).take(attrs@.len() as int) =~= strs_view(attrs@));
    append_str(out, "}");
    assert(out@ =~= o0 + ("${"@ + dotted(root@, strs_view(attrs@)) + "}"@));
}

proof fn lemma_unresolved_prefix(s: Seq<char>, ms: Seq<RefSpan>, vars: Seq<Seq<char>>, outs: Seq<Seq<char>>, k: int)
    requires
        0 <= k <= ms.len(),
        first_unresolved(s, ms.take(k), vars, outs) is Some,
    ensures
        first_unresolved(s, ms, vars, outs) == first_unresolved(s, ms.take(k), vars, outs),
    decreases ms.len() - k,
{
    if k < ms.len() {
        assert(ms.take(k + 1).drop_last() =~= ms.take(k));
        lemma_unresolved_prefix(s, ms, vars, outs, k + 1);
    } else {
        assert(ms.take(k) =~= ms);
    }
}

impl TfInputResolver {
    /// The first reference that does not resolve, as the error it gives.
    fn check_refs(&self, cs: &Vec<char>, ms: &Vec<RefMatch>) -> (r: Result<(), ModuleError>)
        requires
            matches_view(ms@) == refs_in(cs@),
        ensures
            match first_unresolved(cs@, refs_in(cs@), self.vars(), self.outs()) {
                Some((text, key)) => r is Err && r->Err_0@ == ErrorView::UnresolvedReference(text, key),
                None => r is Ok,
            },
    {
        let ghost vars = self.vars();
        let ghost outs = self.outs();
        let ghost sv = cs@;
        let ghost mv = refs_in(sv);
        proof {
            lemma_refs_from_ordered(sv, 0);
        }
        let mut k: usize = 0;
        while k < ms.len()
            invariant
                cs@ == sv,
                vars == self.vars(),
                outs == self.outs(),
                mv == refs_in(sv),
                matches_view(ms@) == mv,
                k <= ms@.len(),
                forall|q: int| 0 <= q < mv.len() ==> 0 <= (#[trigger] mv[q]).start < mv[q].end <= sv.len(),
                first_unresolved(sv, mv.take(k as int), vars, outs) is None,
            decreases ms.len() - k,
        {
            let m = &ms[k];
            let ghost mk = mv[k as int];
            assert(mk == match_view(*m));
            assert(mv.take(k + 1).drop_last() =~= mv.take(k as int));
            assert(mv.take(k + 1).last() == mk);
            match self.target(m) {
                Err(key) => {
                    let mut tc: Vec<char> = Vec::new();
                    append_range(&mut tc, cs, m.start, m.end);
                    let text = from_chars(&tc);
                    proof {
                        assert(first_unresolved(sv, mv.take(k + 1), vars, outs) == Some((sv.subrange(mk.start, mk.end), key@)));
                        lemma_unresolved_prefix(sv, mv, vars, outs, k + 1);
                    }
                    return Err(ModuleError::UnresolvedReference(text, key));
                },
                Ok(_) => {},
            }
            k = k + 1;
        }
        assert(mv.take(mv.len() as int) =~= mv);
        Ok(())
    }

    /// The string with each reference replaced by its interpolation.
    fn splice(&self, cs: &Vec<char>, ms: &Vec<RefMatch>) -> (out: Vec<char>)
        requires
            matches_view(ms@) == refs_in(cs@),
        ensures
            out@ == spliced(cs@, self.vars(), self.outs()),
    {
        let ghost vars = self.vars();
        let ghost outs = self.outs();
        let ghost sv = cs@;
        let ghost mv = refs_in(sv);
        proof {
            lemma_refs_from_ordered(sv, 0);
        }
        let mut out: Vec<char> = Vec::new();
        let mut prev: usize = 0;
        let mut k: usize = 0;
        while k < ms.len()
            invariant
                cs@ == sv,
                vars == self.vars(),
                outs == self.outs(),
                mv == refs_in(sv),
                matches_view(ms@) == mv,
                k <= ms@.len(),
                forall|q: int| 0 <= q < mv.len() ==> 0 <= (#[trigger] mv[q]).start < mv[q].end <= sv.len(),
                forall|q: int| 0 < q < mv.len() ==> mv[q - 1].end <= (#[trigger] mv[q]).start,
                prev == gap_start(mv, k as int),
                prev <= sv.len(),
                out@ == spliced_upto(sv, mv, vars, outs, k as int),
            decreases ms.len() - k,
        {
            let m = &ms[k];
            let ghost mk = mv[k as int];
            assert(mk == match_view(*m));
            append_range(&mut out, cs, prev, m.start);
            match self.target(m) {
                Ok((root, attrs)) => {
                    push_interpolation(&mut out, &root, &attrs);
                    assert(interpolation(mk, vars, outs) == "${"@ + dotted(root@, strs_view(attrs@)) + "}"@);
                },
                Err(_) => {
                    assert(interpolation(mk, vars, outs) =~= Seq::<char>::empty());
                },
            }
            assert(out@ =~= spliced_upto(sv, mv, vars, outs, k + 1));
            prev = m.end;
            k = k + 1;
        }
        append_range(&mut out, cs, prev, cs.len());
        out
    }

    /// What a string becomes (see `string_result`).
    pub fn string_to_expression(&self, input: &str) -> (r: Result<HclExpr, ModuleError>)
        ensures
            match string_result(input@, self.vars(), self.outs()) {
                Ok(x) => r is Ok && str_expr_is(r->Ok_0, x),
                Err((text, key)) => r is Err && r->Err_0@ == ErrorView::UnresolvedReference(text, key),
            },
    {
        let cs = to_chars(input);
        let ms = find_refs(input);
        if ms.len() == 0 {
            return Ok(HclExpr::Str(String::from_str(input)));
        }
        match self.check_refs(&cs, &ms) {
            Err(e) => {
                return Err(e);
            },
            Ok(()) => {},
        }
        assert(matches_view(ms@)[0] == match_view(ms@[0]));
        if ms[0].start == 0 && ms[0].end == cs.len() {
            match self.target(&ms[0]) {
                Ok((root, attrs)) => {
                    return Ok(HclExpr::Traversal(root, attrs));
                },
                Err(_) => {
                    return Ok(HclExpr::Str(String::from_str(input)));
                },
            }
        }
        let out = self.splice(&cs, &ms);
        let nl = contains_newline(&out);
        let text = from_chars(&out);
        if nl {
            Ok(HclExpr::Heredoc(text))
        } else {
            Ok(HclExpr::Quoted(text))
        }
    }
}

impl TfInputResolver {
    pub(crate) fn resolve_ref(&self, value: &Value) -> (e: HclExpr)
        requires
            resolvable(*value, self.vars(), self.outs()),
        ensures
            expr_of(*value, e, self.vars(), self.outs()),
        decreases value,
    {
        match value {
            Value::Null => HclExpr::Null,
            Value::Bool(b) => HclExpr::Bool(*b),
            Value::Number(n) => HclExpr::Number(copy_str(n)),
            Value::Text(s) => {
                match self.string_to_expression(s.as_str()) {
                    Ok(e) => e,
                    Err(_) => HclExpr::Null,
                }
            },
            Value::List(items) => {
                let mut es: Vec<HclExpr> = Vec::new();
                let mut i: usize = 0;
                while i < items.len()
                    invariant
                        i <= items@.len(),
                        *value == Value::List(*items),
                        es@.len() == i,
                        forall|q: int| 0 <= q < items@.len() ==> resolvable(#[trigger] items@[q], self.vars(), self.outs()),
                        forall|q: int| 0 <= q < i ==> expr_of(#[trigger] items@[q], es@[q], self.vars(), self.outs()),
                    decreases items.len() - i,
                {
                    proof {
                        assert(decreases_to!(*value => (*value)->List_0));
                        assert(decreases_to!((*value)->List_0 => (*value)->List_0@));
                        assert(decreases_to!((*value)->List_0@ => items@[i as int]));
                    }
                    let e = self.resolve_ref(&items[i]);
                    let ghost es0 = es@;
                    es.push(e);
                    assert(forall|q: int| 0 <= q < i ==> es@[q] == es0[q]);
                    i = i + 1;
                }
                HclExpr::Array(es)
            },
            Value::Object(entries) => {
                let mut es: Vec<(String, HclExpr)> = Vec::new();
                let mut i: usize = 0;
                while i < entries.len()
                    invariant
                        i <= entries@.len(),
                        *value == Value::Object(*entries),
                        es@.len() == i,
                        forall|q: int| 0 <= q < entries@.len() ==> resolvable(#[trigger] entries@[q].1, self.vars(), self.outs()),
                        forall|q: int| 0 <= q < i ==> (#[trigger] es@[q]).0@ == entries@[q].0@,
                        forall|q: int| 0 <= q < i ==> expr_of(#[trigger] entries@[q].1, es@[q].1, self.vars(), self.outs()),
                    decreases entries.len() - i,
                {
                    proof {
                        assert(decreases_to!(*value => (*value)->Object_0));
                        assert(decreases_to!((*value)->Object_0 => (*value)->Object_0@));
                        assert(decreases_to!((*value)->Object_0@ => entries@[i as int]));
                        assert(decreases_to!(entries@[i as int] => entries@[i as int].1));
                    }
                    let e = self.resolve_ref(&entries[i].1);
                    let ghost es0 = es@;
                    let k = copy_str(&entries[i].0);
                    es.push((k, e));
                    assert(forall|q: int| 0 <= q < i ==> es@[q] == es0[q]);
                    assert(es@[i as int].0@ == entries@[i as int].0@);
                    assert(expr_of(entries@[i as int].1, es@[i as int].1, self.vars(), self.outs()));
                    i = i + 1;
                }
                let r = HclExpr::Object(es);
                assert forall|q: int| 0 <= q < entries@.len() implies es@[q].0@ == entries@[q].0@ && expr_of(#[trigger] entries@[q].1, es@[q].1, self.vars(), self.outs()) by {
                    assert(es@[q].0@ == entries@[q].0@);
                }
                r
            },
        }
    }

    /// The expression a claim value becomes: null, booleans and numbers as they are, a string as
    /// `string_to_expression` makes it, lists and mappings item by item with their keys kept.
    /// A string at the top may fail to resolve, which is the error; inside a list or a mapping
    /// every string resolves.
    pub fn resolve(&self, value: Value) -> (r: Result<HclExpr, ModuleError>)
        requires
            !(value is Text) ==> resolvable(value, self.vars(), self.outs()),
        ensures
            match value {
                Value::Text(s) => match string_result(s@, self.vars(), self.outs()) {
                    Ok(x) => r is Ok && str_expr_is(r->Ok_0, x),
                    Err((text, key)) => r is Err && r->Err_0@ == ErrorView::UnresolvedReference(text, key),
                },
                _ => r is Ok && expr_of(value, r->Ok_0, self.vars(), self.outs()),
            },
    {
        match &value {
            Value::Text(s) => self.string_to_expression(s.as_str()),
            _ => Ok(self.resolve_ref(&value)),
        }
    }
}

impl TfInputResolver {
    /// Whether every string of the value resolves (see `resolvable`).
    pub fn value_resolves(&self, value: &Value) -> (b: bool)
        ensures
            b == resolvable(*value, self.vars(), self.outs()),
        decreases value,
    {
        match value {
            Value::Text(s) => self.string_to_expression(s.as_str()).is_ok(),
            Value::List(items) => {
                let mut i: usize = 0;
                while i < items.len()
                    invariant
                        i <= items@.len(),
                        *value == Value::List(*items),
                        forall|q: int| 0 <= q < i ==> resolvable(#[trigger] items@[q], self.vars(), self.outs()),
                    decreases items.len() - i,
                {
                    proof {
                        assert(decreases_to!(*value => (*value)->List_0));
                        assert(decreases_to!((*value)->List_0 => (*value)->List_0@));
                        assert(decreases_to!((*value)->List_0@ => items@[i as int]));
                    }
                    if !self.value_resolves(&items[i]) {
                        return false;
                    }
                    i = i + 1;
                }
                true
            },
            Value::Object(entries) => {
                let mut i: usize = 0;
                while i < entries.len()
                    invariant
                        i <= entries@.len(),
                        *value == Value::Object(*entries),
                        forall|q: int| 0 <= q < i ==> resolvable(#[trigger] entries@[q].1, self.vars(), self.outs()),
                    decreases entries.len() - i,
                {
                    proof {
                        assert(decreases_to!(*value => (*value)->Object_0));
                        assert(decreases_to!((*value)->Object_0 => (*value)->Object_0@));
                        assert(decreases_to!((*value)->Object_0@ => entries@[i as int]));
                        assert(decreases_to!(entries@[i as int] => entries@[i as int].1));
                    }
                    if !self.value_resolves(&entries[i].1) {
                        return false;
                    }
                    i = i + 1;
                }
                true
            },
            _ => true,
        }
    }
}

} // verus!
