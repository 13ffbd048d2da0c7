//! Text helpers for generated Terraform code: ordering strings, joining them, and indenting
//! lines.
use vstd::prelude::*;
use crate::blocks::strs_model;
use crate::text::{append_str, from_chars, split_chars, split_on, to_chars};

verus! {

/// `a` comes before `b` in lexicographic order of code points (the order of `str`).
pub open spec fn lex_lt(a: Seq<char>, b: Seq<char>) -> bool
    decreases a.len(),
{
    if a.len() == 0 {
        b.len() > 0
    } else if b.len() == 0 {
        false
    } else if a[0] != b[0] {
        (a[0] as int) < (b[0] as int)
    } else {
        lex_lt(a.drop_first(), b.drop_first())
    }
}

/// Whether `a` comes before `b` (see `lex_lt`).
pub fn str_less(a: &str, b: &str) -> (r: bool)
    ensures
        r == lex_lt(a@, b@),
{
    let x = to_chars(a);
    let y = to_chars(b);
    let mut i: usize = 0;
    assert(a@.skip(0) =~= a@);
    assert(b@.skip(0) =~= b@);
    while i < x.len() && i < y.len()
        invariant
            x@ == a@,
            y@ == b@,
            i <= x@.len(),
            i <= y@.len(),
            lex_lt(a@, b@) == lex_lt(a@.skip(i as int), b@.skip(i as int)),
        decreases x.len() - i,
    {
        let ghost sa = a@.skip(i as int);
        let ghost sb = b@.skip(i as int);
        assert(sa[0] == x@[i as int]);
        assert(sb[0] == y@[i as int]);
        if x[i] != y[i] {
            return x[i] < y[i];
        }
        assert(sa.drop_first() =~= a@.skip(i + 1));
        assert(sb.drop_first() =~= b@.skip(i + 1));
        i = i + 1;
    }
    assert(a@.skip(i as int).len() == x@.len() - i);
    assert(b@.skip(i as int).len() == y@.len() - i);
    i == x.len() && i < y.len()
}

/// `x` put into `s` before the first element that it comes before.
pub open spec fn insert_sorted(s: Seq<Seq<char>>, x: Seq<char>) -> Seq<Seq<char>>
    decreases s.len(),
{
    if s.len() == 0 {
        seq![x]
    } else if lex_lt(x, s[0]) {
        seq![x] + s
    } else {
        seq![s[0]] + insert_sorted(s.drop_first(), x)
    }
}

/// The strings in lexicographic order (equal strings keep their order).
pub open spec fn sort_strs(s: Seq<Seq<char>>) -> Seq<Seq<char>>
    decreases s.len(),
{
    if s.len() == 0 {
        Seq::empty()
    } else {
        insert_sorted(sort_strs(s.drop_last()), s.last())
    }
}

proof fn lemma_insert_sorted_at(s: Seq<Seq<char>>, x: Seq<char>, p: int)
    requires
        0 <= p <= s.len(),
        forall|j: int| 0 <= j < p ==> !lex_lt(x, #[trigger] s[j]),
        p < s.len() ==> lex_lt(x, s[p]),
    ensures
        insert_sorted(s, x) == s.insert(p, x),
    decreases s.len(),
{
    if s.len() == 0 {
        assert(s.insert(p, x) =~= seq![x]);
    } else if p == 0 {
        assert(s.insert(0, x) =~= seq![x] + s);
    } else {
        assert(!lex_lt(x, s[0]));
        let t = s.drop_first();
        assert forall|j: int| 0 <= j < p - 1 implies !lex_lt(x, #[trigger] t[j]) by {
            assert(t[j] == s[j + 1]);
        }
        if p - 1 < t.len() {
            assert(t[p - 1] == s[p]);
        }
        lemma_insert_sorted_at(t, x, p - 1);
        assert(seq![s[0]] + t.insert(p - 1, x) =~= s.insert(p, x));
    }
}

proof fn lemma_insert_sorted_members(s: Seq<Seq<char>>, x: Seq<char>)
    ensures
        insert_sorted(s, x).len() == s.len() + 1,
        forall|i: int| 0 <= i < s.len() + 1 ==> #[trigger] insert_sorted(s, x)[i] == x || s.contains(insert_sorted(s, x)[i]),
    decreases s.len(),
{
    if s.len() > 0 && !lex_lt(x, s[0]) {
        let t = s.drop_first();
        lemma_insert_sorted_members(t, x);
        assert forall|i: int| 0 <= i < s.len() + 1 implies #[trigger] insert_sorted(s, x)[i] == x || s.contains(insert_sorted(s, x)[i]) by {
            if i == 0 {
                assert(insert_sorted(s, x)[0] == s[0]);
            } else {
                let y = insert_sorted(t, x)[i - 1];
                assert(insert_sorted(s, x)[i] == y);
                if y != x {
                    let k = choose|k: int| 0 <= k < t.len() && t[k] == y;
                    assert(s[k + 1] == y);
                }
            }
        }
    } else if s.len() > 0 {
        assert forall|i: int| 0 <= i < s.len() + 1 implies #[trigger] insert_sorted(s, x)[i] == x || s.contains(insert_sorted(s, x)[i]) by {
            if i > 0 {
                assert(insert_sorted(s, x)[i] == s[i - 1]);
            }
        }
    }
}

/// Sorting keeps the number of strings and brings in none that were not there.
pub proof fn lemma_sort_strs_members(s: Seq<Seq<char>>)
    ensures
        sort_strs(s).len() == s.len(),
        forall|i: int| 0 <= i < s.len() ==> s.contains(#[trigger] sort_strs(s)[i]),
    decreases s.len(),
{
    if s.len() > 0 {
        let p = s.drop_last();
        lemma_sort_strs_members(p);
        lemma_insert_sorted_members(sort_strs(p), s.last());
        assert forall|i: int| 0 <= i < s.len() implies s.contains(#[trigger] sort_strs(s)[i]) by {
            let y = sort_strs(s)[i];
            if y == s.last() {
                assert(s[s.len() - 1] == y);
            } else {
                let k = choose|k: int| 0 <= k < sort_strs(p).len() && sort_strs(p)[k] == y;
                let q = choose|q: int| 0 <= q < p.len() && p[q] == sort_strs(p)[k];
                assert(s[q] == y);
            }
        }
    }
}

proof fn lemma_lex_irreflexive(a: Seq<char>)
    ensures
        !lex_lt(a, a),
    decreases a.len(),
{
    if a.len() > 0 {
        lemma_lex_irreflexive(a.drop_first());
    }
}

proof fn lemma_lex_transitive(a: Seq<char>, b: Seq<char>, c: Seq<char>)
    requires
        lex_lt(a, b),
        lex_lt(b, c),
    ensures
        lex_lt(a, c),
    decreases a.len(),
{
    if a.len() > 0 && a[0] == b[0] && b[0] == c[0] {
        lemma_lex_transitive(a.drop_first(), b.drop_first(), c.drop_first());
    }
}

/// No string of `s` comes before one ahead of it.
pub open spec fn in_lex_order(s: Seq<Seq<char>>) -> bool {
    forall|i: int, j: int| 0 <= i < j < s.len() ==> !lex_lt(#[trigger] s[j], #[trigger] s[i])
}

proof fn lemma_insert_sorted_in_order(s: Seq<Seq<char>>, x: Seq<char>)
    requires
        in_lex_order(s),
    ensures
        in_lex_order(insert_sorted(s, x)),
    decreases s.len(),
{
    lemma_insert_sorted_members(s, x);
    if s.len() == 0 {
    } else if lex_lt(x, s[0]) {
        let r = insert_sorted(s, x);
        assert(r =~= seq![x] + s);
        assert forall|i: int, j: int| 0 <= i < j < r.len() implies !lex_lt(#[trigger] r[j], #[trigger] r[i]) by {
            if i == 0 {
                assert(r[j] == s[j - 1]);
                if lex_lt(s[j - 1], x) {
                    lemma_lex_transitive(s[j - 1], x, s[0]);
                    if j - 1 == 0 {
                        lemma_lex_irreflexive(s[0]);
                    }
                }
            } else {
                assert(r[i] == s[i - 1] && r[j] == s[j - 1]);
            }
        }
    } else {
        let t = s.drop_first();
        assert(in_lex_order(t)) by {
            assert forall|i: int, j: int| 0 <= i < j < t.len() implies !lex_lt(#[trigger] t[j], #[trigger] t[i]) by {
                assert(t[i] == s[i + 1] && t[j] == s[j + 1]);
            }
        }
        lemma_insert_sorted_in_order(t, x);
        lemma_insert_sorted_members(t, x);
        let r = insert_sorted(s, x);
        let u = insert_sorted(t, x);
        assert(r =~= seq![s[0]] + u);
        assert forall|i: int, j: int| 0 <= i < j < r.len() implies !lex_lt(#[trigger] r[j], #[trigger] r[i]) by {
            if i == 0 {
                let y = u[j - 1];
                assert(r[j] == y);
                if y != x {
                    let k = choose|k: int| 0 <= k < t.len() && t[k] == y;
                    assert(s[k + 1] == y);
                }
            } else {
                assert(r[i] == u[i - 1] && r[j] == u[j - 1]);
            }
        }
    }
}

/// Sorting puts the strings in lexicographic order (the order the generated Terraform code
/// lists its blocks in), keeps their number, and brings in none that were not there.
pub proof fn law_sorted_in_lex_order(s: Seq<Seq<char>>)
    ensures
        in_lex_order(sort_strs(s)),
        sort_strs(s).len() == s.len(),
        forall|i: int| 0 <= i < s.len() ==> s.contains(#[trigger] sort_strs(s)[i]),
    decreases s.len(),
{
    lemma_sort_strs_members(s);
    if s.len() > 0 {
        law_sorted_in_lex_order(s.drop_last());
        lemma_insert_sorted_in_order(sort_strs(s.drop_last()), s.last());
    }
}

/// The strings in lexicographic order (see `sort_strs`).
pub fn sort_strings(v: Vec<String>) -> (r: Vec<String>)
    ensures
        strs_model(r@) == sort_strs(strs_model(v@)),
{
    let ghost vs = strs_model(v@);
    let mut out: Vec<String> = Vec::new();
    assert(strs_model(out@) =~= Seq::<Seq<char>>::empty());
    let mut i: usize = 0;
    while i < v.len()
        invariant
            vs == strs_model(v@),
            i <= v@.len(),
            strs_model(out@) == sort_strs(vs.take(i as int)),
        decreases v.len() - i,
    {
        assert(vs.take(i + 1).drop_last() =~= vs.take(i as int));
        assert(vs.take(i + 1).last() == v@[i as int]@);
        let x = &v[i];
        let ghost om = strs_model(out@);
        let mut p: usize = 0;
        while p < out.len() && !str_less(x.as_str(), out[p].as_str())
            invariant
                om == strs_model(out@),
                p <= out@.len(),
                forall|j: int| 0 <= j < p ==> !lex_lt(x@, #[trigger] om[j]),
            decreases out.len() - p,
        {
            p = p + 1;
        }
        proof {
            if p < out@.len() {
                assert(lex_lt(x@, om[p as int]));
            }
            lemma_insert_sorted_at(om, x@, p as int);
        }
        out.insert(p, x.clone());
        assert(strs_model(out@) =~= om.insert(p as int, x@));
        i = i + 1;
    }
    assert(vs.take(vs.len() as int) =~= vs);
    out
}

/// The parts joined by a separator.
pub open spec fn joined_with(parts: Seq<Seq<char>>, sep: Seq<char>) -> Seq<char>
    decreases parts.len(),
{
    if parts.len() == 0 {
        Seq::empty()
    } else if parts.len() == 1 {
        parts[0]
    } else {
        joined_with(parts.drop_last(), sep) + sep + parts.last()
    }
}

/// The strings joined by the separator.
pub fn join_strings(parts: &Vec<String>, sep: &str) -> (r: String)
    ensures
        r@ == joined_with(strs_model(parts@), sep@),
{
    let ghost s = strs_model(parts@);
    let mut out: Vec<char> = Vec::new();
    let mut k: usize = 0;
    while k < parts.len()
        invariant
            s == strs_model(parts@),
            k <= parts@.len(),
            out@ == joined_with(s.take(k as int), sep@),
        decreases parts.len() - k,
    {
        assert(s.take(k + 1).drop_last() =~= s.take(k as int));
        assert(s.take(k + 1).last() == parts@[k as int]@);
        if k > 0 {
            append_str(&mut out, sep);
        } else {
            assert(s.take(0) =~= Seq::<Seq<char>>::empty());
            assert(out@ =~= Seq::<char>::empty());
        }
        append_str(&mut out, parts[k].as_str());
        k = k + 1;
    }
    assert(s.take(s.len() as int) =~= s);
    from_chars(out.as_slice())
}

/// `2 * n` spaces.
pub open spec fn spaces(n: nat) -> Seq<char> {
    Seq::new(2 * n, |i: int| ' ')
}

/// Each line of the text indented by `2 * n` spaces.
pub open spec fn indent_text(s: Seq<char>, n: nat) -> Seq<char> {
    joined_with(split_on(s, '\n').map_values(|l: Seq<char>| spaces(n) + l), "\n"@)
}

/// Each line of the text indented by `2 * level` spaces.
pub fn indent(s: &str, level: usize) -> (r: String)
    requires
        2 * level <= usize::MAX,
    ensures
        r@ == indent_text(s@, level as nat),
{
    proof {
        reveal_strlit("\n");
        reveal_strlit(" ");
    }
    let lines = split_chars(to_chars(s).as_slice(), '\n');
    let ghost ls = split_on(s@, '\n');
    let mut pad: Vec<char> = Vec::new();
    let width: usize = 2 * level;
    let mut k: usize = 0;
    while k < width
        invariant
            width == 2 * level,
            k <= width,
            pad@ == Seq::new(k as nat, |i: int| ' '),
        decreases width - k,
    {
        pad.push(' ');
        assert(pad@ =~= Seq::new((k + 1) as nat, |i: int| ' '));
        k = k + 1;
    }
    assert(pad@ =~= spaces(level as nat));
    let mut parts: Vec<String> = Vec::new();
    let mut i: usize = 0;
    while i < lines.len()
        invariant
            lines@.len() == ls.len(),
            forall|q: int| 0 <= q < lines@.len() ==> #[trigger] lines@[q]@ == ls[q],
            pad@ == spaces(level as nat),
            i <= lines@.len(),
            parts@.len() == i,
            forall|q: int| 0 <= q < i ==> (#[trigger] parts@[q])@ == spaces(level as nat) + ls[q],
        decreases lines.len() - i,
    {
        let mut line: Vec<char> = Vec::new();
        crate::text::append_range(&mut line, pad.as_slice(), 0, pad.len());
        crate::text::append_range(&mut line, lines[i].as_slice(), 0, lines[i].len());
        assert(pad@.subrange(0, pad@.len() as int) =~= pad@);
        assert(lines@[i as int]@.subrange(0, lines@[i as int]@.len() as int) =~= lines@[i as int]@);
        parts.push(from_chars(line.as_slice()));
        i = i + 1;
    }
    assert(strs_model(parts@) =~= ls.map_values(|l: Seq<char>| spaces(level as nat) + l));
    join_strings(&parts, "\n")
}

} // verus!
