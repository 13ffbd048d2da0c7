//! References of the form `{{ Kind::claim::field }}` inside claim values: the grammar, a
//! scanner that finds them as a regular-expression search does (leftmost first, without
//! overlap), and the list of dependencies that a claim's variables name.
use vstd::prelude::*;
use crate::project::{regex_compiles, regex_is_match, regex_matches};
use crate::text::{from_chars, is_space, is_space_char, to_chars};

verus! {

/// The pattern of one word character, as the `regex` crate reads `\w` (Unicode word
/// characters).
pub open spec fn word_char_pattern() -> Seq<char> {
    "^\\w$"@
}

/// A word character: the character alone matches `^\w$`.
pub open spec fn is_word(c: char) -> bool {
    regex_compiles(word_char_pattern()) && regex_matches(word_char_pattern(), seq![c])
}

/// The end of the run of word characters that starts at `i`.
pub open spec fn word_end(s: Seq<char>, i: int) -> int
    decreases s.len() - i,
{
    if 0 <= i < s.len() && is_word(s[i]) {
        word_end(s, i + 1)
    } else {
        i
    }
}

/// The end of the run of white space that starts at `i`.
pub open spec fn space_end(s: Seq<char>, i: int) -> int
    decreases s.len() - i,
{
    if 0 <= i < s.len() && is_space(s[i]) {
        space_end(s, i + 1)
    } else {
        i
    }
}

pub open spec fn char_at(s: Seq<char>, i: int, c: char) -> bool {
    0 <= i < s.len() && s[i] == c
}

/// A reference found in a string: where it starts and ends, and its three names.
pub struct RefSpan {
    pub start: int,
    pub end: int,
    pub kind: Seq<char>,
    pub claim: Seq<char>,
    pub field: Seq<char>,
}

/// The reference that starts at position `i` of `s`, if one does:
/// `{{`, white space, a word, `::`, a word, `::`, a word, white space, `}}`.
pub open spec fn ref_at(s: Seq<char>, i: int) -> Option<RefSpan> {
    let a = space_end(s, i + 2);
    let b = word_end(s, a);
    let c = b + 2;
    let d = word_end(s, c);
    let e = d + 2;
    let f = word_end(s, e);
    let g = space_end(s, f);
    if 0 <= i && char_at(s, i, '{') && char_at(s, i + 1, '{') && b > a && char_at(s, b, ':')
        && char_at(s, b + 1, ':') && d > c && char_at(s, d, ':') && char_at(s, d + 1, ':') && f
        > e && char_at(s, g, '}') && char_at(s, g + 1, '}') {
        Some(
            RefSpan {
                start: i,
                end: g + 2,
                kind: s.subrange(a, b),
                claim: s.subrange(c, d),
                field: s.subrange(e, f),
            },
        )
    } else {
        None
    }
}

/// The references in `s` from position `i` on, leftmost first and without overlap.
pub open spec fn refs_from(s: Seq<char>, i: int) -> Seq<RefSpan>
    decreases s.len() + 1 - i,
{
    if i < 0 || i >= s.len() {
        Seq::empty()
    } else {
        match ref_at(s, i) {
            Some(m) => if i < m.end <= s.len() {
                seq![m] + refs_from(s, m.end)
            } else {
                refs_from(s, i + 1)
            },
            None => refs_from(s, i + 1),
        }
    }
}

/// All references in `s`, in order.
pub open spec fn refs_in(s: Seq<char>) -> Seq<RefSpan> {
    refs_from(s, 0)
}

/// A reference found in a string.
#[derive(Debug)]
pub struct RefMatch {
    pub start: usize,
    pub end: usize,
    pub kind: String,
    pub claim: String,
    pub field: String,
}

pub open spec fn match_view(m: RefMatch) -> RefSpan {
    RefSpan { start: m.start as int, end: m.end as int, kind: m.kind@, claim: m.claim@, field: m.field@ }
}

proof fn lemma_word_end_bounds(s: Seq<char>, i: int)
    ensures
        i <= word_end(s, i),
        0 <= i <= s.len() ==> word_end(s, i) <= s.len(),
        forall|j: int| i <= j < word_end(s, i) ==> is_word(s[j]),
    decreases s.len() - i,
{
    if 0 <= i < s.len() && is_word(s[i]) {
        lemma_word_end_bounds(s, i + 1);
    }
}

proof fn lemma_space_end_bounds(s: Seq<char>, i: int)
    ensures
        i <= space_end(s, i),
        0 <= i <= s.len() ==> space_end(s, i) <= s.len(),
    decreases s.len() - i,
{
    if 0 <= i < s.len() && is_space(s[i]) {
        lemma_space_end_bounds(s, i + 1);
    }
}

fn is_word_char(c: char) -> (b: bool)
    ensures
        b == is_word(c),
{
    let mut v: Vec<char> = Vec::new();
    v.push(c);
    let text = from_chars(v.as_slice());
    assert(text@ =~= seq![c]);
    match regex_is_match("^\\w$", text.as_str()) {
        Some(m) => m,
        None => false,
    }
}

fn word_end_exec(s: &[char], i: usize) -> (r: usize)
    requires
        i <= s@.len(),
    ensures
        r == word_end(s@, i as int),
        i <= r <= s@.len(),
{
    let mut j = i;
    while j < s.len() && is_word_char(s[j])
        invariant
            i <= j <= s@.len(),
            word_end(s@, i as int) == word_end(s@, j as int),
        decreases s.len() - j,
    {
        j = j + 1;
    }
    j
}

fn space_end_exec(s: &[char], i: usize) -> (r: usize)
    requires
        i <= s@.len(),
    ensures
        r == space_end(s@, i as int),
        i <= r <= s@.len(),
{
    let mut j = i;
    while j < s.len() && is_space_char(s[j])
        invariant
            i <= j <= s@.len(),
            space_end(s@, i as int) == space_end(s@, j as int),
        decreases s.len() - j,
    {
        j = j + 1;
    }
    j
}

fn char_at_exec(s: &[char], i: usize, c: char) -> (b: bool)
    ensures
        b == char_at(s@, i as int, c),
{
    i < s.len() && s[i] == c
}

fn slice_string(s: &[char], lo: usize, hi: usize) -> (r: String)
    requires
        lo <= hi <= s@.len(),
    ensures
        r@ == s@.subrange(lo as int, hi as int),
{
    let mut out: Vec<char> = Vec::new();
    let mut k = lo;
    while k < hi
        invariant
            lo <= k <= hi <= s@.len(),
            out@ == s@.subrange(lo as int, k as int),
        decreases hi - k,
    {
        out.push(s[k]);
        assert(s@.subrange(lo as int, k + 1) =~= out@);
        k = k + 1;
    }
    from_chars(&out)
}

/// The reference that starts at position `i` of `s`, if one does.
pub fn ref_at_exec(s: &[char], i: usize) -> (r: Option<RefMatch>)
    requires
        i < s@.len(),
    ensures
        match r {
            Some(m) => ref_at(s@, i as int) == Some(match_view(m)) && i < m.end <= s@.len(),
            None => ref_at(s@, i as int) is None,
        },
{
    let n = s.len();
    if !(char_at_exec(s, i, '{') && i + 1 < n && char_at_exec(s, i + 1, '{')) {
        return None;
    }
    let a = space_end_exec(s, i + 2);
    let b = word_end_exec(s, a);
    if !(b > a && b < n && n - b > 1 && char_at_exec(s, b, ':') && char_at_exec(s, b + 1, ':')) {
        return None;
    }
    let c = b + 2;
    let d = word_end_exec(s, c);
    if !(d > c && d < n && n - d > 1 && char_at_exec(s, d, ':') && char_at_exec(s, d + 1, ':')) {
        return None;
    }
    let e = d + 2;
    let f = word_end_exec(s, e);
    if !(f > e) {
        return None;
    }
    let g = space_end_exec(s, f);
    if !(g < n && n - g > 1 && char_at_exec(s, g, '}') && char_at_exec(s, g + 1, '}')) {
        return None;
    }
    Some(
        RefMatch {
            start: i,
            end: g + 2,
            kind: slice_string(s, a, b),
            claim: slice_string(s, c, d),
            field: slice_string(s, e, f),
        },
    )
}

pub open spec fn matches_view(ms: Seq<RefMatch>) -> Seq<RefSpan> {
    ms.map_values(|m: RefMatch| match_view(m))
}

/// All references in the string, leftmost first and without overlap.
pub fn find_refs(s: &str) -> (r: Vec<RefMatch>)
    ensures
        matches_view(r@) == refs_in(s@),
{
    let cs = to_chars(s);
    let mut r: Vec<RefMatch> = Vec::new();
    let mut i: usize = 0;
    while i < cs.len()
        invariant
            cs@ == s@,
            i <= cs@.len(),
            matches_view(r@) + refs_from(cs@, i as int) == refs_in(cs@),
        decreases cs.len() - i,
    {
        let ghost before = matches_view(r@);
        match ref_at_exec(&cs, i) {
            Some(m) => {
                let next = m.end;
                let ghost mv = match_view(m);
                r.push(m);
                assert(matches_view(r@) =~= before.push(mv));
                assert(refs_from(cs@, i as int) == seq![mv] + refs_from(cs@, next as int));
                assert(before + refs_from(cs@, i as int) =~= matches_view(r@) + refs_from(cs@, next as int));
                i = next;
            },
            None => {
                i = i + 1;
            },
        }
    }
    assert(refs_from(cs@, i as int) =~= Seq::<RefSpan>::empty());
    assert(matches_view(r@) + Seq::<RefSpan>::empty() =~= matches_view(r@));
    r
}

/// The references from position `i` on start at or after `i`, each ends after it starts and
/// within the string, and each starts at or after the end of the one before it.
pub proof fn lemma_refs_from_ordered(s: Seq<char>, i: int)
    ensures
        forall|k: int| 0 <= k < refs_from(s, i).len() ==> i <= (#[trigger] refs_from(s, i)[k]).start < refs_from(s, i)[k].end <= s.len(),
        forall|k: int| 0 < k < refs_from(s, i).len() ==> refs_from(s, i)[k - 1].end <= (#[trigger] refs_from(s, i)[k]).start,
    decreases s.len() + 1 - i,
{
    if i < 0 || i >= s.len() {
    } else {
        match ref_at(s, i) {
            Some(m) => if i < m.end <= s.len() {
                lemma_refs_from_ordered(s, m.end);
                let r = refs_from(s, i);
                let t = refs_from(s, m.end);
                assert(r == seq![m] + t);
                assert(m.start == i);
                assert forall|k: int| 0 <= k < r.len() implies i <= (#[trigger] r[k]).start < r[k].end <= s.len() by {
                    if k > 0 {
                        assert(r[k] == t[k - 1]);
                    }
                }
                assert forall|k: int| 0 < k < r.len() implies r[k - 1].end <= (#[trigger] r[k]).start by {
                    assert(r[k] == t[k - 1]);
                    if k > 1 {
                        assert(r[k - 1] == t[k - 2]);
                    }
                }
            } else {
                lemma_refs_from_ordered(s, i + 1);
                assert(refs_from(s, i) == refs_from(s, i + 1));
            },
            None => {
                lemma_refs_from_ordered(s, i + 1);
                assert(refs_from(s, i) == refs_from(s, i + 1));
            },
        }
    }
}

} // verus!
