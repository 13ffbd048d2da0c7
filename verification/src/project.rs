//! Choosing by pattern: which project a repository deploys to, and which container packages are
//! infraweave's. Patterns are regular expressions, matched by the `regex` crate.
use vstd::prelude::*;
use crate::text::{from_chars, occurs_at, replace_all, replace_str, to_chars, trim, trim_chars};

verus! {

/// Whether `regex::Regex::new` accepts the pattern.
pub uninterp spec fn regex_compiles(pattern: Seq<char>) -> bool;

/// Whether the regular expression matches somewhere in the text (`regex::Regex::is_match`).
pub uninterp spec fn regex_matches(pattern: Seq<char>, text: Seq<char>) -> bool;

/// Calls `regex::Regex::new` on the pattern and, where it compiles, `is_match` on the text:
/// `None` where the pattern is refused, else whether it matches. Both results are named.
#[verifier::external_body]
pub(crate) fn regex_is_match(pattern: &str, text: &str) -> (r: Option<bool>)
    ensures
        r is Some <==> regex_compiles(pattern@),
        r matches Some(b) ==> b == regex_matches(pattern@, text@),
{
    match regex::Regex::new(pattern) {
        Ok(re) => Some(re.is_match(text)),
        Err(_) => None,
    }
}

/// The regular expression of a project map key: `*` matches anything, `/` is literal.
pub open spec fn project_pattern(key: Seq<char>) -> Seq<char> {
    replace_all(replace_all(key, "*"@, ".*"@), "/"@, "\\/"@)
}

/// `replace_all` with a single character works piece by piece over a concatenation.
proof fn lemma_replace_char_concat(a: Seq<char>, b: Seq<char>, x: char, to: Seq<char>)
    ensures
        replace_all(a + b, seq![x], to) == replace_all(a, seq![x], to) + replace_all(b, seq![x], to),
    decreases a.len(),
{
    let s = a + b;
    if a.len() == 0 {
        assert(s =~= b);
        assert(replace_all(a, seq![x], to) == a);
        assert(replace_all(a, seq![x], to) + replace_all(b, seq![x], to) =~= replace_all(b, seq![x], to));
    } else {
        assert(s.subrange(0, 1) =~= seq![s[0]]);
        assert(a.subrange(0, 1) =~= seq![a[0]]);
        assert(s[0] == a[0]);
        assert(s.subrange(1, s.len() as int) =~= a.subrange(1, a.len() as int) + b);
        assert(s.drop_first() =~= a.drop_first() + b);
        assert(a.drop_first() =~= a.subrange(1, a.len() as int));
        lemma_replace_char_concat(a.drop_first(), b, x, to);
        if a[0] == x {
            assert(occurs_at(s, seq![x], 0));
            assert(occurs_at(a, seq![x], 0));
            assert(replace_all(s, seq![x], to) == to + replace_all(s.subrange(1, s.len() as int), seq![x], to));
            assert(replace_all(a, seq![x], to) == to + replace_all(a.subrange(1, a.len() as int), seq![x], to));
            assert(replace_all(s, seq![x], to) =~= replace_all(a, seq![x], to) + replace_all(b, seq![x], to));
        } else {
            assert(s.subrange(0, 1)[0] != seq![x][0]);
            assert(!occurs_at(s, seq![x], 0));
            assert(a.subrange(0, 1)[0] != seq![x][0]);
            assert(!occurs_at(a, seq![x], 0));
            assert(replace_all(s, seq![x], to) =~= replace_all(a, seq![x], to) + replace_all(b, seq![x], to));
        }
    }
}

/// `replace_all` with a single character on a single character.
proof fn lemma_replace_char_single(c: char, x: char, to: Seq<char>)
    ensures
        replace_all(seq![c], seq![x], to) == (if c == x { to } else { seq![c] }),
{
    let s = seq![c];
    assert(s.subrange(0, 1) =~= s);
    assert(replace_all(Seq::<char>::empty(), seq![x], to) == Seq::<char>::empty());
    if c == x {
        assert(occurs_at(s, seq![x], 0));
        assert(s.subrange(1, 1) =~= Seq::<char>::empty());
        assert(to + Seq::<char>::empty() =~= to);
    } else {
        assert(s.subrange(0, 1)[0] != seq![x][0]);
        assert(!occurs_at(s, seq![x], 0));
        assert(s.drop_first() =~= Seq::<char>::empty());
        assert(seq![c] + Seq::<char>::empty() =~= seq![c]);
    }
}

/// The regular expression of a project map key is made character by character: each `*`
/// becomes `.*` (any run of characters), each `/` becomes `\/` (a literal slash), and every
/// other character stays as it is.
pub proof fn law_project_pattern_by_character(a: Seq<char>, b: Seq<char>, c: char)
    ensures
        project_pattern(a + b) == project_pattern(a) + project_pattern(b),
        project_pattern(Seq::empty()) == Seq::<char>::empty(),
        project_pattern(seq!['*']) == seq!['.', '*'],
        project_pattern(seq!['/']) == seq!['\\', '/'],
        c != '*' && c != '/' ==> project_pattern(seq![c]) == seq![c],
{
    reveal_strlit("*");
    reveal_strlit(".*");
    reveal_strlit("/");
    reveal_strlit("\\/");
    assert("*"@ =~= seq!['*']);
    assert(".*"@ =~= seq!['.', '*']);
    assert("/"@ =~= seq!['/']);
    assert("\\/"@ =~= seq!['\\', '/']);
    let star = seq!['.', '*'];
    let slash = seq!['\\', '/'];
    // concatenation
    lemma_replace_char_concat(a, b, '*', star);
    lemma_replace_char_concat(replace_all(a, seq!['*'], star), replace_all(b, seq!['*'], star), '/', slash);
    // the empty key
    assert(replace_all(Seq::<char>::empty(), seq!['*'], star) == Seq::<char>::empty());
    assert(replace_all(Seq::<char>::empty(), seq!['/'], slash) == Seq::<char>::empty());
    // `*`
    lemma_replace_char_single('*', '*', star);
    lemma_replace_char_single('.', '/', slash);
    lemma_replace_char_single('*', '/', slash);
    assert(star =~= seq!['.'] + seq!['*']);
    lemma_replace_char_concat(seq!['.'], seq!['*'], '/', slash);
    assert(seq!['.'] + seq!['*'] =~= star);
    // `/`
    lemma_replace_char_single('/', '*', star);
    lemma_replace_char_single('/', '/', slash);
    // any other character
    lemma_replace_char_single(c, '*', star);
    lemma_replace_char_single(c, '/', slash);
}

/// What looking up a repository in the project map gives.
#[derive(Debug)]
pub enum ProjectLookup {
    /// The project id of the first entry whose pattern matches.
    Found(String),
    /// No entry matches.
    NotFound,
    /// The pattern of this key is not a valid regular expression.
    InvalidPattern(String),
    /// The first matching entry (this key) gives no project id.
    MissingProjectId(String),
}

pub enum ProjectLookupView {
    Found(Seq<char>),
    NotFound,
    InvalidPattern(Seq<char>),
    MissingProjectId(Seq<char>),
}

impl View for ProjectLookup {
    type V = ProjectLookupView;

    open spec fn view(&self) -> ProjectLookupView {
        match self {
            ProjectLookup::Found(s) => ProjectLookupView::Found(s@),
            ProjectLookup::NotFound => ProjectLookupView::NotFound,
            ProjectLookup::InvalidPattern(s) => ProjectLookupView::InvalidPattern(s@),
            ProjectLookup::MissingProjectId(s) => ProjectLookupView::MissingProjectId(s@),
        }
    }
}

pub open spec fn map_view(m: Seq<(String, Option<String>)>) -> Seq<(Seq<char>, Option<Seq<char>>)> {
    m.map_values(|e: (String, Option<String>)| (e.0@, match e.1 { Some(s) => Some(s@), None => None }))
}

/// The entries from position `i` on, tried in order: the first whose pattern matches the path
/// decides; a pattern that does not compile stops the search.
pub open spec fn lookup_from(m: Seq<(Seq<char>, Option<Seq<char>>)>, path: Seq<char>, i: int) -> ProjectLookupView
    decreases m.len() - i,
{
    if i < 0 || i >= m.len() {
        ProjectLookupView::NotFound
    } else {
        let p = project_pattern(m[i].0);
        if !regex_compiles(p) {
            ProjectLookupView::InvalidPattern(m[i].0)
        } else if regex_matches(p, path) {
            match m[i].1 {
                Some(id) => ProjectLookupView::Found(id),
                None => ProjectLookupView::MissingProjectId(m[i].0),
            }
        } else {
            lookup_from(m, path, i + 1)
        }
    }
}

/// Entries that compile and do not match are passed over.
proof fn lemma_lookup_skips(m: Seq<(Seq<char>, Option<Seq<char>>)>, path: Seq<char>, i: int)
    requires
        0 <= i <= m.len(),
        forall|j: int| 0 <= j < i ==> regex_compiles(project_pattern(#[trigger] m[j].0))
            && !regex_matches(project_pattern(m[j].0), path),
    ensures
        lookup_from(m, path, 0) == lookup_from(m, path, i),
    decreases i,
{
    if i > 0 {
        lemma_lookup_skips(m, path, i - 1);
        assert(regex_compiles(project_pattern(m[i - 1].0)));
    }
}

/// Looking up a repository path tries the entries of the project map in order, each by its
/// key's pattern: the first entry whose pattern matches gives its project id (or, without one,
/// a missing project id for its key); a pattern that does not compile before any match is an
/// invalid pattern; with every pattern compiling and none matching, nothing is found.
pub proof fn law_first_matching_entry_decides(m: Seq<(Seq<char>, Option<Seq<char>>)>, path: Seq<char>, i: int)
    requires
        0 <= i <= m.len(),
        forall|j: int| 0 <= j < i ==> regex_compiles(project_pattern(#[trigger] m[j].0))
            && !regex_matches(project_pattern(m[j].0), path),
    ensures
        i == m.len() ==> lookup_from(m, path, 0) == ProjectLookupView::NotFound,
        i < m.len() && !regex_compiles(project_pattern(m[i].0))
            ==> lookup_from(m, path, 0) == ProjectLookupView::InvalidPattern(m[i].0),
        i < m.len() && regex_compiles(project_pattern(m[i].0)) && regex_matches(project_pattern(m[i].0), path)
            ==> lookup_from(m, path, 0) == (match m[i].1 {
                Some(id) => ProjectLookupView::Found(id),
                None => ProjectLookupView::MissingProjectId(m[i].0),
            }),
{
    lemma_lookup_skips(m, path, i);
}

/// The project that a repository path deploys to, by the first entry of the project map (key
/// pattern, project id) whose pattern matches the path.
pub fn get_project_id_for_repository_path(project_map: &Vec<(String, Option<String>)>, full_repository_path: &str) -> (r: ProjectLookup)
    ensures
        r@ == lookup_from(map_view(project_map@), full_repository_path@, 0),
{
    let ghost mv = map_view(project_map@);
    proof {
        reveal_strlit("*");
        reveal_strlit("/");
    }
    let mut i: usize = 0;
    while i < project_map.len()
        invariant
            i <= project_map@.len(),
            mv == map_view(project_map@),
            mv.len() == project_map@.len(),
            "*"@.len() == 1,
            "/"@.len() == 1,
            lookup_from(mv, full_repository_path@, 0) == lookup_from(mv, full_repository_path@, i as int),
        decreases project_map.len() - i,
    {
        let key = &project_map[i].0;
        let p1 = replace_str(key.as_str(), "*", ".*");
        let pattern = replace_str(p1.as_str(), "/", "\\/");
        assert(mv[i as int].0 == key@);
        match regex_is_match(pattern.as_str(), full_repository_path) {
            None => {
                return ProjectLookup::InvalidPattern(key.clone());
            },
            Some(true) => {
                return match &project_map[i].1 {
                    Some(id) => ProjectLookup::Found(id.clone()),
                    None => ProjectLookup::MissingProjectId(key.clone()),
                };
            },
            Some(false) => {},
        }
        i = i + 1;
    }
    ProjectLookup::NotFound
}

/// Whether a container package is infraweave's: its name matches the filter pattern (trimmed).
/// The error text for a repository path that no entry of the project map matches.
pub open spec fn not_found_text(path: Seq<char>) -> Seq<char> {
    "No project ID has been configured for repository path: "@ + path
}

/// The error text for a repository path that no entry of the project map matches (see
/// `not_found_text`).
pub fn project_not_found_message(full_repository_path: &str) -> (r: String)
    ensures
        r@ == not_found_text(full_repository_path@),
{
    let mut out: Vec<char> = Vec::new();
    crate::text::append_str(&mut out, "No project ID has been configured for repository path: ");
    crate::text::append_str(&mut out, full_repository_path);
    from_chars(out.as_slice())
}

/// Without a pattern, or with one that does not compile, no package is.
pub open spec fn is_package_of(pattern: Option<Seq<char>>, name: Seq<char>) -> bool {
    match pattern {
        Some(p) => regex_compiles(trim(p)) && regex_matches(trim(p), name),
        None => false,
    }
}

pub fn is_infraweave_package(pattern_setting: Option<&str>, package_name: &str) -> (r: bool)
    ensures
        r == is_package_of(
            match pattern_setting {
                Some(p) => Some(p@),
                None => None,
            },
            package_name@,
        ),
{
    match pattern_setting {
        None => false,
        Some(p) => {
            let t = from_chars(trim_chars(to_chars(p).as_slice()).as_slice());
            match regex_is_match(t.as_str(), package_name) {
                Some(b) => b,
                None => false,
            }
        },
    }
}

} // verus!
