//! Which changed files of a repository are manifests to act on, and how the changes of a
//! commit range are sorted into files that are active now and files that were removed.
use vstd::prelude::*;
use crate::text::{
    ends_with, ends_with_exec, from_chars, lines, lines_of, split_chars, split_on, starts_with,
    starts_with_exec, to_chars, trim, trim_chars,
};

verus! {

/// A manifest file and its content at one point in history.
#[derive(Clone, Debug)]
pub struct FileChange {
    pub path: String,
    pub content: String,
}

/// The files of a change set: those that exist after it, and those that existed before it.
#[derive(Clone, Debug)]
pub struct ProcessedFiles {
    pub active_files: Vec<FileChange>,
    pub deleted_files: Vec<FileChange>,
}

/// The path names a YAML file.
pub open spec fn is_yaml_path(path: Seq<char>) -> bool {
    ends_with(path, ".yaml"@) || ends_with(path, ".yml"@)
}

pub fn is_yaml_file(path: &str) -> (b: bool)
    ensures
        b == is_yaml_path(path@),
{
    let p = to_chars(path);
    let yaml = to_chars(".yaml");
    let yml = to_chars(".yml");
    ends_with_exec(&p, &yaml) || ends_with_exec(&p, &yml)
}

/// A file is processed when it is YAML and, where a prefix filter is set and is not blank,
/// its path starts with the trimmed prefix.
pub open spec fn file_is_processed(path: Seq<char>, prefix_filter: Option<Seq<char>>) -> bool {
    &&& is_yaml_path(path)
    &&& match prefix_filter {
        None => true,
        Some(prefix) => trim(prefix).len() == 0 || starts_with(path, trim(prefix)),
    }
}

pub fn should_process_file(file_path: &str, prefix_filter: Option<&str>) -> (b: bool)
    ensures
        b == file_is_processed(
            file_path@,
            match prefix_filter {
                None => None,
                Some(p) => Some(p@),
            },
        ),
{
    if !is_yaml_file(file_path) {
        return false;
    }
    match prefix_filter {
        None => true,
        Some(prefix) => {
            let p = trim_chars(&to_chars(prefix));
            if p.len() == 0 {
                true
            } else {
                starts_with_exec(&to_chars(file_path), &p)
            }
        },
    }
}

/// What a change status asks for: the content after the change (added or modified,
/// and for a modification also the content before it), the content before it (deleted),
/// or nothing (any other status, such as a rename).
#[derive(Clone, Copy, Debug, PartialEq, Eq, Structural)]
pub enum FileStatusKind {
    Added,
    Modified,
    Deleted,
    Ignored,
}

pub open spec fn status_kind(status: Seq<char>) -> FileStatusKind {
    if status == "A"@ {
        FileStatusKind::Added
    } else if status == "M"@ {
        FileStatusKind::Modified
    } else if status == "D"@ {
        FileStatusKind::Deleted
    } else {
        FileStatusKind::Ignored
    }
}

pub fn file_status_kind(status: &str) -> (k: FileStatusKind)
    ensures
        k == status_kind(status@),
{
    let s = to_chars(status);
    let a = to_chars("A");
    let m = to_chars("M");
    let d = to_chars("D");
    if s.len() == a.len() && starts_with_exec(&s, &a) {
        assert(s@.subrange(0, a@.len() as int) =~= s@);
        FileStatusKind::Added
    } else if s.len() == m.len() && starts_with_exec(&s, &m) {
        assert(s@.subrange(0, m@.len() as int) =~= s@);
        assert(s@ != "A"@);
        FileStatusKind::Modified
    } else if s.len() == d.len() && starts_with_exec(&s, &d) {
        assert(s@.subrange(0, d@.len() as int) =~= s@);
        assert(s@ != "A"@ && s@ != "M"@);
        FileStatusKind::Deleted
    } else {
        assert(s@ != "A"@ && s@ != "M"@ && s@ != "D"@) by {
            if s@ == "A"@ { assert(s@.subrange(0, a@.len() as int) =~= s@); }
            if s@ == "M"@ { assert(s@.subrange(0, m@.len() as int) =~= s@); }
            if s@ == "D"@ { assert(s@.subrange(0, d@.len() as int) =~= s@); }
        }
        FileStatusKind::Ignored
    }
}

/// Whether a change's content at the later reference is read: for added and modified files.
pub fn reads_content_after(status: &str) -> (r: bool)
    ensures
        r == (status_kind(status@) is Added || status_kind(status@) is Modified),
{
    match file_status_kind(status) {
        FileStatusKind::Added | FileStatusKind::Modified => true,
        _ => false,
    }
}

/// Whether a change's content at the earlier reference is read: for deleted files, and for
/// modified files whose content at the later reference could be read.
pub fn reads_content_before(status: &str, after_read: bool) -> (r: bool)
    ensures
        r == (status_kind(status@) is Deleted || (status_kind(status@) is Modified && after_read)),
{
    match file_status_kind(status) {
        FileStatusKind::Deleted => true,
        FileStatusKind::Modified => after_read,
        _ => false,
    }
}

/// The `(status, path)` pair that one line of `git diff --name-status` output names,
/// kept only when the line has a status and a path, the status is `A`, `M` or `D` (added,
/// modified, deleted), and the path is a YAML file.
pub open spec fn change_of_line(line: Seq<char>) -> Option<(Seq<char>, Seq<char>)> {
    let parts = split_on(line, '\t');
    if parts.len() < 2 || !is_yaml_path(parts[1]) || status_kind(parts[0]) is Ignored {
        None
    } else {
        Some((parts[0], parts[1]))
    }
}

/// The changes that the lines name, in order.
pub open spec fn changes_of_lines(ls: Seq<Seq<char>>) -> Seq<(Seq<char>, Seq<char>)>
    decreases ls.len(),
{
    if ls.len() == 0 {
        Seq::empty()
    } else {
        let prev = changes_of_lines(ls.drop_last());
        match change_of_line(ls.last()) {
            Some(c) => prev.push(c),
            None => prev,
        }
    }
}

/// The YAML files that `git diff --name-status` output lists as added, modified or deleted, as
/// `(status, path)` pairs in order; every status is `A`, `M` or `D`.
pub fn parse_changed_files(diff_output: &str) -> (r: Vec<(String, String)>)
    ensures
        r@.len() == changes_of_lines(lines(diff_output@)).len(),
        forall|k: int| 0 <= k < r@.len() ==> !(status_kind((#[trigger] r@[k]).0@) is Ignored),
        forall|k: int|
            0 <= k < r@.len() ==> (#[trigger] r@[k]).0@ == changes_of_lines(lines(diff_output@))[k].0
                && r@[k].1@ == changes_of_lines(lines(diff_output@))[k].1,
{
    let ls = lines_of(&to_chars(diff_output));
    let ghost all = lines(diff_output@);
    let mut r: Vec<(String, String)> = Vec::new();
    let mut i: usize = 0;
    while i < ls.len()
        invariant
            ls@.len() == all.len(),
            forall|k: int| 0 <= k < ls@.len() ==> #[trigger] ls@[k]@ == all[k],
            i <= ls@.len(),
            r@.len() == changes_of_lines(all.take(i as int)).len(),
            forall|k: int| 0 <= k < r@.len() ==> !(status_kind((#[trigger] r@[k]).0@) is Ignored),
            forall|k: int|
                0 <= k < r@.len() ==> (#[trigger] r@[k]).0@ == changes_of_lines(all.take(i as int))[k].0
                    && r@[k].1@ == changes_of_lines(all.take(i as int))[k].1,
        decreases ls.len() - i,
    {
        let parts = split_chars(&ls[i], '\t');
        let ghost t = all.take(i + 1);
        assert(t.drop_last() =~= all.take(i as int));
        assert(t.last() == ls@[i as int]@);
        if parts.len() >= 2 {
            let path = from_chars(&parts[1]);
            let status = from_chars(&parts[0]);
            let kind = file_status_kind(status.as_str());
            if is_yaml_file(path.as_str()) && !matches!(kind, FileStatusKind::Ignored) {
                r.push((status, path));
            }
        }
        i = i + 1;
    }
    assert(all.take(ls.len() as int) =~= all);
    r
}

/// The comma separated prefixes of a filter setting, each trimmed.
pub open spec fn prefix_list(setting: Seq<char>) -> Seq<Seq<char>> {
    split_on(setting, ',').map_values(|p: Seq<char>| trim(p))
}

pub fn parse_path_prefixes(setting: &str) -> (r: Vec<String>)
    ensures
        r@.len() == prefix_list(setting@).len(),
        forall|k: int| 0 <= k < r@.len() ==> #[trigger] r@[k]@ == prefix_list(setting@)[k],
{
    let parts = split_chars(&to_chars(setting), ',');
    let mut r: Vec<String> = Vec::new();
    let mut i: usize = 0;
    while i < parts.len()
        invariant
            parts@.len() == split_on(setting@, ',').len(),
            forall|k: int| 0 <= k < parts@.len() ==> #[trigger] parts@[k]@ == split_on(setting@, ',')[k],
            i <= parts@.len(),
            r@.len() == i,
            forall|k: int| 0 <= k < i ==> #[trigger] r@[k]@ == prefix_list(setting@)[k],
        decreases parts.len() - i,
    {
        let t = trim_chars(&parts[i]);
        r.push(from_chars(&t));
        i = i + 1;
    }
    r
}

/// The path starts with one of the prefixes.
pub open spec fn matches_some_prefix(path: Seq<char>, prefixes: Seq<Seq<char>>) -> bool {
    exists|k: int| 0 <= k < prefixes.len() && starts_with(path, #[trigger] prefixes[k])
}

pub fn path_has_prefix(path: &str, prefixes: &Vec<String>) -> (b: bool)
    ensures
        b == matches_some_prefix(path@, prefixes@.map_values(|p: String| p@)),
{
    let pc = to_chars(path);
    let ghost ps = prefixes@.map_values(|p: String| p@);
    let mut i: usize = 0;
    while i < prefixes.len()
        invariant
            i <= prefixes@.len(),
            ps == prefixes@.map_values(|p: String| p@),
            pc@ == path@,
            forall|k: int| 0 <= k < prefixes@.len() ==> #[trigger] ps[k] == prefixes@[k]@,
            forall|k: int| 0 <= k < i ==> !starts_with(path@, #[trigger] ps[k]),
        decreases prefixes.len() - i,
    {
        if starts_with_exec(&pc, &to_chars(prefixes[i].as_str())) {
            assert(starts_with(path@, ps[i as int]));
            return true;
        }
        i = i + 1;
    }
    false
}

/// The changes whose paths start with one of the prefixes, in order.
pub open spec fn changes_with_prefix(
    changes: Seq<(Seq<char>, Seq<char>)>,
    prefixes: Seq<Seq<char>>,
) -> Seq<(Seq<char>, Seq<char>)> {
    changes.filter(|c: (Seq<char>, Seq<char>)| matches_some_prefix(c.1, prefixes))
}

pub open spec fn change_views(changes: Seq<(String, String)>) -> Seq<(Seq<char>, Seq<char>)> {
    changes.map_values(|c: (String, String)| (c.0@, c.1@))
}

/// Keeps the changes whose paths start with one of the prefixes.
pub fn filter_changes_by_prefixes(changes: Vec<(String, String)>, prefixes: &Vec<String>) -> (r: Vec<
    (String, String),
>)
    ensures
        change_views(r@) == changes_with_prefix(
            change_views(changes@),
            prefixes@.map_values(|p: String| p@),
        ),
{
    let ghost ps = prefixes@.map_values(|p: String| p@);
    let ghost pred = |c: (Seq<char>, Seq<char>)| matches_some_prefix(c.1, ps);
    let ghost cv = change_views(changes@);
    let mut r: Vec<(String, String)> = Vec::new();
    let mut i: usize = 0;
    while i < changes.len()
        invariant
            i <= changes@.len(),
            cv == change_views(changes@),
            pred == (|c: (Seq<char>, Seq<char>)| matches_some_prefix(c.1, ps)),
            ps == prefixes@.map_values(|p: String| p@),
            change_views(r@) == cv.take(i as int).filter(pred),
        decreases changes.len() - i,
    {
        let (status, path) = (&changes[i].0, &changes[i].1);
        let keep = path_has_prefix(path.as_str(), prefixes);
        proof {
            reveal(Seq::filter);
            assert(cv.take(i + 1).drop_last() =~= cv.take(i as int));
            assert(cv.take(i + 1).last() == (status@, path@));
        }
        if keep {
            let ghost before = change_views(r@);
            r.push((status.clone(), path.clone()));
            assert(change_views(r@) =~= before.push((status@, path@)));
        } else {
            assert(change_views(r@) =~= change_views(r@));
        }
        i = i + 1;
    }
    assert(cv.take(changes.len() as int) =~= cv);
    r
}


pub open spec fn opt_view(o: Option<String>) -> Option<Seq<char>> {
    match o {
        Some(s) => Some(s@),
        None => None,
    }
}

pub open spec fn file_view(f: FileChange) -> (Seq<char>, Seq<char>) {
    (f.path@, f.content@)
}

pub open spec fn files_view(fs: Seq<FileChange>) -> Seq<(Seq<char>, Seq<char>)> {
    fs.map_values(|f: FileChange| file_view(f))
}

/// The active files that a diff gives: each added or modified path whose later content could be read.
pub open spec fn diff_active(
    changes: Seq<(Seq<char>, Seq<char>)>,
    after: Seq<Option<Seq<char>>>,
) -> Seq<(Seq<char>, Seq<char>)>
    decreases changes.len(),
{
    if changes.len() == 0 {
        Seq::empty()
    } else {
        let n = changes.len() - 1;
        let prev = diff_active(changes.take(n), after.take(n));
        let k = status_kind(changes[n].0);
        if (k == FileStatusKind::Added || k == FileStatusKind::Modified) && after[n] is Some {
            prev.push((changes[n].1, after[n]->0))
        } else {
            prev
        }
    }
}

/// The deleted files that a diff gives: each deleted path whose earlier content could be read,
/// and each modified path whose later and earlier contents could both be read.
pub open spec fn diff_deleted(
    changes: Seq<(Seq<char>, Seq<char>)>,
    after: Seq<Option<Seq<char>>>,
    before: Seq<Option<Seq<char>>>,
) -> Seq<(Seq<char>, Seq<char>)>
    decreases changes.len(),
{
    if changes.len() == 0 {
        Seq::empty()
    } else {
        let n = changes.len() - 1;
        let prev = diff_deleted(changes.take(n), after.take(n), before.take(n));
        let k = status_kind(changes[n].0);
        if before[n] is Some && ((k == FileStatusKind::Modified && after[n] is Some) || k
            == FileStatusKind::Deleted) {
            prev.push((changes[n].1, before[n]->0))
        } else {
            prev
        }
    }
}

fn copy_string(s: &String) -> (r: String)
    ensures
        r@ == s@,
{
    s.clone()
}

/// Sorts the changes of a diff into active and deleted files. For the change at position `k`,
/// `after[k]` is its content at the later reference and `before[k]` at the earlier one,
/// `None` where it could not be read.
pub fn build_processed_files(
    changes: &Vec<(String, String)>,
    after: &Vec<Option<String>>,
    before: &Vec<Option<String>>,
) -> (r: ProcessedFiles)
    requires
        changes@.len() == after@.len(),
        changes@.len() == before@.len(),
    ensures
        files_view(r.active_files@) == diff_active(
            change_views(changes@),
            after@.map_values(|o: Option<String>| opt_view(o)),
        ),
        files_view(r.deleted_files@) == diff_deleted(
            change_views(changes@),
            after@.map_values(|o: Option<String>| opt_view(o)),
            before@.map_values(|o: Option<String>| opt_view(o)),
        ),
{
    let ghost cv = change_views(changes@);
    let ghost av = after@.map_values(|o: Option<String>| opt_view(o));
    let ghost bv = before@.map_values(|o: Option<String>| opt_view(o));
    let mut active: Vec<FileChange> = Vec::new();
    let mut deleted: Vec<FileChange> = Vec::new();
    let mut i: usize = 0;
    while i < changes.len()
        invariant
            i <= changes@.len(),
            changes@.len() == after@.len(),
            changes@.len() == before@.len(),
            cv == change_views(changes@),
            av == after@.map_values(|o: Option<String>| opt_view(o)),
            bv == before@.map_values(|o: Option<String>| opt_view(o)),
            files_view(active@) == diff_active(cv.take(i as int), av.take(i as int)),
            files_view(deleted@) == diff_deleted(cv.take(i as int), av.take(i as int), bv.take(i as int)),
        decreases changes.len() - i,
    {
        let kind = file_status_kind(changes[i].0.as_str());
        proof {
            assert(cv.take(i + 1).take(i as int) =~= cv.take(i as int));
            assert(av.take(i + 1).take(i as int) =~= av.take(i as int));
            assert(bv.take(i + 1).take(i as int) =~= bv.take(i as int));
            assert(cv.take(i + 1)[i as int] == (changes@[i as int].0@, changes@[i as int].1@));
            assert(av.take(i + 1)[i as int] == opt_view(after@[i as int]));
            assert(bv.take(i + 1)[i as int] == opt_view(before@[i as int]));
        }
        let ghost a0 = files_view(active@);
        let ghost d0 = files_view(deleted@);
        match kind {
            FileStatusKind::Added | FileStatusKind::Modified => {
                match &after[i] {
                    Some(content) => {
                        active.push(
                            FileChange { path: copy_string(&changes[i].1), content: copy_string(content) },
                        );
                        assert(files_view(active@) =~= a0.push((changes@[i as int].1@, content@)));
                        if kind == FileStatusKind::Modified {
                            match &before[i] {
                                Some(b) => {
                                    deleted.push(
                                        FileChange {
                                            path: copy_string(&changes[i].1),
                                            content: copy_string(b),
                                        },
                                    );
                                    assert(files_view(deleted@) =~= d0.push((changes@[i as int].1@, b@)));
                                },
                                None => {},
                            }
                        }
                    },
                    None => {},
                }
            },
            FileStatusKind::Deleted => {
                match &before[i] {
                    Some(b) => {
                        deleted.push(
                            FileChange { path: copy_string(&changes[i].1), content: copy_string(b) },
                        );
                        assert(files_view(deleted@) =~= d0.push((changes@[i as int].1@, b@)));
                    },
                    None => {},
                }
            },
            FileStatusKind::Ignored => {},
        }
        i = i + 1;
    }
    assert(cv.take(changes.len() as int) =~= cv);
    assert(av.take(changes.len() as int) =~= av);
    assert(bv.take(changes.len() as int) =~= bv);
    ProcessedFiles { active_files: active, deleted_files: deleted }
}


/// The files that one commit of a push lists.
#[derive(Clone, Debug)]
pub struct CommitFiles {
    pub added: Vec<String>,
    pub removed: Vec<String>,
    pub modified: Vec<String>,
}

/// Which contents of a pushed file are fetched: both (modified), the later one (added),
/// or the earlier one (removed).
#[derive(Clone, Copy, Debug, PartialEq, Eq, Structural)]
pub enum FetchKind {
    Both,
    AfterOnly,
    BeforeOnly,
}

pub open spec fn in_names(names: Seq<String>, f: Seq<char>) -> bool {
    exists|j: int| 0 <= j < names.len() && (#[trigger] names[j])@ == f
}

pub open spec fn listed_as_added(commits: Seq<CommitFiles>, f: Seq<char>) -> bool {
    exists|i: int| 0 <= i < commits.len() && in_names((#[trigger] commits[i]).added@, f)
}

pub open spec fn listed_as_removed(commits: Seq<CommitFiles>, f: Seq<char>) -> bool {
    exists|i: int| 0 <= i < commits.len() && in_names((#[trigger] commits[i]).removed@, f)
}

pub open spec fn listed_as_modified(commits: Seq<CommitFiles>, f: Seq<char>) -> bool {
    exists|i: int| 0 <= i < commits.len() && in_names((#[trigger] commits[i]).modified@, f)
}

pub open spec fn listed(commits: Seq<CommitFiles>, f: Seq<char>) -> bool {
    listed_as_added(commits, f) || listed_as_removed(commits, f) || listed_as_modified(commits, f)
}

pub open spec fn listed_in(c: CommitFiles, f: Seq<char>) -> bool {
    in_names(c.added@, f) || in_names(c.removed@, f) || in_names(c.modified@, f)
}

/// The file is listed by one of the first `n` commits.
pub open spec fn listed_before(commits: Seq<CommitFiles>, n: int, f: Seq<char>) -> bool {
    exists|c: int| 0 <= c < n && listed_in(#[trigger] commits[c], f)
}

/// A modified file is fetched on both sides; otherwise an added file after, a removed file before.
pub open spec fn fetch_kind_of(commits: Seq<CommitFiles>, f: Seq<char>) -> FetchKind {
    if listed_as_modified(commits, f) {
        FetchKind::Both
    } else if listed_as_added(commits, f) {
        FetchKind::AfterOnly
    } else {
        FetchKind::BeforeOnly
    }
}

fn names_contain(names: &Vec<String>, f: &String) -> (b: bool)
    ensures
        b == in_names(names@, f@),
{
    let mut j: usize = 0;
    while j < names.len()
        invariant
            j <= names@.len(),
            forall|k: int| 0 <= k < j ==> (#[trigger] names@[k])@ != f@,
        decreases names.len() - j,
    {
        if names[j] == *f {
            return true;
        }
        j = j + 1;
    }
    false
}

fn commits_list(commits: &Vec<CommitFiles>, f: &String, which: u8) -> (b: bool)
    ensures
        which == 0 ==> b == listed_as_added(commits@, f@),
        which == 1 ==> b == listed_as_removed(commits@, f@),
        which >= 2 ==> b == listed_as_modified(commits@, f@),
{
    let mut i: usize = 0;
    while i < commits.len()
        invariant
            i <= commits@.len(),
            which == 0 ==> forall|k: int| 0 <= k < i ==> !in_names((#[trigger] commits@[k]).added@, f@),
            which == 1 ==> forall|k: int| 0 <= k < i ==> !in_names((#[trigger] commits@[k]).removed@, f@),
            which >= 2 ==> forall|k: int| 0 <= k < i ==> !in_names((#[trigger] commits@[k]).modified@, f@),
        decreases commits.len() - i,
    {
        let names = if which == 0 {
            &commits[i].added
        } else if which == 1 {
            &commits[i].removed
        } else {
            &commits[i].modified
        };
        if names_contain(names, f) {
            return true;
        }
        i = i + 1;
    }
    false
}

/// The files of a push that are to be read, each once, with what is to be fetched for it:
/// exactly the listed files that pass the prefix filter (see `should_process_file`).
pub fn plan_webhook_fetches(commits: &Vec<CommitFiles>, prefix_filter: Option<&str>) -> (r: Vec<
    (String, FetchKind),
>)
    ensures
        forall|a: int, b: int|
            0 <= a < b < r@.len() ==> (#[trigger] r@[a]).0@ != (#[trigger] r@[b]).0@,
        forall|k: int|
            0 <= k < r@.len() ==> {
                &&& listed(commits@, (#[trigger] r@[k]).0@)
                &&& file_is_processed(
                    r@[k].0@,
                    match prefix_filter {
                        None => None,
                        Some(p) => Some(p@),
                    },
                )
                &&& r@[k].1 == fetch_kind_of(commits@, r@[k].0@)
            },
        forall|f: Seq<char>|
            listed(commits@, f) && file_is_processed(
                f,
                match prefix_filter {
                    None => None,
                    Some(p) => Some(p@),
                },
            ) ==> exists|k: int| 0 <= k < r@.len() && (#[trigger] r@[k]).0@ == f,
{
    let ghost pf = match prefix_filter {
        None => None,
        Some(p) => Some(p@),
    };
    let mut seen: Vec<String> = Vec::new();
    let mut r: Vec<(String, FetchKind)> = Vec::new();
    let mut i: usize = 0;
    while i < commits.len()
        invariant
            i <= commits@.len(),
            pf == match prefix_filter {
                None => None,
                Some(p) => Some(p@),
            },
            forall|a: int, b: int| 0 <= a < b < r@.len() ==> (#[trigger] r@[a]).0@ != (#[trigger] r@[b]).0@,
            forall|k: int|
                0 <= k < r@.len() ==> {
                    &&& listed(commits@, (#[trigger] r@[k]).0@)
                    &&& file_is_processed(r@[k].0@, pf)
                    &&& r@[k].1 == fetch_kind_of(commits@, r@[k].0@)
                    &&& in_names(seen@, r@[k].0@)
                },
            forall|j: int| 0 <= j < seen@.len() ==> listed(commits@, (#[trigger] seen@[j])@),
            forall|j: int|
                0 <= j < seen@.len() && file_is_processed((#[trigger] seen@[j])@, pf) ==> exists|k: int|
                    0 <= k < r@.len() && (#[trigger] r@[k]).0@ == seen@[j]@,
            forall|f: Seq<char>| #[trigger] listed_before(commits@, i as int, f) ==> in_names(seen@, f),
        decreases commits.len() - i,
    {
        let mut w: u8 = 0;
        while w < 3
            invariant
                i < commits@.len(),
                w <= 3,
                pf == match prefix_filter {
                    None => None,
                    Some(p) => Some(p@),
                },
                forall|a: int, b: int|
                    0 <= a < b < r@.len() ==> (#[trigger] r@[a]).0@ != (#[trigger] r@[b]).0@,
                forall|k: int|
                    0 <= k < r@.len() ==> {
                        &&& listed(commits@, (#[trigger] r@[k]).0@)
                        &&& file_is_processed(r@[k].0@, pf)
                        &&& r@[k].1 == fetch_kind_of(commits@, r@[k].0@)
                        &&& in_names(seen@, r@[k].0@)
                    },
                forall|j: int| 0 <= j < seen@.len() ==> listed(commits@, (#[trigger] seen@[j])@),
                forall|j: int|
                    0 <= j < seen@.len() && file_is_processed((#[trigger] seen@[j])@, pf) ==> exists|k: int|
                        0 <= k < r@.len() && (#[trigger] r@[k]).0@ == seen@[j]@,
                forall|f: Seq<char>| #[trigger] listed_before(commits@, i as int, f) ==> in_names(seen@, f),
                forall|f: Seq<char>| w > 0 && #[trigger] in_names(commits@[i as int].added@, f) ==> in_names(seen@, f),
                forall|f: Seq<char>| w > 1 && #[trigger] in_names(commits@[i as int].removed@, f) ==> in_names(seen@, f),
                forall|f: Seq<char>| w > 2 && #[trigger] in_names(commits@[i as int].modified@, f) ==> in_names(seen@, f),
            decreases 3 - w,
        {
            let names = if w == 0 {
                &commits[i].added
            } else if w == 1 {
                &commits[i].removed
            } else {
                &commits[i].modified
            };
            let mut j: usize = 0;
            while j < names.len()
                invariant
                    i < commits@.len(),
                    w < 3,
                    w == 0 ==> names@ == commits@[i as int].added@,
                    w == 1 ==> names@ == commits@[i as int].removed@,
                    w == 2 ==> names@ == commits@[i as int].modified@,
                    j <= names@.len(),
                    pf == match prefix_filter {
                        None => None,
                        Some(p) => Some(p@),
                    },
                    forall|a: int, b: int|
                        0 <= a < b < r@.len() ==> (#[trigger] r@[a]).0@ != (#[trigger] r@[b]).0@,
                    forall|k: int|
                        0 <= k < r@.len() ==> {
                            &&& listed(commits@, (#[trigger] r@[k]).0@)
                            &&& file_is_processed(r@[k].0@, pf)
                            &&& r@[k].1 == fetch_kind_of(commits@, r@[k].0@)
                            &&& in_names(seen@, r@[k].0@)
                        },
                    forall|q: int| 0 <= q < seen@.len() ==> listed(commits@, (#[trigger] seen@[q])@),
                    forall|q: int|
                        0 <= q < seen@.len() && file_is_processed((#[trigger] seen@[q])@, pf)
                            ==> exists|k: int| 0 <= k < r@.len() && (#[trigger] r@[k]).0@ == seen@[q]@,
                    forall|f: Seq<char>| #[trigger] listed_before(commits@, i as int, f) ==> in_names(seen@, f),
                    forall|f: Seq<char>|
                        w > 0 && #[trigger] in_names(commits@[i as int].added@, f) ==> in_names(seen@, f),
                    forall|f: Seq<char>|
                        w > 1 && #[trigger] in_names(commits@[i as int].removed@, f) ==> in_names(seen@, f),
                    forall|q: int| 0 <= q < j ==> in_names(seen@, (#[trigger] names@[q])@),
                decreases names.len() - j,
            {
                let f = &names[j];
                proof {
                    if w == 0 {
                        assert(in_names(commits@[i as int].added@, f@));
                        assert(listed_as_added(commits@, f@));
                    } else if w == 1 {
                        assert(in_names(commits@[i as int].removed@, f@));
                        assert(listed_as_removed(commits@, f@));
                    } else {
                        assert(in_names(commits@[i as int].modified@, f@));
                        assert(listed_as_modified(commits@, f@));
                    }
                }
                if !names_contain(&seen, f) {
                    let ghost seen0 = seen@;
                    let ghost r0 = r@;
                    seen.push(copy_string(f));
                    assert(seen@[seen@.len() - 1]@ == f@);
                    assert forall|g: Seq<char>| in_names(seen0, g) implies in_names(seen@, g) by {
                        let jj = choose|jj: int| 0 <= jj < seen0.len() && (#[trigger] seen0[jj])@ == g;
                        assert(seen@[jj] == seen0[jj]);
                    }
                    if should_process_file(f.as_str(), prefix_filter) {
                        let in_mod = commits_list(commits, f, 2);
                        let in_add = commits_list(commits, f, 0);
                        let kind = if in_mod {
                            FetchKind::Both
                        } else if in_add {
                            FetchKind::AfterOnly
                        } else {
                            FetchKind::BeforeOnly
                        };
                        r.push((copy_string(f), kind));
                        assert(r@[r@.len() - 1].0@ == f@);
                        assert forall|a: int, b: int|
                            0 <= a < b < r@.len() implies (#[trigger] r@[a]).0@ != (#[trigger] r@[b]).0@ by {
                            if b == r@.len() - 1 {
                                assert(r@[a] == r0[a]);
                                assert(in_names(seen0, r0[a].0@));
                            } else {
                                assert(r@[a] == r0[a] && r@[b] == r0[b]);
                            }
                        }
                        assert forall|q: int|
                            0 <= q < seen@.len() && file_is_processed((#[trigger] seen@[q])@, pf) implies exists|k: int|
                                0 <= k < r@.len() && (#[trigger] r@[k]).0@ == seen@[q]@ by {
                            if q == seen@.len() - 1 {
                                assert(r@[r@.len() - 1].0@ == seen@[q]@);
                            } else {
                                assert(seen@[q] == seen0[q]);
                                let k = choose|k: int| 0 <= k < r0.len() && (#[trigger] r0[k]).0@ == seen0[q]@;
                                assert(r@[k] == r0[k]);
                            }
                        }
                    } else {
                        assert forall|q: int|
                            0 <= q < seen@.len() && file_is_processed((#[trigger] seen@[q])@, pf) implies exists|k: int|
                                0 <= k < r@.len() && (#[trigger] r@[k]).0@ == seen@[q]@ by {
                            if q == seen@.len() - 1 {
                            } else {
                                assert(seen@[q] == seen0[q]);
                            }
                        }
                    }
                    assert forall|q: int| 0 <= q <= j implies in_names(seen@, (#[trigger] names@[q])@) by {
                        if q == j {
                        }
                    }
                }
                j = j + 1;
            }
            proof {
                assert forall|f: Seq<char>| in_names(names@, f) implies in_names(seen@, f) by {
                    let q = choose|q: int| 0 <= q < names@.len() && (#[trigger] names@[q])@ == f;
                }
            }
            w = w + 1;
        }
        proof {
            assert forall|f: Seq<char>| #[trigger] listed_before(commits@, i + 1, f) implies in_names(seen@, f) by {
                let c = choose|c: int| 0 <= c < i + 1 && listed_in(#[trigger] commits@[c], f);
                if c < i {
                    assert(listed_before(commits@, i as int, f));
                }
            }
        }
        i = i + 1;
    }
    proof {
        assert forall|f: Seq<char>|
            listed(commits@, f) && file_is_processed(f, pf) implies exists|k: int|
                0 <= k < r@.len() && (#[trigger] r@[k]).0@ == f by {
            let c = if listed_as_added(commits@, f) {
                choose|c: int| 0 <= c < commits@.len() && in_names((#[trigger] commits@[c]).added@, f)
            } else if listed_as_removed(commits@, f) {
                choose|c: int| 0 <= c < commits@.len() && in_names((#[trigger] commits@[c]).removed@, f)
            } else {
                choose|c: int| 0 <= c < commits@.len() && in_names((#[trigger] commits@[c]).modified@, f)
            };
            assert(listed_in(commits@[c], f));
            assert(listed_before(commits@, commits@.len() as int, f));
            assert(in_names(seen@, f));
            let q = choose|q: int| 0 <= q < seen@.len() && (#[trigger] seen@[q])@ == f;
        }
    }
    r
}


pub open spec fn content_or_empty(o: Option<Seq<char>>) -> Seq<char> {
    match o {
        Some(c) => c,
        None => Seq::empty(),
    }
}

/// The active files of a push: modified files with their later content (empty where the file
/// did not exist), added files whose later content exists.
pub open spec fn push_active(
    plan: Seq<(Seq<char>, FetchKind)>,
    after: Seq<Option<Seq<char>>>,
) -> Seq<(Seq<char>, Seq<char>)>
    decreases plan.len(),
{
    if plan.len() == 0 {
        Seq::empty()
    } else {
        let n = plan.len() - 1;
        let prev = push_active(plan.take(n), after.take(n));
        match plan[n].1 {
            FetchKind::Both => prev.push((plan[n].0, content_or_empty(after[n]))),
            FetchKind::AfterOnly => if after[n] is Some {
                prev.push((plan[n].0, after[n]->0))
            } else {
                prev
            },
            FetchKind::BeforeOnly => prev,
        }
    }
}

/// The deleted files of a push: modified files with their earlier content (empty where the file
/// did not exist), removed files whose earlier content exists.
pub open spec fn push_deleted(
    plan: Seq<(Seq<char>, FetchKind)>,
    before: Seq<Option<Seq<char>>>,
) -> Seq<(Seq<char>, Seq<char>)>
    decreases plan.len(),
{
    if plan.len() == 0 {
        Seq::empty()
    } else {
        let n = plan.len() - 1;
        let prev = push_deleted(plan.take(n), before.take(n));
        match plan[n].1 {
            FetchKind::Both => prev.push((plan[n].0, content_or_empty(before[n]))),
            FetchKind::BeforeOnly => if before[n] is Some {
                prev.push((plan[n].0, before[n]->0))
            } else {
                prev
            },
            FetchKind::AfterOnly => prev,
        }
    }
}

pub open spec fn plan_view(plan: Seq<(String, FetchKind)>) -> Seq<(Seq<char>, FetchKind)> {
    plan.map_values(|p: (String, FetchKind)| (p.0@, p.1))
}

/// Sorts the files of a push into active and deleted files, from the contents fetched for the
/// planned file at position `k`: `after[k]` at the pushed commit, `before[k]` at the base.
pub fn assemble_webhook_files(
    plan: &Vec<(String, FetchKind)>,
    after: &Vec<Option<String>>,
    before: &Vec<Option<String>>,
) -> (r: ProcessedFiles)
    requires
        plan@.len() == after@.len(),
        plan@.len() == before@.len(),
    ensures
        files_view(r.active_files@) == push_active(
            plan_view(plan@),
            after@.map_values(|o: Option<String>| opt_view(o)),
        ),
        files_view(r.deleted_files@) == push_deleted(
            plan_view(plan@),
            before@.map_values(|o: Option<String>| opt_view(o)),
        ),
{
    let ghost pv = plan_view(plan@);
    let ghost av = after@.map_values(|o: Option<String>| opt_view(o));
    let ghost bv = before@.map_values(|o: Option<String>| opt_view(o));
    let mut active: Vec<FileChange> = Vec::new();
    let mut deleted: Vec<FileChange> = Vec::new();
    let mut i: usize = 0;
    while i < plan.len()
        invariant
            i <= plan@.len(),
            plan@.len() == after@.len(),
            plan@.len() == before@.len(),
            pv == plan_view(plan@),
            av == after@.map_values(|o: Option<String>| opt_view(o)),
            bv == before@.map_values(|o: Option<String>| opt_view(o)),
            files_view(active@) == push_active(pv.take(i as int), av.take(i as int)),
            files_view(deleted@) == push_deleted(pv.take(i as int), bv.take(i as int)),
        decreases plan.len() - i,
    {
        proof {
            assert(pv.take(i + 1).take(i as int) =~= pv.take(i as int));
            assert(av.take(i + 1).take(i as int) =~= av.take(i as int));
            assert(bv.take(i + 1).take(i as int) =~= bv.take(i as int));
            assert(pv.take(i + 1)[i as int] == (plan@[i as int].0@, plan@[i as int].1));
            assert(av.take(i + 1)[i as int] == opt_view(after@[i as int]));
            assert(bv.take(i + 1)[i as int] == opt_view(before@[i as int]));
        }
        let ghost a0 = files_view(active@);
        let ghost d0 = files_view(deleted@);
        let path = &plan[i].0;
        match plan[i].1 {
            FetchKind::Both => {
                let a = match &after[i] {
                    Some(c) => copy_string(c),
                    None => String::new(),
                };
                let b = match &before[i] {
                    Some(c) => copy_string(c),
                    None => String::new(),
                };
                assert(a@ == content_or_empty(opt_view(after@[i as int])));
                assert(b@ == content_or_empty(opt_view(before@[i as int])));
                active.push(FileChange { path: copy_string(path), content: a });
                deleted.push(FileChange { path: copy_string(path), content: b });
                assert(files_view(active@) =~= a0.push((path@, content_or_empty(opt_view(after@[i as int])))));
                assert(files_view(deleted@) =~= d0.push((path@, content_or_empty(opt_view(before@[i as int])))));
            },
            FetchKind::AfterOnly => {
                match &after[i] {
                    Some(c) => {
                        active.push(FileChange { path: copy_string(path), content: copy_string(c) });
                        assert(files_view(active@) =~= a0.push((path@, c@)));
                    },
                    None => {},
                }
            },
            FetchKind::BeforeOnly => {
                match &before[i] {
                    Some(c) => {
                        deleted.push(FileChange { path: copy_string(path), content: copy_string(c) });
                        assert(files_view(deleted@) =~= d0.push((path@, c@)));
                    },
                    None => {},
                }
            },
        }
        i = i + 1;
    }
    assert(pv.take(plan.len() as int) =~= pv);
    assert(av.take(plan.len() as int) =~= av);
    assert(bv.take(plan.len() as int) =~= bv);
    ProcessedFiles { active_files: active, deleted_files: deleted }
}

/// The branch that a pushed reference names: the reference without a leading `refs/heads/`.
pub open spec fn branch_of_ref(git_ref: Seq<char>) -> Seq<char> {
    if starts_with(git_ref, "refs/heads/"@) {
        git_ref.subrange("refs/heads/"@.len() as int, git_ref.len() as int)
    } else {
        git_ref
    }
}

pub fn branch_name_of_ref(git_ref: &str) -> (r: String)
    ensures
        r@ == branch_of_ref(git_ref@),
{
    let g = to_chars(git_ref);
    let p = to_chars("refs/heads/");
    if starts_with_exec(&g, &p) {
        let mut out: Vec<char> = Vec::new();
        let mut i: usize = p.len();
        while i < g.len()
            invariant
                p@.len() <= i <= g@.len(),
                out@ == g@.subrange(p@.len() as int, i as int),
            decreases g.len() - i,
        {
            out.push(g[i]);
            assert(g@.subrange(p@.len() as int, i + 1) =~= out@);
            i = i + 1;
        }
        from_chars(&out)
    } else {
        from_chars(&g)
    }
}

/// A push to the default branch is compared with the commit before it; a push to any other
/// branch is compared with the head of the default branch.
pub fn compares_with_previous_commit(git_ref: &str, default_branch: &str) -> (b: bool)
    ensures
        b == (branch_of_ref(git_ref@) == default_branch@),
{
    let branch = branch_name_of_ref(git_ref);
    let d = String::from_str(default_branch);
    branch == d
}

/// The changes that are processed: all of them where the `FILE_PATH_PREFIX` setting is not
/// given, else those under one of the prefixes that it lists (see `parse_path_prefixes`,
/// `filter_changes_by_prefixes`).
pub fn changes_to_process(changes: Vec<(String, String)>, setting: Option<&str>) -> (r: Vec<(String, String)>)
    ensures
        change_views(r@) == match setting {
            None => change_views(changes@),
            Some(s) => changes_with_prefix(change_views(changes@), prefix_list(s@)),
        },
{
    match setting {
        None => changes,
        Some(s) => {
            let prefixes = parse_path_prefixes(s);
            assert(prefixes@.map_values(|p: String| p@) =~= prefix_list(s@));
            filter_changes_by_prefixes(changes, &prefixes)
        },
    }
}

} // verus!
