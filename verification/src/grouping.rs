//! Sorting the manifests of changed files into groups by identity: a manifest that appears only
//! after the change is applied, one that appears only before it is destroyed, one that moved to
//! another file unchanged is a rename, and one whose content did not change is left alone.
use vstd::prelude::*;
use crate::changes::FileChange;
use crate::manifest::DeploymentManifest;
use crate::text::{append_range, find_first, first_occ, from_chars, to_chars, trim, trim_chars};

verus! {

pub proof fn lemma_first_occ_bounds(s: Seq<char>, p: Seq<char>, from: int)
    ensures
        match first_occ(s, p, from) {
            Some(i) => from <= i && i + p.len() <= s.len() && crate::text::occurs_at(s, p, i),
            None => true,
        },
    decreases s.len() + 1 - from,
{
    if 0 <= from <= s.len() && !crate::text::occurs_at(s, p, from) {
        lemma_first_occ_bounds(s, p, from + 1);
    }
}

/// The pieces of `s` between occurrences of `sep`, as `str::split` with a string gives them.
pub open spec fn split_str(s: Seq<char>, sep: Seq<char>) -> Seq<Seq<char>>
    decreases s.len(),
{
    if sep.len() == 0 {
        seq![s]
    } else {
        match first_occ(s, sep, 0) {
            Some(i) => {
                proof {
                    lemma_first_occ_bounds(s, sep, 0);
                }
                seq![s.subrange(0, i)] + split_str(s.subrange(i + sep.len(), s.len() as int), sep)
            },
            None => seq![s],
        }
    }
}

/// The pieces of `s` between occurrences of a non-empty separator (see `split_str`).
pub fn split_by(s: &str, sep: &str) -> (r: Vec<String>)
    requires
        sep@.len() > 0,
    ensures
        r@.map_values(|p: String| p@) == split_str(s@, sep@),
{
    let cs = to_chars(s);
    let n_sep = to_chars(sep).len();
    let mut pieces: Vec<String> = Vec::new();
    let mut rest = cs;
    assert(pieces@.map_values(|p: String| p@) + split_str(rest@, sep@) =~= split_str(s@, sep@));
    loop
        invariant_except_break
            n_sep == sep@.len(),
            sep@.len() > 0,
            pieces@.map_values(|p: String| p@) + split_str(rest@, sep@) == split_str(s@, sep@),
        ensures
            pieces@.map_values(|p: String| p@) == split_str(s@, sep@),
        decreases rest@.len(),
    {
        let n = rest.len();
        match find_first(&rest, sep, 0) {
            Some(i) => {
                proof {
                    lemma_first_occ_bounds(rest@, sep@, 0);
                }
                let mut piece: Vec<char> = Vec::new();
                append_range(&mut piece, rest.as_slice(), 0, i);
                let mut next: Vec<char> = Vec::new();
                append_range(&mut next, rest.as_slice(), i + n_sep, n);
                let ghost before = pieces@.map_values(|p: String| p@);
                assert(piece@ =~= rest@.subrange(0, i as int));
                assert(next@ =~= rest@.subrange(i + sep@.len(), rest@.len() as int));
                assert(split_str(rest@, sep@) == seq![piece@] + split_str(next@, sep@));
                pieces.push(from_chars(piece.as_slice()));
                assert(pieces@.map_values(|p: String| p@) =~= before.push(piece@));
                assert(pieces@.map_values(|p: String| p@) + split_str(next@, sep@) =~= before + split_str(rest@, sep@));
                rest = next;
            },
            None => {
                let ghost before = pieces@.map_values(|p: String| p@);
                let ghost rv = rest@;
                assert(split_str(rest@, sep@) == seq![rest@]);
                pieces.push(from_chars(rest.as_slice()));
                assert(pieces@.map_values(|p: String| p@) =~= before + seq![rv]);
                break;
            },
        }
    }
    pieces
}

/// The trimmed pieces that are not empty.
pub open spec fn nonempty_trimmed(pieces: Seq<Seq<char>>) -> Seq<Seq<char>>
    decreases pieces.len(),
{
    if pieces.len() == 0 {
        Seq::empty()
    } else if trim(pieces.last()).len() > 0 {
        nonempty_trimmed(pieces.drop_last()).push(trim(pieces.last()))
    } else {
        nonempty_trimmed(pieces.drop_last())
    }
}

/// The YAML documents of a file: the text between `---` separators, trimmed, empty ones left out.
pub open spec fn yaml_documents(content: Seq<char>) -> Seq<Seq<char>> {
    nonempty_trimmed(split_str(content, "---"@))
}

/// The YAML documents of a file (see `yaml_documents`).
pub fn split_yaml_documents(content: &str) -> (r: Vec<String>)
    ensures
        r@.map_values(|d: String| d@) == yaml_documents(content@),
{
    proof {
        reveal_strlit("---");
        assert("---"@.len() == 3);
    }
    let cs = to_chars(content);
    let mut pieces: Vec<Vec<char>> = Vec::new();
    let mut rest = cs;
    assert(pieces@.map_values(|p: Vec<char>| p@) + split_str(rest@, "---"@) =~= split_str(content@, "---"@));
    loop
        invariant_except_break
            "---"@.len() == 3,
            pieces@.map_values(|p: Vec<char>| p@) + split_str(rest@, "---"@) == split_str(content@, "---"@),
        ensures
            pieces@.map_values(|p: Vec<char>| p@) == split_str(content@, "---"@),
        decreases rest@.len(),
    {
        let n = rest.len();
        match find_first(&rest, "---", 0) {
            Some(i) => {
                proof {
                    lemma_first_occ_bounds(rest@, "---"@, 0);
                }
                let mut piece: Vec<char> = Vec::new();
                append_range(&mut piece, rest.as_slice(), 0, i);
                let mut next: Vec<char> = Vec::new();
                append_range(&mut next, rest.as_slice(), i + 3, n);
                let ghost before = pieces@.map_values(|p: Vec<char>| p@);
                assert(piece@ =~= rest@.subrange(0, i as int));
                assert(next@ =~= rest@.subrange(i + 3, rest@.len() as int));
                assert(split_str(rest@, "---"@) == seq![piece@] + split_str(next@, "---"@));
                pieces.push(piece);
                assert(pieces@.map_values(|p: Vec<char>| p@) =~= before.push(pieces@.last()@));
                assert(pieces@.map_values(|p: Vec<char>| p@) + split_str(next@, "---"@) =~= before + split_str(rest@, "---"@));
                rest = next;
            },
            None => {
                let ghost before = pieces@.map_values(|p: Vec<char>| p@);
                let ghost rv = rest@;
                assert(split_str(rest@, "---"@) == seq![rest@]);
                pieces.push(rest);
                assert(pieces@.map_values(|p: Vec<char>| p@) =~= before + seq![rv]);
                break;
            },
        }
    }
    let ghost ps = pieces@.map_values(|p: Vec<char>| p@);
    assert(ps == split_str(content@, "---"@));
    let mut docs: Vec<String> = Vec::new();
    let mut k: usize = 0;
    while k < pieces.len()
        invariant
            ps == pieces@.map_values(|p: Vec<char>| p@),
            k <= pieces@.len(),
            docs@.map_values(|d: String| d@) == nonempty_trimmed(ps.take(k as int)),
        decreases pieces.len() - k,
    {
        assert(ps.take(k + 1).drop_last() =~= ps.take(k as int));
        assert(ps.take(k + 1).last() == pieces@[k as int]@);
        let t = trim_chars(pieces[k].as_slice());
        if t.len() > 0 {
            let ghost before = docs@.map_values(|d: String| d@);
            docs.push(from_chars(t.as_slice()));
            assert(docs@.map_values(|d: String| d@) =~= before.push(t@));
        }
        k = k + 1;
    }
    assert(ps.take(pieces@.len() as int) =~= ps);
    docs
}

/// The identity of a manifest: its API version, kind, name, namespace (`default` where it has
/// none) and region.
#[derive(Debug)]
pub struct GroupKey {
    pub api_version: String,
    pub kind: String,
    pub name: String,
    pub namespace: String,
    pub region: String,
}

pub open spec fn key_view(k: GroupKey) -> (Seq<char>, Seq<char>, Seq<char>, Seq<char>, Seq<char>) {
    (k.api_version@, k.kind@, k.name@, k.namespace@, k.region@)
}

/// The identity of a deployment claim.
pub fn group_key_of(manifest: &DeploymentManifest) -> (k: GroupKey)
    ensures
        k.api_version@ == manifest.api_version@,
        k.kind@ == manifest.kind@,
        k.name@ == manifest.metadata.name@,
        k.namespace@ == match manifest.metadata.namespace {
            Some(ns) => ns@,
            None => "default"@,
        },
        k.region@ == manifest.spec.region@,
{
    GroupKey {
        api_version: manifest.api_version.clone(),
        kind: manifest.kind.clone(),
        name: manifest.metadata.name.clone(),
        namespace: match &manifest.metadata.namespace {
            Some(ns) => ns.clone(),
            None => String::from_str("default"),
        },
        region: manifest.spec.region.clone(),
    }
}

/// One manifest found in a changed file: its identity, its canonical YAML, and the file.
#[derive(Debug)]
pub struct ManifestChange {
    pub key: GroupKey,
    pub content: String,
    pub file: FileChange,
}

/// What to do for one manifest identity: apply its new version, destroy its old one, or record
/// that it moved to another file. Each holds the file and the manifest's canonical YAML.
#[derive(Debug)]
pub struct GroupedFile {
    pub key: GroupKey,
    pub active: Option<(FileChange, String)>,
    pub deleted: Option<(FileChange, String)>,
    pub renamed: Option<(FileChange, String)>,
}

/// The change is the last one of its identity among the changes.
pub open spec fn is_last_of_key(cs: Seq<ManifestChange>, i: int) -> bool {
    forall|j: int| i < j < cs.len() ==> key_view((#[trigger] cs[j]).key) != key_view(cs[i].key)
}

/// Some change has the identity.
pub open spec fn has_key(cs: Seq<ManifestChange>, k: (Seq<char>, Seq<char>, Seq<char>, Seq<char>, Seq<char>)) -> bool {
    exists|j: int| 0 <= j < cs.len() && key_view((#[trigger] cs[j]).key) == k
}

/// The last change of an identity, if any.
pub open spec fn last_of_key(cs: Seq<ManifestChange>, k: (Seq<char>, Seq<char>, Seq<char>, Seq<char>, Seq<char>)) -> Option<ManifestChange>
    decreases cs.len(),
{
    if cs.len() == 0 {
        None
    } else if key_view(cs.last().key) == k {
        Some(cs.last())
    } else {
        last_of_key(cs.drop_last(), k)
    }
}

/// What a group says, as plain values: the identity, and which of apply, destroy and rename it
/// is, with the file's path and content and the manifest's YAML.
pub enum GroupAction {
    Apply,
    Destroy,
    Rename,
}

pub struct GroupView {
    pub key: (Seq<char>, Seq<char>, Seq<char>, Seq<char>, Seq<char>),
    pub action: GroupAction,
    pub path: Seq<char>,
    pub file_content: Seq<char>,
    pub yaml: Seq<char>,
}

pub open spec fn view_of_change(c: ManifestChange, action: GroupAction) -> GroupView {
    GroupView { key: key_view(c.key), action, path: c.file.path@, file_content: c.file.content@, yaml: c.content@ }
}

pub open spec fn grouped_view(g: GroupedFile) -> Option<GroupView> {
    match (g.active, g.deleted, g.renamed) {
        (Some(a), None, None) => Some(
            GroupView { key: key_view(g.key), action: GroupAction::Apply, path: a.0.path@, file_content: a.0.content@, yaml: a.1@ },
        ),
        (None, Some(d), None) => Some(
            GroupView { key: key_view(g.key), action: GroupAction::Destroy, path: d.0.path@, file_content: d.0.content@, yaml: d.1@ },
        ),
        (None, None, Some(r)) => Some(
            GroupView { key: key_view(g.key), action: GroupAction::Rename, path: r.0.path@, file_content: r.0.content@, yaml: r.1@ },
        ),
        _ => None,
    }
}

/// The group of an active manifest, given the removed manifest of the same identity: a rename
/// where the YAML and the whole file are the same and only the path differs; nothing where the
/// YAML is the same otherwise; else apply.
pub open spec fn active_group(a: ManifestChange, d: Option<ManifestChange>) -> Seq<GroupView> {
    match d {
        Some(d) => if a.content@ == d.content@ && a.file.content@ == d.file.content@ && a.file.path@ != d.file.path@ {
            seq![view_of_change(a, GroupAction::Rename)]
        } else if a.content@ == d.content@ {
            Seq::empty()
        } else {
            seq![view_of_change(a, GroupAction::Apply)]
        },
        None => seq![view_of_change(a, GroupAction::Apply)],
    }
}

/// The groups of the first `n` active changes (the last change of each identity counts).
pub open spec fn active_groups(actives: Seq<ManifestChange>, deleteds: Seq<ManifestChange>, n: int) -> Seq<GroupView>
    decreases n,
{
    if n <= 0 {
        Seq::empty()
    } else {
        active_groups(actives, deleteds, n - 1) + if is_last_of_key(actives, n - 1) {
            active_group(actives[n - 1], last_of_key(deleteds, key_view(actives[n - 1].key)))
        } else {
            Seq::empty()
        }
    }
}

/// The groups of the first `n` removed changes whose identity no active change has.
pub open spec fn deleted_groups(actives: Seq<ManifestChange>, deleteds: Seq<ManifestChange>, n: int) -> Seq<GroupView>
    decreases n,
{
    if n <= 0 {
        Seq::empty()
    } else {
        deleted_groups(actives, deleteds, n - 1) + if is_last_of_key(deleteds, n - 1) && !has_key(
            actives,
            key_view(deleteds[n - 1].key),
        ) {
            seq![view_of_change(deleteds[n - 1], GroupAction::Destroy)]
        } else {
            Seq::empty()
        }
    }
}

/// All groups: those of the active manifests, then those destroyed.
pub open spec fn manifest_groups(actives: Seq<ManifestChange>, deleteds: Seq<ManifestChange>) -> Seq<GroupView> {
    active_groups(actives, deleteds, actives.len() as int) + deleted_groups(actives, deleteds, deleteds.len() as int)
}

fn keys_equal(a: &GroupKey, b: &GroupKey) -> (r: bool)
    ensures
        r == (key_view(*a) == key_view(*b)),
{
    a.api_version == b.api_version && a.kind == b.kind && a.name == b.name && a.namespace == b.namespace
        && a.region == b.region
}

fn copy_key(k: &GroupKey) -> (r: GroupKey)
    ensures
        key_view(r) == key_view(*k),
{
    GroupKey {
        api_version: k.api_version.clone(),
        kind: k.kind.clone(),
        name: k.name.clone(),
        namespace: k.namespace.clone(),
        region: k.region.clone(),
    }
}

fn copy_file(f: &FileChange) -> (r: FileChange)
    ensures
        r.path@ == f.path@,
        r.content@ == f.content@,
{
    FileChange { path: f.path.clone(), content: f.content.clone() }
}

fn group_of_change(c: &ManifestChange, action: GroupAction) -> (g: GroupedFile)
    ensures
        grouped_view(g) == Some(view_of_change(*c, action)),
{
    let entry = Some((copy_file(&c.file), c.content.clone()));
    match action {
        GroupAction::Apply => GroupedFile { key: copy_key(&c.key), active: entry, deleted: None, renamed: None },
        GroupAction::Destroy => GroupedFile { key: copy_key(&c.key), active: None, deleted: entry, renamed: None },
        GroupAction::Rename => GroupedFile { key: copy_key(&c.key), active: None, deleted: None, renamed: entry },
    }
}

fn is_last_exec(cs: &Vec<ManifestChange>, i: usize) -> (r: bool)
    requires
        i < cs@.len(),
    ensures
        r == is_last_of_key(cs@, i as int),
{
    let n = cs.len();
    let mut j: usize = i + 1;
    while j < n
        invariant
            n == cs@.len(),
            i < j <= cs@.len(),
            forall|q: int| i < q < j ==> key_view((#[trigger] cs@[q]).key) != key_view(cs@[i as int].key),
        decreases n - j,
    {
        if keys_equal(&cs[j].key, &cs[i].key) {
            return false;
        }
        j = j + 1;
    }
    true
}

fn find_last_of_key(cs: &Vec<ManifestChange>, k: &GroupKey) -> (r: Option<usize>)
    ensures
        match r {
            Some(i) => i < cs@.len() && last_of_key(cs@, key_view(*k)) == Some(cs@[i as int]),
            None => last_of_key(cs@, key_view(*k)) is None,
        },
{
    let mut i: usize = cs.len();
    assert(cs@.take(i as int) =~= cs@);
    while i > 0
        invariant
            i <= cs@.len(),
            last_of_key(cs@, key_view(*k)) == last_of_key(cs@.take(i as int), key_view(*k)),
        decreases i,
    {
        assert(cs@.take(i as int).drop_last() =~= cs@.take(i - 1));
        assert(cs@.take(i as int).last() == cs@[i - 1]);
        if keys_equal(&cs[i - 1].key, k) {
            return Some(i - 1);
        }
        i = i - 1;
    }
    None
}

fn has_key_exec(cs: &Vec<ManifestChange>, k: &GroupKey) -> (r: bool)
    ensures
        r == has_key(cs@, key_view(*k)),
{
    let mut j: usize = 0;
    while j < cs.len()
        invariant
            j <= cs@.len(),
            forall|q: int| 0 <= q < j ==> key_view((#[trigger] cs@[q]).key) != key_view(*k),
        decreases cs.len() - j,
    {
        if keys_equal(&cs[j].key, k) {
            return true;
        }
        j = j + 1;
    }
    false
}

pub open spec fn groups_match(r: Seq<GroupedFile>, v: Seq<GroupView>) -> bool {
    r.len() == v.len() && forall|i: int| 0 <= i < r.len() ==> grouped_view(#[trigger] r[i]) == Some(v[i])
}

/// The groups of the manifests found in the files after a change (`active_changes`) and before it
/// (`deleted_changes`): see `manifest_groups`.
pub fn group_manifest_changes(active_changes: &Vec<ManifestChange>, deleted_changes: &Vec<ManifestChange>) -> (r: Vec<GroupedFile>)
    ensures
        groups_match(r@, manifest_groups(active_changes@, deleted_changes@)),
{
    let ghost av = active_changes@;
    let ghost dv = deleted_changes@;
    let mut groups: Vec<GroupedFile> = Vec::new();
    let mut i: usize = 0;
    while i < active_changes.len()
        invariant
            av == active_changes@,
            dv == deleted_changes@,
            i <= av.len(),
            groups_match(groups@, active_groups(av, dv, i as int)),
        decreases active_changes.len() - i,
    {
        let ghost before = groups@;
        let ghost prev = active_groups(av, dv, i as int);
        if is_last_exec(active_changes, i) {
            let a = &active_changes[i];
            match find_last_of_key(deleted_changes, &a.key) {
                Some(j) => {
                    let d = &deleted_changes[j];
                    if a.content == d.content && a.file.content == d.file.content && a.file.path != d.file.path {
                        groups.push(group_of_change(a, GroupAction::Rename));
                    } else if a.content == d.content {
                    } else {
                        groups.push(group_of_change(a, GroupAction::Apply));
                    }
                },
                None => {
                    groups.push(group_of_change(a, GroupAction::Apply));
                },
            }
        }
        proof {
            let step = active_groups(av, dv, i + 1);
            assert(step == prev + (if is_last_of_key(av, i as int) {
                active_group(av[i as int], last_of_key(dv, key_view(av[i as int].key)))
            } else {
                Seq::empty()
            }));
            assert forall|q: int| 0 <= q < groups@.len() implies grouped_view(#[trigger] groups@[q]) == Some(step[q]) by {
                if q < before.len() {
                    assert(groups@[q] == before[q]);
                }
            }
        }
        i = i + 1;
    }
    let ghost first_part = active_groups(av, dv, av.len() as int);
    let mut k: usize = 0;
    while k < deleted_changes.len()
        invariant
            av == active_changes@,
            dv == deleted_changes@,
            first_part == active_groups(av, dv, av.len() as int),
            k <= dv.len(),
            groups_match(groups@, first_part + deleted_groups(av, dv, k as int)),
        decreases deleted_changes.len() - k,
    {
        let ghost before = groups@;
        let ghost prev = first_part + deleted_groups(av, dv, k as int);
        let d = &deleted_changes[k];
        if is_last_exec(deleted_changes, k) && !has_key_exec(active_changes, &d.key) {
            groups.push(group_of_change(d, GroupAction::Destroy));
        }
        proof {
            let step = first_part + deleted_groups(av, dv, k + 1);
            assert(deleted_groups(av, dv, k + 1) == deleted_groups(av, dv, k as int) + if is_last_of_key(dv, k as int) && !has_key(av, key_view(dv[k as int].key)) {
                seq![view_of_change(dv[k as int], GroupAction::Destroy)]
            } else {
                Seq::empty()
            });
            assert forall|q: int| 0 <= q < groups@.len() implies grouped_view(#[trigger] groups@[q]) == Some(step[q]) by {
                if q < before.len() {
                    assert(groups@[q] == before[q]);
                    assert(step[q] == prev[q]);
                }
            }
        }
        k = k + 1;
    }
    groups
}

} // verus!
