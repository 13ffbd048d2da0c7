//! The decisions taken for each manifest group of a push to a repository: which job to run
//! (plan, apply or destroy), with which flags, in which environment, under which check-run name,
//! and what the check run reports.
use vstd::prelude::*;
use crate::changes::CommitFiles;
use crate::grouping::GroupedFile;
use crate::stdwrap::{lowercase_of, to_lowercase_string};
use crate::text::{append_str, from_chars, replace_all, replace_str, starts_with, starts_with_exec, to_chars};
use crate::value::{get_entry, object_get, Value};

verus! {

/// `name (region) - path (namespace)`, the name of a claim's check run.
pub open spec fn check_run_name_of(name: Seq<char>, path: Seq<char>, region: Seq<char>, namespace: Seq<char>) -> Seq<char> {
    name + " ("@ + region + ") - "@ + path + " ("@ + namespace + ")"@
}

pub fn get_check_run_name(name: &str, path: &str, region: &str, namespace: &str) -> (r: String)
    ensures
        r@ == check_run_name_of(name@, path@, region@, namespace@),
{
    let mut out: Vec<char> = Vec::new();
    append_str(&mut out, name);
    append_str(&mut out, " (");
    append_str(&mut out, region);
    append_str(&mut out, ") - ");
    append_str(&mut out, path);
    append_str(&mut out, " (");
    append_str(&mut out, namespace);
    append_str(&mut out, ")");
    from_chars(out.as_slice())
}

/// The text of a value that is a string.
pub open spec fn text_of(v: Option<Value>) -> Option<Seq<char>> {
    match v {
        Some(Value::Text(s)) => Some(s@),
        _ => None,
    }
}

pub open spec fn field_text(v: Value, section: Seq<char>, field: Seq<char>) -> Option<Seq<char>> {
    match object_get(v, section) {
        Some(inner) => text_of(object_get(inner, field)),
        None => None,
    }
}

fn get_text(v: &Value, section: &str, field: &str) -> (r: Option<String>)
    ensures
        match r {
            Some(s) => field_text(*v, section@, field@) == Some(s@),
            None => field_text(*v, section@, field@) is None,
        },
{
    match get_entry(v, section) {
        Some(inner) => match get_entry(inner, field) {
            Some(Value::Text(s)) => Some(s.clone()),
            _ => None,
        },
        None => None,
    }
}

/// What a check run shows of a claim: its `metadata.name` (if it is a string), its
/// `spec.region` (`unknown_region` where there is none) and its `metadata.namespace`
/// (`default` where there is none).
pub struct ClaimLabels {
    pub name: Option<String>,
    pub region: String,
    pub namespace: String,
}

pub fn claim_labels(yaml: &Value) -> (r: ClaimLabels)
    ensures
        match r.name {
            Some(n) => field_text(*yaml, "metadata"@, "name"@) == Some(n@),
            None => field_text(*yaml, "metadata"@, "name"@) is None,
        },
        r.region@ == match field_text(*yaml, "spec"@, "region"@) {
            Some(s) => s,
            None => "unknown_region"@,
        },
        r.namespace@ == match field_text(*yaml, "metadata"@, "namespace"@) {
            Some(s) => s,
            None => "default"@,
        },
{
    let name = get_text(yaml, "metadata", "name");
    let region = match get_text(yaml, "spec", "region") {
        Some(s) => s,
        None => String::from_str("unknown_region"),
    };
    let namespace = match get_text(yaml, "metadata", "namespace") {
        Some(s) => s,
        None => String::from_str("default"),
    };
    ClaimLabels { name, region, namespace }
}

/// The job of a push: `plan` on a branch other than the default one; on the default branch,
/// `destroy` for a removed claim and `apply` for any other.
pub open spec fn push_command_of(branch: Seq<char>, default_branch: Seq<char>, destroying: bool) -> Seq<char> {
    if branch != "refs/heads/"@ + default_branch {
        "plan"@
    } else if destroying {
        "destroy"@
    } else {
        "apply"@
    }
}

pub fn push_command(branch: &str, default_branch: &str, destroying: bool) -> (r: String)
    ensures
        r@ == push_command_of(branch@, default_branch@, destroying),
{
    let mut head: Vec<char> = Vec::new();
    append_str(&mut head, "refs/heads/");
    append_str(&mut head, default_branch);
    let head = from_chars(head.as_slice());
    if String::from_str(branch) != head {
        String::from_str("plan")
    } else if destroying {
        String::from_str("destroy")
    } else {
        String::from_str("apply")
    }
}

/// The flags of a job: a plan of a removed claim plans its destruction (`-destroy`); no other
/// job has flags.
pub fn push_job_flags(command: &str, destroying: bool) -> (r: Vec<String>)
    ensures
        destroying && command@ == "plan"@ ==> r@.len() == 1 && r@[0]@ == "-destroy"@,
        !(destroying && command@ == "plan"@) ==> r@.len() == 0,
{
    let mut r: Vec<String> = Vec::new();
    if destroying && String::from_str(command) == String::from_str("plan") {
        r.push(String::from_str("-destroy"));
    }
    r
}

/// The environment of a claim of a repository: `github-<owner>-<repo>/<namespace>`, the
/// repository part in lowercase so that repositories do not collide.
pub open spec fn claim_environment_of(repo_full_name: Seq<char>, namespace: Seq<char>) -> Seq<char> {
    "github-"@ + lowercase_of(replace_all(repo_full_name, "/"@, "-"@)) + "/"@ + namespace
}

pub fn claim_environment(repo_full_name: &str, namespace: &str) -> (r: String)
    ensures
        r@ == claim_environment_of(repo_full_name@, namespace@),
{
    proof {
        reveal_strlit("/");
    }
    let dashed = replace_str(repo_full_name, "/", "-");
    let lower = to_lowercase_string(dashed.as_str());
    let mut out: Vec<char> = Vec::new();
    append_str(&mut out, "github-");
    append_str(&mut out, lower.as_str());
    append_str(&mut out, "/");
    append_str(&mut out, namespace);
    from_chars(out.as_slice())
}

/// The environment under which a renamed claim is looked up: `github-<owner>-<repo>/<namespace>`,
/// the repository part as it is written.
pub open spec fn rename_environment_of(repo_full_name: Seq<char>, namespace: Seq<char>) -> Seq<char> {
    "github-"@ + replace_all(repo_full_name, "/"@, "-"@) + "/"@ + namespace
}

pub fn rename_environment(repo_full_name: &str, namespace: &str) -> (r: String)
    ensures
        r@ == rename_environment_of(repo_full_name@, namespace@),
{
    proof {
        reveal_strlit("/");
    }
    let dashed = replace_str(repo_full_name, "/", "-");
    let mut out: Vec<char> = Vec::new();
    append_str(&mut out, "github-");
    append_str(&mut out, dashed.as_str());
    append_str(&mut out, "/");
    append_str(&mut out, namespace);
    from_chars(out.as_slice())
}

/// The page of a file on the default branch: `<repository>/blob/<branch>/<path>`.
pub fn blob_url(repository_url: &str, default_branch: &str, path: &str) -> (r: String)
    ensures
        r@ == repository_url@ + "/blob/"@ + default_branch@ + "/"@ + path@,
{
    let mut out: Vec<char> = Vec::new();
    append_str(&mut out, repository_url);
    append_str(&mut out, "/blob/");
    append_str(&mut out, default_branch);
    append_str(&mut out, "/");
    append_str(&mut out, path);
    from_chars(out.as_slice())
}

/// `s` without the leading repetitions of `pat`, as `str::trim_start_matches` gives it.
pub open spec fn strip_leading(s: Seq<char>, pat: Seq<char>) -> Seq<char>
    decreases s.len(),
{
    if pat.len() > 0 && starts_with(s, pat) {
        strip_leading(s.subrange(pat.len() as int, s.len() as int), pat)
    } else {
        s
    }
}

fn strip_leading_markers(s: &str) -> (r: String)
    ensures
        r@ == strip_leading(s@, "---"@),
{
    proof {
        reveal_strlit("---");
    }
    let pat = to_chars("---");
    let mut cur = to_chars(s);
    while starts_with_exec(cur.as_slice(), pat.as_slice())
        invariant
            pat@ == "---"@,
            pat@.len() == 3,
            strip_leading(cur@, pat@) == strip_leading(s@, pat@),
        decreases cur@.len(),
    {
        let mut next: Vec<char> = Vec::new();
        crate::text::append_range(&mut next, cur.as_slice(), 3, cur.len());
        assert(next@ =~= cur@.subrange(3, cur@.len() as int));
        cur = next;
    }
    from_chars(cur.as_slice())
}

/// What a check run reports.
#[derive(Debug)]
pub struct CheckRunOutput {
    pub title: String,
    pub summary: String,
    pub text: Option<String>,
}

/// The report of a job that has started: `<command> job initiated`, what it does to which check
/// run, and the claim's YAML (without leading `---`) in a code block.
pub open spec fn initiated_output_of(command: Seq<char>, destroying: bool, check_run_name: Seq<char>, canonical: Seq<char>) -> (Seq<char>, Seq<char>, Seq<char>) {
    (
        command + " job initiated"@,
        "Running "@ + command + (if destroying {
            " job for deleting resources for "@
        } else {
            " job for applying resources for "@
        }) + check_run_name + ", please wait..."@,
        "\n## Claim\n\n```yaml\n"@ + strip_leading(canonical, "---"@) + "\n```"@,
    )
}

pub fn initiated_output(command: &str, destroying: bool, check_run_name: &str, canonical: &str) -> (r: CheckRunOutput)
    ensures
        r.title@ == initiated_output_of(command@, destroying, check_run_name@, canonical@).0,
        r.summary@ == initiated_output_of(command@, destroying, check_run_name@, canonical@).1,
        r.text is Some,
        r.text->Some_0@ == initiated_output_of(command@, destroying, check_run_name@, canonical@).2,
{
    let mut title: Vec<char> = Vec::new();
    append_str(&mut title, command);
    append_str(&mut title, " job initiated");
    let mut summary: Vec<char> = Vec::new();
    append_str(&mut summary, "Running ");
    append_str(&mut summary, command);
    if destroying {
        append_str(&mut summary, " job for deleting resources for ");
    } else {
        append_str(&mut summary, " job for applying resources for ");
    }
    append_str(&mut summary, check_run_name);
    append_str(&mut summary, ", please wait...");
    let body = strip_leading_markers(canonical);
    let mut text: Vec<char> = Vec::new();
    append_str(&mut text, "\n## Claim\n\n```yaml\n");
    append_str(&mut text, body.as_str());
    append_str(&mut text, "\n```");
    CheckRunOutput { title: from_chars(title.as_slice()), summary: from_chars(summary.as_slice()), text: Some(from_chars(text.as_slice())) }
}

/// The report of a job that failed: `Apply job failed` / `Destroy job failed`, which resources,
/// and the error.
pub fn failure_output(destroying: bool, check_run_name: &str, error: &str) -> (r: CheckRunOutput)
    ensures
        r.title@ == if destroying { "Destroy job failed"@ } else { "Apply job failed"@ },
        r.summary@ == (if destroying { "Failed to destroy resources for "@ } else { "Failed to apply resources for "@ }) + check_run_name@,
        r.text is Some,
        r.text->Some_0@ == "Error: "@ + error@,
{
    let mut summary: Vec<char> = Vec::new();
    if destroying {
        append_str(&mut summary, "Failed to destroy resources for ");
    } else {
        append_str(&mut summary, "Failed to apply resources for ");
    }
    append_str(&mut summary, check_run_name);
    let mut text: Vec<char> = Vec::new();
    append_str(&mut text, "Error: ");
    append_str(&mut text, error);
    let title = if destroying {
        String::from_str("Destroy job failed")
    } else {
        String::from_str("Apply job failed")
    };
    CheckRunOutput { title, summary: from_chars(summary.as_slice()), text: Some(from_chars(text.as_slice())) }
}

/// The report for a push to a repository that is not assigned to a project.
pub fn missing_project_output() -> (r: CheckRunOutput)
    ensures
        r.title@ == "This repository is not yet configured"@,
        r.summary@ == "Failed to get project id and region for repository"@,
        r.text is Some,
        r.text->Some_0@ == "## Error\nPlease check the configuration and make sure to assign it to a project_id and region"@,
{
    CheckRunOutput {
        title: String::from_str("This repository is not yet configured"),
        summary: String::from_str("Failed to get project id and region for repository"),
        text: Some(String::from_str("## Error\nPlease check the configuration and make sure to assign it to a project_id and region")),
    }
}

/// The files of a commit sorted by their status in the GitHub API: for each entry of `files`
/// with a string `status` and a string `filename`, the name goes to `added`, `removed` or
/// `modified` by its status; other statuses are left out.
pub open spec fn status_files(files: Seq<Value>, status: Seq<char>) -> Seq<Seq<char>>
    decreases files.len(),
{
    if files.len() == 0 {
        Seq::empty()
    } else {
        let prev = status_files(files.drop_last(), status);
        let f = files.last();
        match (text_of(object_get(f, "status"@)), text_of(object_get(f, "filename"@))) {
            (Some(s), Some(n)) => if s == status {
                prev.push(n)
            } else {
                prev
            },
            _ => prev,
        }
    }
}

pub open spec fn names_of(v: Seq<String>) -> Seq<Seq<char>> {
    v.map_values(|s: String| s@)
}

/// The files of a commit as the API lists them (its `files` array; none where there is none).
pub fn commit_files_from_api(commit: &Value) -> (r: CommitFiles)
    ensures
        match object_get(*commit, "files"@) {
            Some(Value::List(files)) => {
                &&& names_of(r.added@) == status_files(files@, "added"@)
                &&& names_of(r.removed@) == status_files(files@, "removed"@)
                &&& names_of(r.modified@) == status_files(files@, "modified"@)
            },
            _ => r.added@.len() == 0 && r.removed@.len() == 0 && r.modified@.len() == 0,
        },
{
    let mut added: Vec<String> = Vec::new();
    let mut removed: Vec<String> = Vec::new();
    let mut modified: Vec<String> = Vec::new();
    match get_entry(commit, "files") {
        Some(Value::List(files)) => {
            let mut i: usize = 0;
            while i < files.len()
                invariant
                    i <= files@.len(),
                    names_of(added@) == status_files(files@.take(i as int), "added"@),
                    names_of(removed@) == status_files(files@.take(i as int), "removed"@),
                    names_of(modified@) == status_files(files@.take(i as int), "modified"@),
                decreases files.len() - i,
            {
                assert(files@.take(i + 1).drop_last() =~= files@.take(i as int));
                assert(files@.take(i + 1).last() == files@[i as int]);
                let ghost (a0, r0, m0) = (names_of(added@), names_of(removed@), names_of(modified@));
                let f = &files[i];
                match (get_entry(f, "status"), get_entry(f, "filename")) {
                    (Some(Value::Text(status)), Some(Value::Text(name))) => {
                        if *status == String::from_str("added") {
                            added.push(name.clone());
                        } else if *status == String::from_str("removed") {
                            removed.push(name.clone());
                        } else if *status == String::from_str("modified") {
                            modified.push(name.clone());
                        }
                        proof {
                            reveal_strlit("added");
                            reveal_strlit("removed");
                            reveal_strlit("modified");
                            assert("added"@ != "removed"@ && "added"@ != "modified"@ && "removed"@ != "modified"@) by {
                                assert("added"@[0] != "removed"@[0]);
                                assert("added"@[0] != "modified"@[0]);
                                assert("removed"@[0] != "modified"@[0]);
                            }
                        }
                        assert(names_of(added@) =~= if status@ == "added"@ { a0.push(name@) } else { a0 });
                        assert(names_of(removed@) =~= if status@ == "removed"@ { r0.push(name@) } else { r0 });
                        assert(names_of(modified@) =~= if status@ == "modified"@ { m0.push(name@) } else { m0 });
                    },
                    _ => {},
                }
                i = i + 1;
            }
            assert(files@.take(files@.len() as int) =~= files@);
        },
        _ => {},
    }
    CommitFiles { added, removed, modified }
}

/// The flags of a job (see `push_job_flags`).
pub open spec fn job_flags_of(command: Seq<char>, destroying: bool) -> Seq<Seq<char>> {
    if destroying && command == "plan"@ {
        seq!["-destroy"@]
    } else {
        Seq::empty()
    }
}

/// What a push does for one manifest group.
pub enum GroupStep {
    /// The group has no manifest: nothing.
    Nothing,
    /// The repository is assigned to no project: report that and stop handling the push.
    MissingProject,
    /// Run a job for the group's claim: the command, its flags, and whether it destroys.
    RunJob(String, Vec<String>, bool),
    /// The claim moved to another file: update its deployment's reference; no job runs.
    UpdateReference,
}

/// A group step, as values.
pub enum GroupStepView {
    Nothing,
    MissingProject,
    RunJob(Seq<char>, Seq<Seq<char>>, bool),
    UpdateReference,
}

pub open spec fn group_step_view(s: GroupStep) -> GroupStepView {
    match s {
        GroupStep::Nothing => GroupStepView::Nothing,
        GroupStep::MissingProject => GroupStepView::MissingProject,
        GroupStep::RunJob(c, f, d) => GroupStepView::RunJob(c@, f@.map_values(|x: String| x@), d),
        GroupStep::UpdateReference => GroupStepView::UpdateReference,
    }
}

/// The step for one group of a push: a group with a manifest first needs the repository's
/// project; then an active manifest is applied (planned off the default branch), a removed one
/// destroyed (its destruction planned off the default branch), and a renamed one has its
/// reference updated.
pub open spec fn group_step_of(
    active: bool,
    deleted: bool,
    renamed: bool,
    project_found: bool,
    branch: Seq<char>,
    default_branch: Seq<char>,
) -> GroupStepView {
    if !(active || deleted || renamed) {
        GroupStepView::Nothing
    } else if !project_found {
        GroupStepView::MissingProject
    } else if active {
        let c = push_command_of(branch, default_branch, false);
        GroupStepView::RunJob(c, job_flags_of(c, false), false)
    } else if deleted {
        let c = push_command_of(branch, default_branch, true);
        GroupStepView::RunJob(c, job_flags_of(c, true), true)
    } else {
        GroupStepView::UpdateReference
    }
}

/// The step for one group of a push (see `group_step_of`).
pub fn group_step(group: &GroupedFile, project_found: bool, branch: &str, default_branch: &str) -> (r: GroupStep)
    ensures
        group_step_view(r) == group_step_of(
            group.active is Some,
            group.deleted is Some,
            group.renamed is Some,
            project_found,
            branch@,
            default_branch@,
        ),
{
    let active = group.active.is_some();
    let deleted = group.deleted.is_some();
    let renamed = group.renamed.is_some();
    if !(active || deleted || renamed) {
        return GroupStep::Nothing;
    }
    if !project_found {
        return GroupStep::MissingProject;
    }
    if active || deleted {
        let destroying = !active;
        let c = push_command(branch, default_branch, destroying);
        let f = push_job_flags(c.as_str(), destroying);
        assert(f@.map_values(|x: String| x@) =~= job_flags_of(c@, destroying));
        return GroupStep::RunJob(c, f, destroying);
    }
    GroupStep::UpdateReference
}

/// The report of a renamed claim file: its reference was updated and no job ran.
pub fn rename_output(path: &str, deployment_id: &str) -> (r: CheckRunOutput)
    ensures
        r.title@ == "Renamed file"@,
        r.summary@ == "File `"@ + path@ + "` has been renamed; the reference has been updated for `"@ + deployment_id@ + "`."@,
        r.text is Some,
        r.text->Some_0@ == "No run has been triggered, only the reference has been updated."@,
{
    let mut summary: Vec<char> = Vec::new();
    append_str(&mut summary, "File `");
    append_str(&mut summary, path);
    append_str(&mut summary, "` has been renamed; the reference has been updated for `");
    append_str(&mut summary, deployment_id);
    append_str(&mut summary, "`.");
    CheckRunOutput {
        title: String::from_str("Renamed file"),
        summary: from_chars(summary.as_slice()),
        text: Some(String::from_str("No run has been triggered, only the reference has been updated.")),
    }
}

} // verus!
