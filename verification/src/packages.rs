//! GitHub package events: the webhook payload of a published container package, which kind of
//! artifact (module package, attestation or signature) it carries, and the synthetic events made
//! from packages found by polling the GitHub API.
use vstd::prelude::*;
use crate::stack::text_items;
use crate::text::{append_str, contains, contains_exec, ends_with, ends_with_exec, from_chars, replace_all, replace_str, to_chars};
use crate::stdwrap::{lowercase_of, to_lowercase_string};
use crate::value::{get_entry, object_get, Value};

verus! {

/// The payload of a GitHub `registry_package` / `package` webhook.
#[derive(Debug)]
pub struct GitHubPackageWebhook {
    pub action: String,
    pub registry_package: Option<GitHubPackage>,
    pub package: Option<GitHubPackage>,
    pub repository: GitHubRepository,
    pub installation: Option<GitHubInstallation>,
}

#[derive(Debug)]
pub struct GitHubPackage {
    pub name: String,
    pub package_type: String,
    pub owner: GitHubOwner,
    pub package_version: GitHubPackageVersion,
    pub registry: Option<GitHubRegistry>,
}

#[derive(Debug)]
pub struct GitHubPackageVersion {
    pub version: String,
    pub package_url: Option<String>,
    pub container_metadata: Option<GitHubContainerMetadata>,
}

#[derive(Debug)]
pub struct GitHubContainerMetadata {
    pub tags: Option<Vec<String>>,
    pub tag: Option<GitHubTag>,
}

#[derive(Debug)]
pub struct GitHubTag {
    pub name: String,
}

#[derive(Debug)]
pub struct GitHubRegistry {
    pub url: String,
}

#[derive(Debug)]
pub struct GitHubRepository {
    pub full_name: String,
    pub name: String,
    pub html_url: String,
    pub owner: GitHubOwner,
}

#[derive(Debug)]
pub struct GitHubOwner {
    pub login: String,
}

#[derive(Debug)]
pub struct GitHubInstallation {
    pub id: u64,
}

/// The kind of OCI artifact that a package event is about.
#[derive(PartialEq, Eq, Structural, Clone, Copy, Debug)]
pub enum ArtifactType {
    MainPackage,
    Attestation,
    Signature,
}

/// An attestation's name or tag ends in `.att` or mentions `attestation`.
pub open spec fn names_attestation(s: Seq<char>) -> bool {
    ends_with(s, ".att"@) || contains(s, "attestation"@)
}

/// A signature's name or tag ends in `.sig` or mentions `signature`.
pub open spec fn names_signature(s: Seq<char>) -> bool {
    ends_with(s, ".sig"@) || contains(s, "signature"@)
}

/// The package of the event: `registry_package`, else `package`.
pub open spec fn package_info(w: GitHubPackageWebhook) -> Option<GitHubPackage> {
    match w.registry_package {
        Some(p) => Some(p),
        None => w.package,
    }
}

pub open spec fn info_name(w: GitHubPackageWebhook) -> Seq<char> {
    match package_info(w) {
        Some(p) => p.name@,
        None => Seq::empty(),
    }
}

pub open spec fn info_version(w: GitHubPackageWebhook) -> Seq<char> {
    match package_info(w) {
        Some(p) => p.package_version.version@,
        None => Seq::empty(),
    }
}

/// The kind of a tag: attestation, signature or the package itself.
pub open spec fn kind_of_tag(tag: Seq<char>) -> ArtifactType {
    if names_attestation(tag) {
        ArtifactType::Attestation
    } else if names_signature(tag) {
        ArtifactType::Signature
    } else {
        ArtifactType::MainPackage
    }
}

/// The artifact type and tag of a package event: an attestation or a signature where the
/// package's name or version says so (tagged with the version); else the kind of the first
/// container tag, or of the container's single tag; else the package itself, tagged with the
/// version.
pub open spec fn artifact_of(w: GitHubPackageWebhook) -> (ArtifactType, Seq<char>) {
    let name = info_name(w);
    let version = info_version(w);
    if names_attestation(name) || names_attestation(version) {
        (ArtifactType::Attestation, version)
    } else if names_signature(name) || names_signature(version) {
        (ArtifactType::Signature, version)
    } else {
        match package_info(w) {
            Some(p) => match p.package_version.container_metadata {
                Some(cm) => match cm.tags {
                    Some(tags) if tags@.len() > 0 => (kind_of_tag(tags@[0]@), tags@[0]@),
                    _ => match cm.tag {
                        Some(t) => (kind_of_tag(t.name@), t.name@),
                        None => (ArtifactType::MainPackage, version),
                    },
                },
                None => (ArtifactType::MainPackage, version),
            },
            None => (ArtifactType::MainPackage, version),
        }
    }
}

/// The tag of the package's container: its first tag where its list of tags is not empty,
/// else its single tag, where it has one.
pub open spec fn container_tag(w: GitHubPackageWebhook) -> Option<Seq<char>> {
    match package_info(w) {
        Some(p) => match p.package_version.container_metadata {
            Some(cm) => match cm.tags {
                Some(tags) if tags@.len() > 0 => Some(tags@[0]@),
                _ => match cm.tag {
                    Some(t) => Some(t.name@),
                    None => None,
                },
            },
            None => None,
        },
        None => None,
    }
}

/// The artifact of a package event, by the texts of the package's name, its version and its
/// container tag: where the name or the version ends in `.att` or mentions `attestation`, an
/// attestation fetched by the version; else where one of them ends in `.sig` or mentions
/// `signature`, a signature fetched by the version; else the container tag (see
/// `container_tag`) decides by its own text in the same way (attestation before signature,
/// otherwise the package itself) and is the tag to fetch; with no tag, the package itself,
/// fetched by the version.
pub proof fn law_artifact_follows_the_texts(w: GitHubPackageWebhook)
    ensures
        ({
            let n = info_name(w);
            let v = info_version(w);
            let att = |s: Seq<char>| ends_with(s, ".att"@) || contains(s, "attestation"@);
            let sig = |s: Seq<char>| ends_with(s, ".sig"@) || contains(s, "signature"@);
            artifact_of(w) == if att(n) || att(v) {
                (ArtifactType::Attestation, v)
            } else if sig(n) || sig(v) {
                (ArtifactType::Signature, v)
            } else {
                match container_tag(w) {
                    Some(t) => if att(t) {
                        (ArtifactType::Attestation, t)
                    } else if sig(t) {
                        (ArtifactType::Signature, t)
                    } else {
                        (ArtifactType::MainPackage, t)
                    },
                    None => (ArtifactType::MainPackage, v),
                }
            }
        }),
{
}

fn is_attestation_text(s: &str) -> (b: bool)
    ensures
        b == names_attestation(s@),
{
    let cs = to_chars(s);
    let suffix = to_chars(".att");
    let word = to_chars("attestation");
    ends_with_exec(cs.as_slice(), suffix.as_slice()) || contains_exec(cs.as_slice(), word.as_slice())
}

fn is_signature_text(s: &str) -> (b: bool)
    ensures
        b == names_signature(s@),
{
    let cs = to_chars(s);
    let suffix = to_chars(".sig");
    let word = to_chars("signature");
    ends_with_exec(cs.as_slice(), suffix.as_slice()) || contains_exec(cs.as_slice(), word.as_slice())
}

fn tag_kind(tag: &str) -> (k: ArtifactType)
    ensures
        k == kind_of_tag(tag@),
{
    if is_attestation_text(tag) {
        ArtifactType::Attestation
    } else if is_signature_text(tag) {
        ArtifactType::Signature
    } else {
        ArtifactType::MainPackage
    }
}

/// The package of the event: `registry_package`, else `package`.
pub fn webhook_package(webhook: &GitHubPackageWebhook) -> (r: Option<&GitHubPackage>)
    ensures
        match r {
            Some(p) => package_info(*webhook) == Some(*p),
            None => package_info(*webhook) is None,
        },
{
    match &webhook.registry_package {
        Some(p) => Some(p),
        None => match &webhook.package {
            Some(p) => Some(p),
            None => None,
        },
    }
}

/// The artifact type of a package event and the tag to fetch it by (see `artifact_of`).
pub fn detect_artifact_type_and_tag_from_webhook(webhook: &GitHubPackageWebhook) -> (r: (ArtifactType, String))
    ensures
        r.0 == artifact_of(*webhook).0,
        r.1@ == artifact_of(*webhook).1,
{
    let info = webhook_package(webhook);
    let name = match info {
        Some(p) => p.name.clone(),
        None => String::new(),
    };
    let version = match info {
        Some(p) => p.package_version.version.clone(),
        None => String::new(),
    };
    assert(name@ == info_name(*webhook));
    assert(version@ == info_version(*webhook));
    if is_attestation_text(name.as_str()) || is_attestation_text(version.as_str()) {
        return (ArtifactType::Attestation, version);
    }
    if is_signature_text(name.as_str()) || is_signature_text(version.as_str()) {
        return (ArtifactType::Signature, version);
    }
    if let Some(p) = info {
        if let Some(cm) = &p.package_version.container_metadata {
            if let Some(tags) = &cm.tags {
                if tags.len() > 0 {
                    let tag = tags[0].clone();
                    return (tag_kind(tag.as_str()), tag);
                }
            }
            if let Some(t) = &cm.tag {
                let tag = t.name.clone();
                return (tag_kind(tag.as_str()), tag);
            }
        }
    }
    (ArtifactType::MainPackage, version)
}

/// A point in time: seconds since the Unix epoch and the nanoseconds within that second.
#[derive(PartialEq, Eq, Structural, Clone, Copy, Debug)]
pub struct Timestamp {
    pub seconds: i64,
    pub nanos: u32,
}

pub open spec fn is_later(a: Timestamp, b: Timestamp) -> bool {
    a.seconds > b.seconds || (a.seconds == b.seconds && a.nanos > b.nanos)
}

/// Whether `a` is after `b`.
pub fn later_than(a: Timestamp, b: Timestamp) -> (r: bool)
    ensures
        r == is_later(a, b),
{
    a.seconds > b.seconds || (a.seconds == b.seconds && a.nanos > b.nanos)
}

/// A container package of an organization, as the GitHub API lists it.
#[derive(Debug)]
pub struct Package {
    pub id: u64,
    pub name: String,
    pub package_type: String,
    pub created_at: Timestamp,
    pub updated_at: Timestamp,
    pub html_url: String,
}

/// A version of a container package, as the GitHub API lists it.
#[derive(Debug)]
pub struct PackageVersion {
    pub id: u64,
    pub name: String,
    pub created_at: Timestamp,
    pub updated_at: Timestamp,
    pub metadata: Value,
    pub html_url: String,
}

/// A package with its versions created since some point in time.
#[derive(Debug)]
pub struct PackageWithVersions {
    pub package: Package,
    pub recent_versions: Vec<PackageVersion>,
}

/// The string tags under `container.tags` in a version's metadata, in order.
pub open spec fn container_tags(metadata: Value) -> Seq<Seq<char>> {
    match object_get(metadata, "container"@) {
        Some(c) => match object_get(c, "tags"@) {
            Some(Value::List(items)) => text_items(items@),
            _ => Seq::empty(),
        },
        None => Seq::empty(),
    }
}

/// The tags of a version: its container tags where it has some, else its name.
pub open spec fn version_tags(v: PackageVersion) -> Seq<Seq<char>> {
    if container_tags(v.metadata).len() > 0 {
        container_tags(v.metadata)
    } else {
        seq![v.name@]
    }
}

pub open spec fn metadata_matches(m: GitHubContainerMetadata, tags: Seq<Seq<char>>) -> bool {
    &&& m.tags is Some
    &&& m.tags->Some_0@.map_values(|t: String| t@) == tags
    &&& m.tag is Some
    &&& m.tag->Some_0.name@ == tags[0]
}

fn string_items(items: &Vec<Value>) -> (r: Vec<String>)
    ensures
        r@.map_values(|t: String| t@) == text_items(items@),
{
    let mut r: Vec<String> = Vec::new();
    let mut i: usize = 0;
    while i < items.len()
        invariant
            i <= items@.len(),
            r@.map_values(|t: String| t@) == text_items(items@.take(i as int)),
        decreases items.len() - i,
    {
        assert(items@.take(i + 1).drop_last() =~= items@.take(i as int));
        let ghost before = r@.map_values(|t: String| t@);
        match &items[i] {
            Value::Text(s) => {
                r.push(s.clone());
                assert(r@.map_values(|t: String| t@) =~= before.push(s@));
            },
            _ => {},
        }
        i = i + 1;
    }
    assert(items@.take(items@.len() as int) =~= items@);
    r
}

/// The container metadata of a version: its `container.tags` (the tag being the first), or its
/// name as the only tag where it has none.
pub fn extract_container_metadata_from_version(version: &PackageVersion) -> (r: Option<GitHubContainerMetadata>)
    ensures
        r is Some,
        metadata_matches(r->Some_0, version_tags(*version)),
{
    if let Some(container) = get_entry(&version.metadata, "container") {
        if let Some(tags_value) = get_entry(container, "tags") {
            if let Value::List(items) = tags_value {
                let tags = string_items(items);
                if tags.len() > 0 {
                    let first = tags[0].clone();
                    assert(tags@.map_values(|t: String| t@)[0] == tags@[0]@);
                    return Some(GitHubContainerMetadata { tags: Some(tags), tag: Some(GitHubTag { name: first }) });
                }
            }
        }
    }
    let mut tags: Vec<String> = Vec::new();
    tags.push(version.name.clone());
    assert(tags@.map_values(|t: String| t@) =~= seq![version.name@]);
    Some(GitHubContainerMetadata { tags: Some(tags), tag: Some(GitHubTag { name: version.name.clone() }) })
}

/// Every version of every package, paired with its package, in order.
pub open spec fn version_pairs(pws: Seq<PackageWithVersions>) -> Seq<(Package, PackageVersion)>
    decreases pws.len(),
{
    if pws.len() == 0 {
        Seq::empty()
    } else {
        version_pairs(pws.drop_last()) + pws.last().recent_versions@.map_values(
            |v: PackageVersion| (pws.last().package, v),
        )
    }
}

/// The synthetic package of one version: its package's name and type, the organization as owner,
/// the version's name, page and tags, and the `ghcr.io` registry.
pub open spec fn package_for(p: Package, v: PackageVersion, org: Seq<char>, g: GitHubPackage) -> bool {
    &&& g.name@ == p.name@
    &&& g.package_type@ == p.package_type@
    &&& g.owner.login@ == org
    &&& g.package_version.version@ == v.name@
    &&& g.package_version.package_url is Some
    &&& g.package_version.package_url->Some_0@ == v.html_url@
    &&& g.package_version.container_metadata is Some
    &&& metadata_matches(g.package_version.container_metadata->Some_0, version_tags(v))
    &&& g.registry is Some
    &&& g.registry->Some_0.url@ == "ghcr.io"@
}

/// The synthetic webhook event of one version: the action, the package as both `registry_package`
/// and `package`, a repository `org/package` of the organization, and no installation.
pub open spec fn event_for(p: Package, v: PackageVersion, org: Seq<char>, action: Seq<char>, e: GitHubPackageWebhook) -> bool {
    &&& e.action@ == action
    &&& e.registry_package is Some
    &&& package_for(p, v, org, e.registry_package->Some_0)
    &&& e.package is Some
    &&& package_for(p, v, org, e.package->Some_0)
    &&& e.repository.full_name@ == org + "/"@ + p.name@
    &&& e.repository.name@ == p.name@
    &&& e.repository.html_url@ == p.html_url@
    &&& e.repository.owner.login@ == org
    &&& e.installation is None
}

fn synthetic_package(p: &Package, v: &PackageVersion, org: &str) -> (g: GitHubPackage)
    ensures
        package_for(*p, *v, org@, g),
{
    GitHubPackage {
        name: p.name.clone(),
        package_type: p.package_type.clone(),
        owner: GitHubOwner { login: String::from_str(org) },
        package_version: GitHubPackageVersion {
            version: v.name.clone(),
            package_url: Some(v.html_url.clone()),
            container_metadata: extract_container_metadata_from_version(v),
        },
        registry: Some(GitHubRegistry { url: String::from_str("ghcr.io") }),
    }
}

/// One synthetic webhook event per recent version of each package, in order, as if GitHub had
/// sent it with the given action.
pub fn convert_packages_to_webhook_events(
    packages_with_versions: Vec<PackageWithVersions>,
    org: &str,
    action: &str,
) -> (r: Vec<GitHubPackageWebhook>)
    ensures
        r@.len() == version_pairs(packages_with_versions@).len(),
        forall|i: int|
            0 <= i < r@.len() ==> event_for(
                version_pairs(packages_with_versions@)[i].0,
                version_pairs(packages_with_versions@)[i].1,
                org@,
                action@,
                #[trigger] r@[i],
            ),
{
    let ghost pws = packages_with_versions@;
    let mut events: Vec<GitHubPackageWebhook> = Vec::new();
    let mut i: usize = 0;
    while i < packages_with_versions.len()
        invariant
            pws == packages_with_versions@,
            i <= pws.len(),
            events@.len() == version_pairs(pws.take(i as int)).len(),
            forall|q: int|
                0 <= q < events@.len() ==> event_for(
                    version_pairs(pws.take(i as int))[q].0,
                    version_pairs(pws.take(i as int))[q].1,
                    org@,
                    action@,
                    #[trigger] events@[q],
                ),
        decreases packages_with_versions.len() - i,
    {
        let pw = &packages_with_versions[i];
        let ghost prev = version_pairs(pws.take(i as int));
        let ghost mine = pw.recent_versions@.map_values(|v: PackageVersion| (pw.package, v));
        assert(pws.take(i + 1).drop_last() =~= pws.take(i as int));
        assert(pws.take(i + 1).last() == *pw);
        assert(version_pairs(pws.take(i + 1)) == prev + mine);
        let mut mut_full_name: Vec<char> = Vec::new();
        crate::text::append_str(&mut mut_full_name, org);
        crate::text::append_str(&mut mut_full_name, "/");
        crate::text::append_str(&mut mut_full_name, pw.package.name.as_str());
        let full_name = crate::text::from_chars(mut_full_name.as_slice());
        let mut j: usize = 0;
        while j < pw.recent_versions.len()
            invariant
                pws == packages_with_versions@,
                i < pws.len(),
                *pw == pws[i as int],
                mine == pw.recent_versions@.map_values(|v: PackageVersion| (pw.package, v)),
                full_name@ == org@ + "/"@ + pw.package.name@,
                j <= pw.recent_versions@.len(),
                events@.len() == prev.len() + j,
                forall|q: int|
                    0 <= q < events@.len() ==> event_for(
                        (prev + mine)[q].0,
                        (prev + mine)[q].1,
                        org@,
                        action@,
                        #[trigger] events@[q],
                    ),
            decreases pw.recent_versions.len() - j,
        {
            let v = &pw.recent_versions[j];
            let e = GitHubPackageWebhook {
                action: String::from_str(action),
                registry_package: Some(synthetic_package(&pw.package, v, org)),
                package: Some(synthetic_package(&pw.package, v, org)),
                repository: GitHubRepository {
                    full_name: full_name.clone(),
                    name: pw.package.name.clone(),
                    html_url: pw.package.html_url.clone(),
                    owner: GitHubOwner { login: String::from_str(org) },
                },
                installation: None,
            };
            assert((prev + mine)[prev.len() + j] == (pw.package, *v));
            let ghost e0 = events@;
            events.push(e);
            assert forall|q: int| 0 <= q < events@.len() implies event_for(
                (prev + mine)[q].0,
                (prev + mine)[q].1,
                org@,
                action@,
                #[trigger] events@[q],
            ) by {
                if q < e0.len() {
                    assert(events@[q] == e0[q]);
                }
            }
            j = j + 1;
        }
        i = i + 1;
    }
    assert(pws.take(pws.len() as int) =~= pws);
    events
}

/// The artifacts a package event makes the library fetch: an attestation brings its signature
/// too (a signature is always published before the attestation); any other artifact comes alone.
pub open spec fn artifacts_for(t: ArtifactType) -> Seq<ArtifactType> {
    if t == ArtifactType::Attestation {
        seq![ArtifactType::Attestation, ArtifactType::Signature]
    } else {
        seq![t]
    }
}

pub fn artifacts_to_process(t: ArtifactType) -> (r: Vec<ArtifactType>)
    ensures
        r@ == artifacts_for(t),
{
    let mut r: Vec<ArtifactType> = Vec::new();
    r.push(t);
    if t == ArtifactType::Attestation {
        r.push(ArtifactType::Signature);
    }
    assert(r@ =~= artifacts_for(t));
    r
}

/// The tag an artifact is fetched by: a signature's tag is the detected tag with `.att`
/// replaced by `.sig`; any other artifact uses the detected tag.
pub open spec fn oci_tag_of(t: ArtifactType, detected: Seq<char>) -> Seq<char> {
    if t == ArtifactType::Signature {
        replace_all(detected, ".att"@, ".sig"@)
    } else {
        detected
    }
}

pub fn oci_tag_for(t: ArtifactType, detected_tag: &str) -> (r: String)
    ensures
        r@ == oci_tag_of(t, detected_tag@),
{
    if t == ArtifactType::Signature {
        proof {
            reveal_strlit(".att");
        }
        replace_str(detected_tag, ".att", ".sig")
    } else {
        String::from_str(detected_tag)
    }
}

/// `ghcr.io/<owner>/<package>:<tag>`, owner and package in lowercase.
pub open spec fn oci_url_of(owner: Seq<char>, package: Seq<char>, tag: Seq<char>) -> Seq<char> {
    "ghcr.io/"@ + lowercase_of(owner) + "/"@ + lowercase_of(package) + ":"@ + tag
}

pub fn oci_package_url(owner: &str, package_name: &str, tag: &str) -> (r: String)
    ensures
        r@ == oci_url_of(owner@, package_name@, tag@),
{
    let o = to_lowercase_string(owner);
    let p = to_lowercase_string(package_name);
    let mut out: Vec<char> = Vec::new();
    append_str(&mut out, "ghcr.io/");
    append_str(&mut out, o.as_str());
    append_str(&mut out, "/");
    append_str(&mut out, p.as_str());
    append_str(&mut out, ":");
    append_str(&mut out, tag);
    assert(out@ =~= oci_url_of(owner@, package_name@, tag@));
    from_chars(out.as_slice())
}

/// The owner of the event's package, else the owner of its repository.
pub open spec fn owner_of(w: GitHubPackageWebhook) -> Seq<char> {
    match package_info(w) {
        Some(p) => p.owner.login@,
        None => w.repository.owner.login@,
    }
}

/// The name of the event's package, `unknown` where the event has none.
pub open spec fn name_or_unknown(w: GitHubPackageWebhook) -> Seq<char> {
    match package_info(w) {
        Some(p) => p.name@,
        None => "unknown"@,
    }
}

pub fn package_owner(webhook: &GitHubPackageWebhook) -> (r: String)
    ensures
        r@ == owner_of(*webhook),
{
    match webhook_package(webhook) {
        Some(p) => p.owner.login.clone(),
        None => webhook.repository.owner.login.clone(),
    }
}

pub fn package_name(webhook: &GitHubPackageWebhook) -> (r: String)
    ensures
        r@ == name_or_unknown(*webhook),
{
    match webhook_package(webhook) {
        Some(p) => p.name.clone(),
        None => String::from_str("unknown"),
    }
}

/// One artifact to fetch from the registry: its type, tag and image reference.
#[derive(Debug)]
pub struct ArtifactFetch {
    pub artifact_type: ArtifactType,
    pub oci_tag: String,
    pub oci_package_url: String,
}

/// The artifacts to fetch for a published package: those `artifacts_for` gives for its detected
/// type, each with its tag and `ghcr.io` image reference.
pub fn plan_artifact_fetches(webhook: &GitHubPackageWebhook) -> (r: Vec<ArtifactFetch>)
    ensures
        r@.len() == artifacts_for(artifact_of(*webhook).0).len(),
        forall|i: int| 0 <= i < r@.len() ==> {
            let t = artifacts_for(artifact_of(*webhook).0)[i];
            let tag = oci_tag_of(t, artifact_of(*webhook).1);
            &&& (#[trigger] r@[i]).artifact_type == t
            &&& r@[i].oci_tag@ == tag
            &&& r@[i].oci_package_url@ == oci_url_of(owner_of(*webhook), name_or_unknown(*webhook), tag)
        },
{
    let (detected_type, detected_tag) = detect_artifact_type_and_tag_from_webhook(webhook);
    let owner = package_owner(webhook);
    let name = package_name(webhook);
    let kinds = artifacts_to_process(detected_type);
    let mut r: Vec<ArtifactFetch> = Vec::new();
    let mut i: usize = 0;
    while i < kinds.len()
        invariant
            kinds@ == artifacts_for(artifact_of(*webhook).0),
            detected_tag@ == artifact_of(*webhook).1,
            owner@ == owner_of(*webhook),
            name@ == name_or_unknown(*webhook),
            i <= kinds@.len(),
            r@.len() == i,
            forall|q: int| 0 <= q < i ==> {
                let t = kinds@[q];
                let tag = oci_tag_of(t, detected_tag@);
                &&& (#[trigger] r@[q]).artifact_type == t
                &&& r@[q].oci_tag@ == tag
                &&& r@[q].oci_package_url@ == oci_url_of(owner@, name@, tag)
            },
        decreases kinds.len() - i,
    {
        let t = kinds[i];
        let tag = oci_tag_for(t, detected_tag.as_str());
        let url = oci_package_url(owner.as_str(), name.as_str(), tag.as_str());
        r.push(ArtifactFetch { artifact_type: t, oci_tag: tag, oci_package_url: url });
        i = i + 1;
    }
    r
}

/// Where a fetched artifact is kept: the local archive `/tmp/<tag>.tar.gz` and its key
/// `oci-artifacts/<tag>.tar.gz` in the storage bucket.
pub fn artifact_storage_paths(tag: &str) -> (r: (String, String))
    ensures
        r.0@ == "/tmp/"@ + tag@ + ".tar.gz"@,
        r.1@ == "oci-artifacts/"@ + tag@ + ".tar.gz"@,
{
    let mut a: Vec<char> = Vec::new();
    append_str(&mut a, "/tmp/");
    append_str(&mut a, tag);
    append_str(&mut a, ".tar.gz");
    let mut b: Vec<char> = Vec::new();
    append_str(&mut b, "oci-artifacts/");
    append_str(&mut b, tag);
    append_str(&mut b, ".tar.gz");
    (from_chars(a.as_slice()), from_chars(b.as_slice()))
}

/// Where a module's OCI artifacts are kept, and by which tags.
#[derive(Debug)]
pub struct OciArtifactSet {
    pub oci_artifact_path: String,
    pub tag_main: String,
    pub tag_attestation: Option<String>,
    pub tag_signature: Option<String>,
    pub digest: String,
}

/// The artifact set of a published module package: its tag, and the attestation and signature
/// tags that the registry derives from the digest (`:` becomes `-`, then `.att` / `.sig`).
pub fn oci_artifact_set_for(tag: &str, digest: &str) -> (r: OciArtifactSet)
    ensures
        r.oci_artifact_path@ == "oci-artifacts/"@,
        r.tag_main@ == tag@,
        r.tag_attestation is Some,
        r.tag_attestation->Some_0@ == replace_all(digest@, ":"@, "-"@) + ".att"@,
        r.tag_signature is Some,
        r.tag_signature->Some_0@ == replace_all(digest@, ":"@, "-"@) + ".sig"@,
        r.digest@ == digest@,
{
    proof {
        reveal_strlit(":");
    }
    let d = replace_str(digest, ":", "-");
    let mut att: Vec<char> = Vec::new();
    append_str(&mut att, d.as_str());
    append_str(&mut att, ".att");
    let mut sig: Vec<char> = Vec::new();
    append_str(&mut sig, d.as_str());
    append_str(&mut sig, ".sig");
    OciArtifactSet {
        oci_artifact_path: String::from_str("oci-artifacts/"),
        tag_main: String::from_str(tag),
        tag_attestation: Some(from_chars(att.as_slice())),
        tag_signature: Some(from_chars(sig.as_slice())),
        digest: String::from_str(digest),
    }
}

/// What a package event asks for.
#[derive(PartialEq, Eq, Structural, Clone, Copy, Debug)]
pub enum PackageAction {
    Published,
    Updated,
    Unsupported,
}

pub open spec fn action_of(action: Seq<char>) -> PackageAction {
    if action == "published"@ {
        PackageAction::Published
    } else if action == "updated"@ {
        PackageAction::Updated
    } else {
        PackageAction::Unsupported
    }
}

pub fn package_action(action: &str) -> (r: PackageAction)
    ensures
        r == action_of(action@),
{
    let a = String::from_str(action);
    if a == String::from_str("published") {
        PackageAction::Published
    } else if a == String::from_str("updated") {
        PackageAction::Updated
    } else {
        PackageAction::Unsupported
    }
}

/// The body of the response to a package event that was handled without error.
pub open spec fn response_body_of(action: Seq<char>, package_name: Seq<char>) -> Seq<char> {
    match action_of(action) {
        PackageAction::Published => "Package publish event processed successfully for "@ + package_name,
        PackageAction::Updated => "Package update event processed successfully for "@ + package_name,
        PackageAction::Unsupported => "Unsupported package action: "@ + action,
    }
}

pub fn package_event_response_body(action: &str, package_name: &str) -> (r: String)
    ensures
        r@ == response_body_of(action@, package_name@),
{
    let mut out: Vec<char> = Vec::new();
    match package_action(action) {
        PackageAction::Published => {
            append_str(&mut out, "Package publish event processed successfully for ");
            append_str(&mut out, package_name);
        },
        PackageAction::Updated => {
            append_str(&mut out, "Package update event processed successfully for ");
            append_str(&mut out, package_name);
        },
        PackageAction::Unsupported => {
            append_str(&mut out, "Unsupported package action: ");
            append_str(&mut out, action);
        },
    }
    from_chars(out.as_slice())
}

} // verus!
