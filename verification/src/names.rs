//! The naming rules of deployments, modules, stacks and the claims inside stacks.
use vstd::prelude::*;
use crate::text::{append_str, from_chars, is_ascii_digit, is_ascii_lower, to_chars};
use crate::casing::ascii_upper;
use crate::stdwrap::{
    all_ascii, char_is_alphanumeric, char_is_uppercase, is_alphanumeric_char, is_uppercase_char, lowercase_of,
    to_lowercase_string, to_uppercase_string, uppercase_of,
};
use crate::manifest::{DeploymentManifest, ErrorView, ModuleError, ModuleManifest, StackManifest};

verus! {

/// A deployment name or namespace: 1 to 63 characters, each a lowercase letter, a digit or `-`,
/// the first and the last not `-`.
pub open spec fn is_deployment_name(s: Seq<char>) -> bool {
    &&& 1 <= s.len() <= 63
    &&& forall|i: int| 0 <= i < s.len() ==> is_ascii_lower(#[trigger] s[i]) || is_ascii_digit(s[i]) || s[i] == '-'
    &&& s[0] != '-'
    &&& s.last() != '-'
}

pub fn validate_name(name: &str) -> (b: bool)
    ensures
        b == is_deployment_name(name@),
{
    let cs = to_chars(name);
    if cs.len() < 1 || cs.len() > 63 {
        return false;
    }
    let mut i: usize = 0;
    while i < cs.len()
        invariant
            cs@ == name@,
            i <= cs@.len(),
            forall|j: int| 0 <= j < i ==> is_ascii_lower(#[trigger] cs@[j]) || is_ascii_digit(cs@[j]) || cs@[j] == '-',
        decreases cs.len() - i,
    {
        let c = cs[i];
        if !(('a' <= c && c <= 'z') || ('0' <= c && c <= '9') || c == '-') {
            return false;
        }
        i = i + 1;
    }
    cs[0] != '-' && cs[cs.len() - 1] != '-'
}

/// Lowercase letters and digits, at least two characters, starting with a letter.
pub open spec fn is_lower_alnum_name(s: Seq<char>) -> bool {
    &&& s.len() >= 2
    &&& is_ascii_lower(s[0])
    &&& forall|i: int| 1 <= i < s.len() ==> is_ascii_lower(#[trigger] s[i]) || is_ascii_digit(s[i])
}

pub fn is_lower_alnum(name: &str) -> (b: bool)
    ensures
        b == is_lower_alnum_name(name@),
{
    let cs = to_chars(name);
    if cs.len() < 2 || !('a' <= cs[0] && cs[0] <= 'z') {
        return false;
    }
    let mut i: usize = 1;
    while i < cs.len()
        invariant
            cs@ == name@,
            1 <= i <= cs@.len(),
            forall|j: int| 1 <= j < i ==> is_ascii_lower(#[trigger] cs@[j]) || is_ascii_digit(cs@[j]),
        decreases cs.len() - i,
    {
        let c = cs[i];
        if !(('a' <= c && c <= 'z') || ('0' <= c && c <= '9')) {
            return false;
        }
        i = i + 1;
    }
    true
}

pub open spec fn all_alphanumeric(s: Seq<char>) -> bool {
    forall|i: int| 0 <= i < s.len() ==> char_is_alphanumeric(#[trigger] s[i])
}

/// What is wrong with a module or stack name pair, checked in this order: the metadata name,
/// the first character of the module or stack name, its characters, and their match.
pub open spec fn name_pair_problem(name: Seq<char>, kind_name: Seq<char>) -> Option<ErrorView> {
    if !is_lower_alnum_name(name) {
        Some(ErrorView::InvalidName(name))
    } else if !char_is_uppercase(kind_name[0]) {
        Some(ErrorView::NameNotCapitalized(kind_name))
    } else if !all_alphanumeric(kind_name) {
        Some(ErrorView::NameNotAlphanumeric(kind_name))
    } else if lowercase_of(kind_name) != name {
        Some(ErrorView::NameMismatch(name, kind_name))
    } else {
        None
    }
}

/// A module or stack name pair is accepted exactly when the metadata name is lowercase
/// letters and digits, the module or stack name starts with an uppercase character and is
/// alphanumeric, and the metadata name is exactly its lowercase; a pair that passes the other
/// checks but whose metadata name differs from that lowercase is a mismatch.
pub proof fn law_accepted_names_match_exactly(name: Seq<char>, kind_name: Seq<char>)
    ensures
        (name_pair_problem(name, kind_name) is None) <==> (is_lower_alnum_name(name) && char_is_uppercase(kind_name[0])
            && all_alphanumeric(kind_name) && lowercase_of(kind_name) == name),
        is_lower_alnum_name(name) && char_is_uppercase(kind_name[0]) && all_alphanumeric(kind_name)
            && lowercase_of(kind_name) != name ==> name_pair_problem(name, kind_name) == Some(ErrorView::NameMismatch(name, kind_name)),
{
}

fn copy_str(s: &String) -> (r: String)
    ensures
        r@ == s@,
{
    s.clone()
}

fn check_name_pair(name: &String, kind_name: &String) -> (r: Result<(), ModuleError>)
    requires
        is_lower_alnum_name(name@) ==> kind_name@.len() > 0,
    ensures
        match r {
            Ok(()) => name_pair_problem(name@, kind_name@) is None,
            Err(e) => name_pair_problem(name@, kind_name@) == Some(e@),
        },
        r is Ok ==> lowercase_of(kind_name@) == name@,
{
    proof {
        law_accepted_names_match_exactly(name@, kind_name@);
    }
    if !is_lower_alnum(name.as_str()) {
        return Err(ModuleError::InvalidName(copy_str(name)));
    }
    let tc = to_chars(kind_name.as_str());
    if !is_uppercase_char(tc[0]) {
        return Err(ModuleError::NameNotCapitalized(copy_str(kind_name)));
    }
    let mut i: usize = 0;
    while i < tc.len()
        invariant
            tc@ == kind_name@,
            kind_name@.len() > 0,
            is_lower_alnum_name(name@),
            char_is_uppercase(kind_name@[0]),
            i <= tc@.len(),
            forall|j: int| 0 <= j < i ==> char_is_alphanumeric(#[trigger] tc@[j]),
        decreases tc.len() - i,
    {
        if !is_alphanumeric_char(tc[i]) {
            assert(!char_is_alphanumeric(kind_name@[i as int]));
            return Err(ModuleError::NameNotAlphanumeric(copy_str(kind_name)));
        }
        i = i + 1;
    }
    let lower = to_lowercase_string(kind_name.as_str());
    if lower != *name {
        return Err(ModuleError::NameMismatch(copy_str(name), copy_str(kind_name)));
    }
    Ok(())
}

/// Checks the names of a module manifest: its name is lowercase letters and digits, and its
/// module name starts uppercase, is alphanumeric and lowercases to the name.
pub fn validate_module_name(module_manifest: &ModuleManifest) -> (r: Result<(), ModuleError>)
    requires
        is_lower_alnum_name(module_manifest.name@) ==> module_manifest.module_name@.len() > 0,
    ensures
        match r {
            Ok(()) => name_pair_problem(module_manifest.name@, module_manifest.module_name@) is None,
            Err(e) => name_pair_problem(module_manifest.name@, module_manifest.module_name@) == Some(e@),
        },
        r is Ok ==> lowercase_of(module_manifest.module_name@) == module_manifest.name@,
{
    check_name_pair(&module_manifest.name, &module_manifest.module_name)
}

/// Checks the names of a stack manifest, by the same rules as a module's.
pub fn validate_stack_name(stack_manifest: &StackManifest) -> (r: Result<(), ModuleError>)
    requires
        is_lower_alnum_name(stack_manifest.name@) ==> stack_manifest.stack_name@.len() > 0,
    ensures
        match r {
            Ok(()) => name_pair_problem(stack_manifest.name@, stack_manifest.stack_name@) is None,
            Err(e) => name_pair_problem(stack_manifest.name@, stack_manifest.stack_name@) == Some(e@),
        },
        r is Ok ==> lowercase_of(stack_manifest.stack_name@) == stack_manifest.name@,
{
    check_name_pair(&stack_manifest.name, &stack_manifest.stack_name)
}

/// The kind of a module manifest must be `Module`.
pub fn validate_module_kind(module_manifest: &ModuleManifest) -> (r: Result<(), ModuleError>)
    ensures
        match r {
            Ok(()) => module_manifest.kind@ == "Module"@,
            Err(e) => module_manifest.kind@ != "Module"@ && e@ == ErrorView::InvalidKind(
                "Module"@,
                module_manifest.kind@,
            ),
        },
{
    let expected = String::from_str("Module");
    if module_manifest.kind != expected {
        return Err(ModuleError::InvalidKind(expected, copy_str(&module_manifest.kind)));
    }
    Ok(())
}

/// The kind of a stack manifest must be `Stack`.
pub fn validate_stack_kind(stack_manifest: &StackManifest) -> (r: Result<(), ModuleError>)
    ensures
        match r {
            Ok(()) => stack_manifest.kind@ == "Stack"@,
            Err(e) => stack_manifest.kind@ != "Stack"@ && e@ == ErrorView::InvalidKind(
                "Stack"@,
                stack_manifest.kind@,
            ),
        },
{
    let expected = String::from_str("Stack");
    if stack_manifest.kind != expected {
        return Err(ModuleError::InvalidKind(expected, copy_str(&stack_manifest.kind)));
    }
    Ok(())
}

/// A claim inside a stack has a name of lowercase letters and digits.
pub fn validate_stack_module_claim_name(claim: &DeploymentManifest) -> (r: Result<(), ModuleError>)
    ensures
        match r {
            Ok(()) => is_lower_alnum_name(claim.metadata.name@),
            Err(e) => !is_lower_alnum_name(claim.metadata.name@) && e@ == ErrorView::InvalidClaimName(
                claim.metadata.name@,
            ),
        },
{
    if !is_lower_alnum(claim.metadata.name.as_str()) {
        return Err(ModuleError::InvalidClaimName(copy_str(&claim.metadata.name)));
    }
    Ok(())
}

/// The region is `N/A` in any letter case: its uppercase (`str::to_uppercase`, which raises
/// just the ASCII letters of an ASCII text) is `N/A`.
pub open spec fn region_is_na(region: Seq<char>) -> bool {
    if all_ascii(region) {
        region.map_values(|c: char| ascii_upper(c)) == "N/A"@
    } else {
        uppercase_of(region) == "N/A"@
    }
}

/// A claim inside a stack has the region `N/A`, in any letter case.
pub fn validate_stack_module_claim_region_is_na(claim: &DeploymentManifest) -> (r: Result<(), ModuleError>)
    ensures
        match r {
            Ok(()) => region_is_na(claim.spec.region@),
            Err(e) => !region_is_na(claim.spec.region@) && e@ == ErrorView::ClaimRegionNotNa(
                claim.metadata.name@,
                claim.spec.region@,
            ),
        },
{
    let upper = to_uppercase_string(claim.spec.region.as_str());
    let na = String::from_str("N/A");
    if upper != na {
        return Err(ModuleError::ClaimRegionNotNa(copy_str(&claim.metadata.name), copy_str(&claim.spec.region)));
    }
    Ok(())
}

/// Modules and stacks may not share a name: publishing `name` as a stack fails where a module
/// of that name exists, and as a module where a stack of that name exists.
pub fn check_name_free(name: &str, is_stack: bool, other_kind_exists: bool) -> (r: Result<(), ModuleError>)
    ensures
        r is Ok <==> !other_kind_exists,
        r matches Err(e) ==> e@ == (if is_stack {
            ErrorView::NameTakenByModule(name@)
        } else {
            ErrorView::NameTakenByStack(name@)
        }),
{
    if !other_kind_exists {
        return Ok(());
    }
    if is_stack {
        Err(ModuleError::NameTakenByModule(String::from_str(name)))
    } else {
        Err(ModuleError::NameTakenByStack(String::from_str(name)))
    }
}

/// The field of the manifest that holds the module or stack name.
pub open spec fn name_field(is_stack: bool) -> Seq<char> {
    if is_stack {
        "stackName"@
    } else {
        "moduleName"@
    }
}

/// What users read of an error of validating a module's (or, where `is_stack`, a stack's)
/// manifest, its claims or its name; `None` for the errors that carry no such text.
pub open spec fn validation_text(e: ErrorView, is_stack: bool) -> Option<Seq<char>> {
    match e {
        ErrorView::InvalidName(n) => Some(
            (if is_stack {
                "The name "@
            } else {
                "Module name "@
            }) + n + " must only use lowercase characters and numbers."@,
        ),
        ErrorView::NameNotCapitalized(n) => Some(
            "The "@ + name_field(is_stack) + " "@ + n + " must start with an uppercase character."@,
        ),
        ErrorView::NameNotAlphanumeric(n) => Some(
            "The "@ + name_field(is_stack) + " "@ + n
                + " must only contain alphanumeric characters (no hyphens, underscores, or special characters)."@,
        ),
        ErrorView::NameMismatch(n, m) => Some(
            "The name "@ + n + " must exactly match lowercase of the "@ + name_field(is_stack)
                + " specified under spec "@ + m + "."@,
        ),
        ErrorView::InvalidKind(expected, found) => Some(
            "The kind field in "@ + (if is_stack {
                "stack.yaml"@
            } else {
                "module.yaml"@
            }) + " must be '"@ + expected + "', but found '"@ + found + "'."@,
        ),
        ErrorView::InvalidClaimName(n) => Some("Claim name "@ + n + " must only use lowercase characters and numbers."@),
        ErrorView::ClaimRegionNotNa(c, r) => Some(
            "Claim "@ + c + " has the region \""@ + r
                + "\" but the value must be set to \"N/A\" when used inside stacks, since this value is overridden by the Stacks region parameter when deployed."@,
        ),
        ErrorView::NameTakenByModule(n) => Some(
            "A module with the name '"@ + n + "' already exists. Modules and stacks cannot share the same name."@,
        ),
        ErrorView::NameTakenByStack(n) => Some(
            "A stack with the name '"@ + n + "' already exists. Modules and stacks cannot share the same name."@,
        ),
        _ => None,
    }
}

fn push_name_field(out: &mut Vec<char>, is_stack: bool)
    ensures
        final(out)@ == old(out)@ + name_field(is_stack),
{
    if is_stack {
        append_str(out, "stackName");
    } else {
        append_str(out, "moduleName");
    }
}

impl ModuleError {
    /// The text of a validation error (see `validation_text`).
    pub fn validation_message(&self, is_stack: bool) -> (r: Option<String>)
        ensures
            match r {
                Some(m) => validation_text(self@, is_stack) == Some(m@),
                None => validation_text(self@, is_stack) is None,
            },
    {
        let mut out: Vec<char> = Vec::new();
        match self {
            ModuleError::InvalidName(n) => {
                if is_stack {
                    append_str(&mut out, "The name ");
                } else {
                    append_str(&mut out, "Module name ");
                }
                append_str(&mut out, n.as_str());
                append_str(&mut out, " must only use lowercase characters and numbers.");
            },
            ModuleError::NameNotCapitalized(n) => {
                append_str(&mut out, "The ");
                push_name_field(&mut out, is_stack);
                append_str(&mut out, " ");
                append_str(&mut out, n.as_str());
                append_str(&mut out, " must start with an uppercase character.");
            },
            ModuleError::NameNotAlphanumeric(n) => {
                append_str(&mut out, "The ");
                push_name_field(&mut out, is_stack);
                append_str(&mut out, " ");
                append_str(&mut out, n.as_str());
                append_str(
                    &mut out,
                    " must only contain alphanumeric characters (no hyphens, underscores, or special characters).",
                );
            },
            ModuleError::NameMismatch(n, m) => {
                append_str(&mut out, "The name ");
                append_str(&mut out, n.as_str());
                append_str(&mut out, " must exactly match lowercase of the ");
                push_name_field(&mut out, is_stack);
                append_str(&mut out, " specified under spec ");
                append_str(&mut out, m.as_str());
                append_str(&mut out, ".");
            },
            ModuleError::InvalidKind(expected, found) => {
                append_str(&mut out, "The kind field in ");
                if is_stack {
                    append_str(&mut out, "stack.yaml");
                } else {
                    append_str(&mut out, "module.yaml");
                }
                append_str(&mut out, " must be '");
                append_str(&mut out, expected.as_str());
                append_str(&mut out, "', but found '");
                append_str(&mut out, found.as_str());
                append_str(&mut out, "'.");
            },
            ModuleError::InvalidClaimName(n) => {
                append_str(&mut out, "Claim name ");
                append_str(&mut out, n.as_str());
                append_str(&mut out, " must only use lowercase characters and numbers.");
            },
            ModuleError::ClaimRegionNotNa(c, r) => {
                append_str(&mut out, "Claim ");
                append_str(&mut out, c.as_str());
                append_str(&mut out, " has the region \"");
                append_str(&mut out, r.as_str());
                append_str(
                    &mut out,
                    "\" but the value must be set to \"N/A\" when used inside stacks, since this value is overridden by the Stacks region parameter when deployed.",
                );
            },
            ModuleError::NameTakenByModule(n) => {
                append_str(&mut out, "A module with the name '");
                append_str(&mut out, n.as_str());
                append_str(&mut out, "' already exists. Modules and stacks cannot share the same name.");
            },
            ModuleError::NameTakenByStack(n) => {
                append_str(&mut out, "A stack with the name '");
                append_str(&mut out, n.as_str());
                append_str(&mut out, "' already exists. Modules and stacks cannot share the same name.");
            },
            _ => {
                return None;
            },
        }
        let m = from_chars(out.as_slice());
        assert(validation_text(self@, is_stack) == Some(m@)) by {
            assert(validation_text(self@, is_stack)->Some_0 =~= out@);
        }
        Some(m)
    }
}

} // verus!
