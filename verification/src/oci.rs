//! An OCI registry that modules are pushed to and pulled from: where an artifact goes, and with
//! which credentials and protocol the registry is reached.
use vstd::prelude::*;
use crate::text::{append_str, from_chars, replace_all, replace_str};

verus! {

/// An OCI registry and the credentials to push to it.
#[derive(Clone, Debug)]
pub struct OCIRegistryProvider {
    pub registry: String,
    pub username: Option<String>,
    pub password: Option<String>,
}

pub open spec fn opt_view(o: Option<String>) -> Option<Seq<char>> {
    match o {
        Some(s) => Some(s@),
        None => None,
    }
}

/// How the registry is reached: with a user name and password, or anonymously.
#[derive(Debug)]
pub enum RegistryCredentials {
    Anonymous,
    Basic(String, String),
}

/// The protocol the registry is reached by: plain HTTP where `OCI_REGISTRY_ALLOW_HTTP` is set,
/// else HTTPS.
#[derive(PartialEq, Eq, Structural, Clone, Copy, Debug)]
pub enum RegistryProtocol {
    Http,
    Https,
}

pub fn registry_protocol(allow_http: bool) -> (r: RegistryProtocol)
    ensures
        r == if allow_http { RegistryProtocol::Http } else { RegistryProtocol::Https },
{
    if allow_http {
        RegistryProtocol::Http
    } else {
        RegistryProtocol::Https
    }
}

impl OCIRegistryProvider {
    pub fn new(registry: String, username: Option<String>, password: Option<String>) -> (r: Self)
        ensures
            r.registry@ == registry@,
            opt_view(r.username) == opt_view(username),
            opt_view(r.password) == opt_view(password),
    {
        OCIRegistryProvider { registry, username, password }
    }

    /// The credentials to push with: none without a user name; the user name and password
    /// otherwise, which then must be given and not empty.
    pub fn credentials(&self) -> (r: RegistryCredentials)
        requires
            self.username is Some ==> self.password is Some && self.password->Some_0@.len() > 0,
        ensures
            match self.username {
                None => r is Anonymous,
                Some(u) => r matches RegistryCredentials::Basic(a, b) && a@ == u@ && b@ == self.password->Some_0@,
            },
    {
        match &self.username {
            None => RegistryCredentials::Anonymous,
            Some(u) => match &self.password {
                Some(p) => RegistryCredentials::Basic(u.clone(), p.clone()),
                None => RegistryCredentials::Anonymous,
            },
        }
    }

    /// Where a module version is pushed: `<registry>:<module>-<version>`, `+` in the version
    /// written as `-`.
    pub fn module_reference(&self, module: &str, version: &str) -> (r: String)
        ensures
            r@ == self.registry@ + ":"@ + module@ + "-"@ + replace_all(version@, "+"@, "-"@),
    {
        proof {
            reveal_strlit("+");
        }
        let v = replace_str(version, "+", "-");
        let mut out: Vec<char> = Vec::new();
        append_str(&mut out, self.registry.as_str());
        append_str(&mut out, ":");
        append_str(&mut out, module);
        append_str(&mut out, "-");
        append_str(&mut out, v.as_str());
        from_chars(out.as_slice())
    }

    /// Where an artifact is pulled from: `<registry>/<path>`.
    pub fn pull_reference(&self, oci_path: &str) -> (r: String)
        ensures
            r@ == self.registry@ + "/"@ + oci_path@,
    {
        let mut out: Vec<char> = Vec::new();
        append_str(&mut out, self.registry.as_str());
        append_str(&mut out, "/");
        append_str(&mut out, oci_path);
        from_chars(out.as_slice())
    }
}

} // verus!
