//! Versions of Minecraft.

use vstd::prelude::*;

use crate::text::{copy_opt, glue3, opt_text};

verus! {

/// A version, with the address of its server, if it has one.
#[derive(Debug)]
pub struct MinecraftVersion {
    pub id: String,
    pub kind: String,
    pub server_url: Option<String>,
}

#[verifier::ext_equal]
pub struct VersionView {
    pub id: Seq<char>,
    pub kind: Seq<char>,
    pub server_url: Option<Seq<char>>,
}

impl View for MinecraftVersion {
    type V = VersionView;

    open spec fn view(&self) -> VersionView {
        VersionView { id: self.id@, kind: self.kind@, server_url: opt_text(self.server_url) }
    }
}

/// A version in the list of all versions, with the address of what is known
/// of it.
#[derive(Debug)]
pub struct ManifestVersion {
    pub id: String,
    pub kind: String,
    pub url: String,
}

/// How many of the listed versions are shown.
pub open spec fn shown_count(listed: nat, limit: nat) -> nat {
    if limit < listed {
        limit
    } else {
        listed
    }
}

/// The addresses to ask about the first versions.
pub fn package_urls(listed: &Vec<ManifestVersion>, limit: usize) -> (r: Vec<String>)
    ensures
        r@.len() == shown_count(listed@.len(), limit as nat),
        forall|i: int| 0 <= i < r@.len() ==> (#[trigger] r@[i])@ == listed@[i].url@,
{
    let mut out: Vec<String> = Vec::new();
    let mut i: usize = 0;
    while i < listed.len() && i < limit
        invariant
            i <= listed@.len(),
            i <= limit,
            out@.len() == i,
            forall|k: int| 0 <= k < i ==> (#[trigger] out@[k])@ == listed@[k].url@,
        decreases listed@.len() - i,
    {
        out.push(listed[i].url.clone());
        i = i + 1;
    }
    out
}

/// The first versions, with the addresses of their servers. A version whose
/// server could not be asked for has none.
pub fn fetch_versions(listed: &Vec<ManifestVersion>, limit: usize, server_urls: &Vec<Option<String>>) -> (r:
    Vec<MinecraftVersion>)
    requires
        server_urls@.len() >= shown_count(listed@.len(), limit as nat),
    ensures
        r@.len() == shown_count(listed@.len(), limit as nat),
        forall|i: int|
            0 <= i < r@.len() ==> (#[trigger] r@[i])@ == (VersionView {
                id: listed@[i].id@,
                kind: listed@[i].kind@,
                server_url: opt_text(server_urls@[i]),
            }),
{
    let mut out: Vec<MinecraftVersion> = Vec::new();
    let mut i: usize = 0;
    while i < listed.len() && i < limit
        invariant
            i <= listed@.len(),
            i <= limit,
            server_urls@.len() >= shown_count(listed@.len(), limit as nat),
            out@.len() == i,
            forall|k: int|
                0 <= k < i ==> (#[trigger] out@[k])@ == (VersionView {
                    id: listed@[k].id@,
                    kind: listed@[k].kind@,
                    server_url: opt_text(server_urls@[k]),
                }),
        decreases listed@.len() - i,
    {
        out.push(
            MinecraftVersion {
                id: listed[i].id.clone(),
                kind: listed[i].kind.clone(),
                server_url: copy_opt(&server_urls[i]),
            },
        );
        i = i + 1;
    }
    out
}

/// The line that tells of a version.
pub fn version_line(version: &MinecraftVersion) -> (r: String)
    ensures
        r@ == version@.id + " "@ + version@.kind + " "@ + match version@.server_url {
            Some(url) => url,
            None => Seq::empty(),
        },
{
    let mut out = glue3(version.id.as_str(), " ", version.kind.as_str());
    out.append(" ");
    match &version.server_url {
        Some(url) => out.append(url.as_str()),
        None => {
            assert(out@ + Seq::<char>::empty() =~= out@);
        },
    }
    out
}

} // verus!
