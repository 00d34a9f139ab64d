//! The pack's directory and the paths inside it.

use crate::text::{join, path_join};
use vstd::prelude::*;

verus! {

/// The directory that holds `pack.toml`.
#[derive(Debug, Clone)]
pub struct PackRoot {
    pub path: String,
}

impl PackRoot {
    /// `<root>/.cache`, where downloaded files are kept by hash.
    pub fn cache_dir(&self) -> (r: String)
        ensures
            r@ == path_join(self.path@, ".cache"@),
    {
        join(self.path.as_str(), ".cache")
    }

    /// `<root>/generated`, where the launcher overlay is written.
    pub fn generated_dir(&self) -> (r: String)
        ensures
            r@ == path_join(self.path@, "generated"@),
    {
        join(self.path.as_str(), "generated")
    }

    /// `<root>/dist`, where release artifacts are written.
    pub fn dist_dir(&self) -> (r: String)
        ensures
            r@ == path_join(self.path@, "dist"@),
    {
        join(self.path.as_str(), "dist")
    }

    /// `<root>/overrides`, files for both sides.
    pub fn overrides_dir(&self) -> (r: String)
        ensures
            r@ == path_join(self.path@, "overrides"@),
    {
        join(self.path.as_str(), "overrides")
    }

    /// `<root>/client-overrides`.
    pub fn client_overrides_dir(&self) -> (r: String)
        ensures
            r@ == path_join(self.path@, "client-overrides"@),
    {
        join(self.path.as_str(), "client-overrides")
    }

    /// `<root>/server-overrides`.
    pub fn server_overrides_dir(&self) -> (r: String)
        ensures
            r@ == path_join(self.path@, "server-overrides"@),
    {
        join(self.path.as_str(), "server-overrides")
    }

    /// `<root>/pack.toml`.
    pub fn pack_toml(&self) -> (r: String)
        ensures
            r@ == path_join(self.path@, "pack.toml"@),
    {
        join(self.path.as_str(), "pack.toml")
    }

    /// `<root>/pack.lock.toml`.
    pub fn lock_toml(&self) -> (r: String)
        ensures
            r@ == path_join(self.path@, "pack.lock.toml"@),
    {
        join(self.path.as_str(), "pack.lock.toml")
    }
}

} // verus!
