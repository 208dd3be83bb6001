use vstd::prelude::*;

pub mod cache;
pub mod compiler;
pub mod config;
pub mod crawler;
pub mod generator;
pub mod paths;
pub mod render;
pub mod server;
pub mod store;

verus! {

use crate::paths::SitePath;

/// The directory that compiled pages live under, inside the storage
/// directory handed in by the caller at startup.
pub fn get_cache_dir(storage_dir: &SitePath) -> (r: SitePath)
    ensures
        r@ == storage_dir@.push("cache"@),
{
    storage_dir.child("cache")
}

/// The directory that static assets are served from, inside the storage
/// directory handed in by the caller at startup.
pub fn get_assets_dir(storage_dir: &SitePath) -> (r: SitePath)
    ensures
        r@ == storage_dir@.push("assets"@),
{
    storage_dir.child("assets")
}

} // verus!
