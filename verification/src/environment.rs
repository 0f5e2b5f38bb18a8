//! How a server caches what it reads, and what it derives for the
//! bookmarks it keeps warm.

use vstd::prelude::*;

verus! {

/// The shape of the local cache.
#[derive(Copy, Clone, PartialEq, Eq, Structural)]
pub struct LocalCacheConfig {
    /// Number of shards in the local blobstore cache.
    pub blobstore_cache_shards: usize,
}

/// Which caches are in use.
#[derive(Copy, Clone, PartialEq, Eq, Structural)]
pub enum Caching {
    /// Both the local and the shared cache.
    Enabled(LocalCacheConfig),
    /// The local cache only.
    LocalOnly(LocalCacheConfig),
    /// No cache.
    Disabled,
}

/// What is derived for a bookmark before it counts as warm.
#[derive(Copy, Clone, Debug)]
pub enum WarmBookmarksCacheDerivedData {
    HgOnly,
    AllKinds,
    NoDerivation,
}

impl Caching {
    /// The shape of the local cache, where there is one.
    pub open spec fn spec_local_cache(&self) -> Option<LocalCacheConfig> {
        match self {
            Caching::Enabled(config) => Some(*config),
            Caching::LocalOnly(config) => Some(*config),
            Caching::Disabled => None,
        }
    }
}

} // verus!
