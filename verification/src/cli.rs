//! What a caller asks of the tool. The values arrive here already parsed.

use vstd::prelude::*;
use vstd::string::*;

verus! {

/// The tasks of the tool.
#[derive(Debug)]
pub enum Action {
    /// Sync a local folder to a path within a storage zone.
    Sync { args: SyncArgs },
    /// Provide shell completions.
    Completions { shell: String },
    /// Purge a URL from the cache. A wildcard is allowed at its end.
    PurgeUrl { url: String, api_key: Option<String> },
    /// Purge an entire pull zone from the cache, or what carries one tag.
    PurgeZone { pullzone: u64, api_key: Option<String>, cache_tag: Option<String> },
}

/// One invocation of the tool.
#[derive(Debug)]
pub struct Cli {
    pub command: Action,
}

/// The parameters of a session.
#[derive(Debug)]
pub struct SyncArgs {
    /// Which endpoint of the store to use.
    pub endpoint: String,
    /// Password for the storage zone. Without one the environment is asked.
    pub access_key: Option<String>,
    /// Local directory to put in the storage zone.
    pub local_path: String,
    /// Which storage zone to sync to.
    pub storage_zone: String,
    /// Path of a directory inside the storage zone to sync to.
    pub path: String,
    /// Do not sync, just show what would change.
    pub dry_run: bool,
    /// Sync despite a lock that was left behind.
    pub force: bool,
    /// Name of the lock sentinel. No session starts while it exists.
    pub lockfile: String,
    /// Remote paths that begin with one of these are neither listed nor
    /// deleted.
    pub ignore: Vec<String>,
    /// Report every entry of the plan.
    pub verbose: bool,
    /// Number of workers. Without one the host decides.
    pub concurrency: Option<usize>,
}

/// The endpoint of a session that names none.
pub open spec fn default_endpoint() -> Seq<char> {
    "storage.bunnycdn.com"@
}

/// The name of the lock sentinel of a session that names none.
pub open spec fn default_lockfile() -> Seq<char> {
    ".bunnysync.lock"@
}

impl SyncArgs {
    /// The parameters of a session that fills the root of `storage_zone`
    /// from `local_path`, with every option at its default.
    pub fn new(local_path: String, storage_zone: String) -> (args: Self)
        ensures
            args.endpoint@ == default_endpoint(),
            args.access_key is None,
            args.local_path == local_path,
            args.storage_zone == storage_zone,
            args.path@ == "/"@,
            !args.dry_run,
            !args.force,
            args.lockfile@ == default_lockfile(),
            args.ignore@.len() == 0,
            !args.verbose,
            args.concurrency is None,
    {
        SyncArgs {
            endpoint: String::from_str("storage.bunnycdn.com"),
            access_key: None,
            local_path,
            storage_zone,
            path: String::from_str("/"),
            dry_run: false,
            force: false,
            lockfile: String::from_str(".bunnysync.lock"),
            ignore: Vec::new(),
            verbose: false,
            concurrency: None,
        }
    }
}

} // verus!
