//! The parse cache's records and decisions.
//!
//! Parsed files are cached by content hash, one `<hash>.bincode` file per
//! entry under the cache directory. The records, where an entry lives on
//! disk, what a dry run would do, which entry is least recently used and
//! how the size limit is computed are stated here; the map of entries and
//! the disk are the caller's.

use vstd::prelude::*;
use crate::ir::IrFile;
use crate::path::{extension, join, path_extension, path_join};
use crate::text::{append_str, chars_of, string_of};

verus! {

/// A cached parse result for a single file.
#[derive(Debug, Clone)]
pub struct CachedFile {
    /// The parsed IR for this file.
    pub ir: IrFile,
    /// The content hash that produced this IR.
    pub hash: String,
    /// Epoch millis when this entry was last accessed (for LRU eviction).
    pub last_accessed_ms: u64,
}

/// Statistics about the current cache state.
#[derive(Debug, Clone, PartialEq, Eq)]
pub struct CacheStats {
    pub entries: usize,
    pub disk_size_bytes: u64,
    pub max_size_bytes: u64,
}

/// A single action that a mutating cache command would perform (what
/// `--dry-run` shows).
#[derive(Debug, Clone, PartialEq, Eq)]
pub struct DryRunAction {
    pub action: String,
    pub target: String,
    pub reason: String,
}

/// Bytes in a megabyte.
pub const BYTES_PER_MB: u64 = 1048576;

/// The disk limit in bytes for a limit in megabytes, saturating at the
/// largest `u64`.
pub open spec fn limit_bytes(max_size_mb: u64) -> u64 {
    if max_size_mb * BYTES_PER_MB > u64::MAX {
        u64::MAX
    } else {
        (max_size_mb * BYTES_PER_MB) as u64
    }
}

/// The disk limit in bytes for a limit in megabytes.
pub fn max_size_bytes(max_size_mb: u64) -> (r: u64)
    ensures
        r == limit_bytes(max_size_mb),
{
    if max_size_mb > u64::MAX / BYTES_PER_MB {
        assert(max_size_mb * BYTES_PER_MB > u64::MAX) by (nonlinear_arith)
            requires
                max_size_mb > u64::MAX / BYTES_PER_MB,
                BYTES_PER_MB == 1048576,
        ;
        u64::MAX
    } else {
        assert(max_size_mb * BYTES_PER_MB <= u64::MAX) by (nonlinear_arith)
            requires
                max_size_mb <= u64::MAX / BYTES_PER_MB,
                BYTES_PER_MB == 1048576,
        ;
        max_size_mb * BYTES_PER_MB
    }
}

/// Where the entry with a hash is kept: `<dir>/<hash>.bincode`.
pub open spec fn entry_path(dir: Seq<char>, hash: Seq<char>) -> Seq<char> {
    join(dir, hash + ".bincode"@)
}

/// Where the entry with a hash is kept on disk.
pub fn disk_path(dir: &str, hash: &str) -> (r: String)
    ensures
        r@ == entry_path(dir@, hash@),
{
    let mut name = string_of(&chars_of(hash));
    append_str(&mut name, ".bincode");
    path_join(dir, name.as_str())
}

/// Whether a path names a cache entry file (extension `bincode`).
pub fn is_cache_file(path: &str) -> (r: bool)
    ensures
        r == (extension(path@) == Some("bincode"@)),
{
    match path_extension(path) {
        Some(e) => {
            let v = chars_of(e.as_str());
            let w = chars_of("bincode");
            crate::text::chars_eq(&v, &w)
        },
        None => false,
    }
}

/// What clearing the cache does to an entry: delete its file.
pub fn clear_action(dir: &str, hash: &str) -> (a: DryRunAction)
    ensures
        a.action@ == "delete"@,
        a.target@ == entry_path(dir@, hash@),
        a.reason@ == "cache clear removes all entries"@,
{
    DryRunAction {
        action: string_of(&chars_of("delete")),
        target: disk_path(dir, hash),
        reason: string_of(&chars_of("cache clear removes all entries")),
    }
}

/// What pruning does to an entry whose source file is gone: delete its
/// file.
pub fn prune_action(dir: &str, hash: &str, source: &str) -> (a: DryRunAction)
    ensures
        a.action@ == "delete"@,
        a.target@ == entry_path(dir@, hash@),
        a.reason@ == "source file deleted from disk: "@ + source@,
{
    let mut reason = string_of(&chars_of("source file deleted from disk: "));
    append_str(&mut reason, source);
    DryRunAction {
        action: string_of(&chars_of("delete")),
        target: disk_path(dir, hash),
        reason,
    }
}

/// What a dry run of clearing the cache would do: delete the file of each
/// entry, in the order the entries are given; nothing is deleted.
pub fn dry_run_clear_actions(dir: &str, hashes: &Vec<String>) -> (r: Vec<DryRunAction>)
    ensures
        r@.len() == hashes@.len(),
        forall|k: int|
            0 <= k < r@.len() ==> {
                &&& (#[trigger] r@[k]).action@ == "delete"@
                &&& r@[k].target@ == entry_path(dir@, hashes@[k]@)
                &&& r@[k].reason@ == "cache clear removes all entries"@
            },
{
    let mut r: Vec<DryRunAction> = Vec::new();
    let mut i: usize = 0;
    while i < hashes.len()
        invariant
            i <= hashes.len(),
            r@.len() == i,
            forall|k: int|
                0 <= k < i ==> {
                    &&& (#[trigger] r@[k]).action@ == "delete"@
                    &&& r@[k].target@ == entry_path(dir@, hashes@[k]@)
                    &&& r@[k].reason@ == "cache clear removes all entries"@
                },
        decreases hashes.len() - i,
    {
        r.push(clear_action(dir, hashes[i].as_str()));
        i += 1;
    }
    r
}

/// What a dry run of pruning would do: delete the file of each entry whose
/// source file is gone (given as hash and source path), in order.
pub fn dry_run_prune_actions(dir: &str, stale: &Vec<(String, String)>) -> (r: Vec<DryRunAction>)
    ensures
        r@.len() == stale@.len(),
        forall|k: int|
            0 <= k < r@.len() ==> {
                &&& (#[trigger] r@[k]).action@ == "delete"@
                &&& r@[k].target@ == entry_path(dir@, stale@[k].0@)
                &&& r@[k].reason@ == "source file deleted from disk: "@ + stale@[k].1@
            },
{
    let mut r: Vec<DryRunAction> = Vec::new();
    let mut i: usize = 0;
    while i < stale.len()
        invariant
            i <= stale.len(),
            r@.len() == i,
            forall|k: int|
                0 <= k < i ==> {
                    &&& (#[trigger] r@[k]).action@ == "delete"@
                    &&& r@[k].target@ == entry_path(dir@, stale@[k].0@)
                    &&& r@[k].reason@ == "source file deleted from disk: "@ + stale@[k].1@
                },
        decreases stale.len() - i,
    {
        let (hash, source) = &stale[i];
        r.push(prune_action(dir, hash.as_str(), source.as_str()));
        i += 1;
    }
    r
}

/// The position of the least recently used entry: the first one with
/// the smallest access time; none when there are no entries.
pub fn least_recently_used(times: &Vec<u64>) -> (r: Option<usize>)
    ensures
        r is None <==> times@.len() == 0,
        r matches Some(i) ==> {
            &&& i < times@.len()
            &&& forall|j: int| 0 <= j < times@.len() ==> times@[i as int] <= times@[j]
            &&& forall|j: int| 0 <= j < i ==> times@[j] > times@[i as int]
        },
{
    if times.len() == 0 {
        return None;
    }
    let mut best: usize = 0;
    let mut i: usize = 1;
    while i < times.len()
        invariant
            1 <= i <= times.len(),
            best < i,
            forall|j: int| 0 <= j < i ==> times@[best as int] <= times@[j],
            forall|j: int| 0 <= j < best ==> times@[j] > times@[best as int],
        decreases times.len() - i,
    {
        if times[i] < times[best] {
            best = i;
        }
        i += 1;
    }
    Some(best)
}

/// One step of eviction: while the cache takes more than `max_bytes` on
/// disk, the least recently used entry goes (the first one with the
/// smallest access time); eviction stops once the cache fits, or when no
/// entry is left.
pub fn next_eviction(disk_bytes: u64, max_bytes: u64, times: &Vec<u64>) -> (r: Option<usize>)
    ensures
        r is None <==> (disk_bytes <= max_bytes || times@.len() == 0),
        r matches Some(i) ==> {
            &&& i < times@.len()
            &&& forall|j: int| 0 <= j < times@.len() ==> times@[i as int] <= times@[j]
            &&& forall|j: int| 0 <= j < i ==> times@[j] > times@[i as int]
        },
{
    if disk_bytes <= max_bytes {
        None
    } else {
        least_recently_used(times)
    }
}

/// The sum of some sizes, saturating at the largest `u64`.
pub open spec fn saturated_total(sizes: Seq<u64>) -> u64
    decreases sizes.len(),
{
    if sizes.len() == 0 {
        0
    } else {
        let t = saturated_total(sizes.drop_last());
        if t + sizes.last() > u64::MAX {
            u64::MAX
        } else {
            (t + sizes.last()) as u64
        }
    }
}

/// The disk size of the cache: the sizes of its entry files added up,
/// saturating.
pub fn total_disk_size(sizes: &Vec<u64>) -> (r: u64)
    ensures
        r == saturated_total(sizes@),
{
    let mut total: u64 = 0;
    let mut i: usize = 0;
    while i < sizes.len()
        invariant
            i <= sizes.len(),
            total == saturated_total(sizes@.take(i as int)),
        decreases sizes.len() - i,
    {
        assert(sizes@.take(i + 1 as int).drop_last() =~= sizes@.take(i as int));
        total = if total > u64::MAX - sizes[i] {
            u64::MAX
        } else {
            total + sizes[i]
        };
        i += 1;
    }
    assert(sizes@.take(sizes.len() as int) =~= sizes@);
    total
}

} // verus!
