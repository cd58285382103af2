//! Size estimate of a FAT32 volume that holds a directory tree.
use vstd::prelude::*;

verus! {

/// Cluster size that the estimate assumes.
pub const CLUSTER_SIZE: u64 = 32 * 1024;

/// Bytes of one directory entry.
pub const DIR_ENTRY_SIZE: u64 = 32;

/// Characters of a name that one long-name entry holds.
pub const LFN_CHARS: u64 = 13;

/// One entry of the tree: the byte length of its name, whether it is a directory,
/// and (for a file) its size.
#[derive(Debug, Clone, Copy, PartialEq, Eq, Structural)]
pub struct FsEntry {
    pub name_len: u64,
    pub is_dir: bool,
    pub size: u64,
}

/// Directory slots of an entry: the short entry and its long-name entries.
pub open spec fn dir_slots_spec(name_len: nat) -> nat {
    DIR_ENTRY_SIZE as nat + ((name_len + 12) / (LFN_CHARS as nat)) * (DIR_ENTRY_SIZE as nat)
}

/// What one entry costs: a directory adds its slots and its `.`/`..` record; a
/// file adds its slots and its payload rounded up to whole clusters.
pub open spec fn entry_cost(e: FsEntry) -> nat {
    if e.is_dir {
        DIR_ENTRY_SIZE as nat + dir_slots_spec(e.name_len as nat)
    } else {
        (((e.size as nat + CLUSTER_SIZE as nat - 1) as nat) / (CLUSTER_SIZE as nat)) * (CLUSTER_SIZE as nat) + dir_slots_spec(
            e.name_len as nat,
        )
    }
}

pub open spec fn tree_cost(es: Seq<FsEntry>) -> nat
    decreases es.len(),
{
    if es.len() == 0 {
        0
    } else {
        tree_cost(es.drop_last()) + entry_cost(es.last())
    }
}

/// Why no estimate was made.
#[derive(Debug, Clone, Copy, PartialEq, Eq, Structural)]
pub enum FatSizeError {
    /// The estimate does not fit in a `u64`.
    Overflow,
}

fn entry_size(e: &FsEntry) -> (r: Option<u64>)
    ensures
        match r {
            Some(n) => n == entry_cost(*e),
            None => entry_cost(*e) > u64::MAX,
        },
{
    let lfn = (e.name_len / LFN_CHARS) + if e.name_len % LFN_CHARS == 0 { 0u64 } else { 1u64 };
    assert(lfn == (e.name_len as nat + 12) / 13) by (nonlinear_arith)
        requires
            lfn == e.name_len / 13 + if e.name_len % 13 == 0 { 0u64 } else { 1u64 },
    ;
    if lfn > (u64::MAX - DIR_ENTRY_SIZE) / DIR_ENTRY_SIZE {
        assert(32 + lfn * 32 > u64::MAX) by (nonlinear_arith)
            requires
                lfn > (u64::MAX - 32) / 32,
        ;
        return None;
    }
    assert(32 + lfn * 32 <= u64::MAX) by (nonlinear_arith)
        requires
            lfn <= (u64::MAX - 32) / 32,
    ;
    let slots = DIR_ENTRY_SIZE + lfn * DIR_ENTRY_SIZE;
    if e.is_dir {
        if slots > u64::MAX - DIR_ENTRY_SIZE {
            return None;
        }
        return Some(DIR_ENTRY_SIZE + slots);
    }
    let clusters = e.size / CLUSTER_SIZE + if e.size % CLUSTER_SIZE == 0 { 0u64 } else { 1u64 };
    assert(clusters == (e.size as nat + 32767) / 32768) by (nonlinear_arith)
        requires
            clusters == e.size / 32768 + if e.size % 32768 == 0 { 0u64 } else { 1u64 },
    ;
    if clusters > (u64::MAX - slots) / CLUSTER_SIZE {
        assert(clusters * 32768 + slots > u64::MAX) by (nonlinear_arith)
            requires
                clusters > (u64::MAX - slots) / 32768,
                slots <= u64::MAX,
        ;
        return None;
    }
    assert(clusters * 32768 + slots <= u64::MAX) by (nonlinear_arith)
        requires
            clusters <= (u64::MAX - slots) / 32768,
            slots <= u64::MAX,
    ;
    Some(clusters * CLUSTER_SIZE + slots)
}

/// Estimated bytes that a FAT32 volume uses for the entries of a tree (every file
/// and directory below the root).
pub fn dir2fatsize(entries: &Vec<FsEntry>) -> (r: Result<u64, FatSizeError>)
    ensures
        match r {
            Ok(n) => n == tree_cost(entries@),
            Err(_) => tree_cost(entries@) > u64::MAX,
        },
{
    let mut total: u64 = 0;
    let mut i: usize = 0;
    while i < entries.len()
        invariant
            i <= entries@.len(),
            total as nat == tree_cost(entries@.subrange(0, i as int)),
        decreases entries@.len() - i,
    {
        let ghost next = entries@.subrange(0, i + 1);
        assert(next.drop_last() =~= entries@.subrange(0, i as int));
        match entry_size(&entries[i]) {
            Some(c) => {
                if c > u64::MAX - total {
                    proof {
                        lemma_cost_prefix(entries@, i + 1);
                    }
                    return Err(FatSizeError::Overflow);
                }
                total = total + c;
            },
            None => {
                proof {
                    lemma_cost_prefix(entries@, i + 1);
                }
                return Err(FatSizeError::Overflow);
            },
        }
        i = i + 1;
    }
    assert(entries@.subrange(0, entries@.len() as int) =~= entries@);
    Ok(total)
}

proof fn lemma_cost_prefix(es: Seq<FsEntry>, k: int)
    requires
        0 <= k <= es.len(),
    ensures
        tree_cost(es.subrange(0, k)) <= tree_cost(es),
    decreases es.len() - k,
{
    if k < es.len() {
        lemma_cost_prefix(es, k + 1);
        assert(es.subrange(0, k + 1).drop_last() =~= es.subrange(0, k));
    } else {
        assert(es.subrange(0, k) =~= es);
    }
}

} // verus!
