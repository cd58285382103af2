//! Disk image layout: size estimate, protective MBR extent, and the placement of
//! GPT partitions, each aligned and all disjoint, inside the usable area.
use vstd::prelude::*;
use vstd::string::StringExecFns;
use vstd::arithmetic::div_mod::{lemma_fundamental_div_mod, lemma_mod_multiples_basic};

verus! {

/// Logical block size in bytes.
pub const LB_SIZE: u64 = 512;

/// Partition alignment in logical blocks where none is given: 1 MiB.
pub const DEFAULT_ALIGN_LBAS: u64 = 2048;

/// Partition alignment in bytes.
pub const PART_ALIGN_BYTES: u64 = 1024 * 1024;

/// First logical block after the protective MBR, the GPT header and its table.
pub const FIRST_USABLE_LBA: u64 = 34;

/// Logical blocks at the end of the disk that hold the backup table and header.
pub const GPT_TRAILER_LBAS: u64 = 33;

/// Most partitions a GPT table holds.
pub const MAX_PARTITIONS: usize = 128;

/// Room kept for the backup GPT at the end of the estimated disk.
pub const TRAILER_RESERVE: u64 = 2 * 1024 * 1024;

/// GPT partition types.
#[derive(Debug, Clone, Copy, PartialEq, Eq, Structural)]
pub enum PartitionKind {
    EfiSystem,
    MicrosoftReserved,
    BasicData,
}

impl PartitionKind {
    pub open spec fn guid_spec(self) -> Seq<char> {
        match self {
            PartitionKind::EfiSystem => "C12A7328-F81F-11D2-BA4B-00A0C93EC93B"@,
            PartitionKind::MicrosoftReserved => "E3C9E316-0B5C-4DB8-817D-F92DF00215AE"@,
            PartitionKind::BasicData => "EBD0A0A2-B9E5-4433-87C0-68B6B72699C7"@,
        }
    }

    /// The partition type GUID.
    pub fn type_guid(&self) -> (r: &'static str)
        ensures
            r@ == self.guid_spec(),
    {
        match self {
            PartitionKind::EfiSystem => "C12A7328-F81F-11D2-BA4B-00A0C93EC93B",
            PartitionKind::MicrosoftReserved => "E3C9E316-0B5C-4DB8-817D-F92DF00215AE",
            PartitionKind::BasicData => "EBD0A0A2-B9E5-4433-87C0-68B6B72699C7",
        }
    }
}

/// GPT attribute bits of a recovery partition: required and hidden.
pub const RECOVERY_FLAGS: u64 = 0x8000000000000001;

/// A declared partition, and where layout put it (absolute byte range
/// `[startb, endb)` and GPT id).
#[derive(Debug)]
pub struct SPartition {
    pub name: String,
    pub ptype: PartitionKind,
    pub size: u64,
    pub flags: u64,
    pub id: Option<u32>,
    pub startb: Option<u64>,
    pub endb: Option<u64>,
    /// Alignment in logical blocks; `None` is `DEFAULT_ALIGN_LBAS`.
    pub align: Option<u64>,
}

/// Why a layout could not be made.
#[derive(Debug, Clone, Copy, PartialEq, Eq, Structural)]
pub enum LayoutError {
    /// A partition has size zero or alignment zero.
    BadRequest,
    /// More partitions than a GPT table holds.
    TooManyPartitions,
    /// The partitions do not fit inside the usable area.
    NoSpace,
    /// Sizes add up beyond what a `u64` holds.
    Overflow,
    /// A partition has not been placed.
    Unplaced,
}

/// Where one partition goes, in logical blocks.
#[derive(Debug, Clone, Copy, PartialEq, Eq, Structural)]
pub struct Placement {
    pub id: u32,
    pub first_lba: u64,
    pub length_lba: u64,
}

pub open spec fn align_of(a: Option<u64>) -> nat {
    match a {
        Some(x) => x as nat,
        None => DEFAULT_ALIGN_LBAS as nat,
    }
}

/// Logical blocks that hold `size` bytes.
pub open spec fn lbas_for(size: nat) -> nat {
    (size + 511) / 512
}

/// The first multiple of `a` at or after `x`.
pub open spec fn align_up(x: nat, a: nat) -> nat {
    if a == 0 {
        x
    } else {
        x + ((a - x % a) as nat) % a
    }
}

/// A request as the layout reads it: size in bytes and alignment.
pub open spec fn request(p: SPartition) -> (u64, Option<u64>) {
    (p.size, p.align)
}

pub open spec fn requests(ps: Seq<SPartition>) -> Seq<(u64, Option<u64>)> {
    ps.map_values(|p: SPartition| request(p))
}

pub open spec fn end_of(placed: Seq<(nat, nat)>) -> nat {
    if placed.len() == 0 {
        FIRST_USABLE_LBA as nat
    } else {
        placed.last().0 + placed.last().1
    }
}

/// Sequential layout: each partition starts at the first aligned block after the
/// previous one (or after the GPT table), and spans the blocks its size needs.
pub open spec fn layout_spec(reqs: Seq<(u64, Option<u64>)>) -> Seq<(nat, nat)>
    decreases reqs.len(),
{
    if reqs.len() == 0 {
        Seq::empty()
    } else {
        let prev = layout_spec(reqs.drop_last());
        prev.push((align_up(end_of(prev), align_of(reqs.last().1)), lbas_for(reqs.last().0 as nat)))
    }
}

pub open spec fn valid_request(r: (u64, Option<u64>)) -> bool {
    r.0 > 0 && r.1 != Some(0u64)
}

/// Last usable block, plus one, of a disk of `disk_bytes` bytes.
pub open spec fn usable_end(disk_bytes: u64) -> int {
    (disk_bytes / LB_SIZE) as int - GPT_TRAILER_LBAS as int
}

pub open spec fn placement_view(p: Placement) -> (nat, nat) {
    (p.first_lba as nat, p.length_lba as nat)
}

proof fn lemma_align_up(x: nat, a: nat)
    requires
        a > 0,
    ensures
        align_up(x, a) >= x,
        align_up(x, a) % a == 0,
        align_up(x, a) < x + a,
{
    let r = x % a;
    assert(r < a) by (nonlinear_arith)
        requires
            a > 0,
            r == x % a,
    ;
    let off = ((a - r) as nat) % a;
    if r == 0 {
        assert(off == 0) by (nonlinear_arith)
            requires
                a > 0,
                off == ((a - r) as nat) % a,
                r == 0,
        ;
    } else {
        assert(off == a - r) by (nonlinear_arith)
            requires
                a > 0,
                0 < r < a,
                off == ((a - r) as nat) % a,
        ;
        assert(((x + (a - r)) as nat) % a == 0) by (nonlinear_arith)
            requires
                a > 0,
                r == x % a,
                0 < r < a,
        ;
    }
}

proof fn lemma_layout_len(reqs: Seq<(u64, Option<u64>)>)
    ensures
        layout_spec(reqs).len() == reqs.len(),
    decreases reqs.len(),
{
    if reqs.len() > 0 {
        lemma_layout_len(reqs.drop_last());
    }
}

/// Places the partitions in declared order, with GPT ids 1, 2, ... .
pub fn plan_layout(parts: &Vec<SPartition>, disk_bytes: u64) -> (r: Result<Vec<Placement>, LayoutError>)
    ensures
        match r {
            Ok(v) => {
                &&& v@.len() == parts@.len()
                &&& forall|i: int| 0 <= i < v@.len() ==> #[trigger] placement_view(v@[i])
                    == layout_spec(requests(parts@))[i] && v@[i].id == i + 1
                &&& end_of(layout_spec(requests(parts@))) <= usable_end(disk_bytes)
            },
            Err(e) => plan_layout_spec(parts@, disk_bytes) == Err::<(), LayoutError>(e),
        },
        r is Ok <==> plan_layout_spec(parts@, disk_bytes) is Ok,
{
    let ghost reqs = requests(parts@);
    if parts.len() > MAX_PARTITIONS {
        return Err(LayoutError::TooManyPartitions);
    }
    let mut k: usize = 0;
    while k < parts.len()
        invariant
            k <= parts@.len() <= MAX_PARTITIONS,
            forall|i: int| 0 <= i < k ==> valid_request(#[trigger] request(parts@[i])),
        decreases parts@.len() - k,
    {
        if parts[k].size == 0 || matches!(parts[k].align, Some(0)) {
            assert(!valid_request(request(parts@[k as int])));
            assert(exists|j: int| 0 <= j < parts@.len() && !valid_request(#[trigger] request(parts@[j])));
            return Err(LayoutError::BadRequest);
        }
        k = k + 1;
    }
    let total_lbas = disk_bytes / LB_SIZE;
    if total_lbas < GPT_TRAILER_LBAS + FIRST_USABLE_LBA {
        proof {
            lemma_layout_end_grows(reqs);
        }
        return Err(LayoutError::NoSpace);
    }
    let limit: u64 = total_lbas - GPT_TRAILER_LBAS;
    let mut out: Vec<Placement> = Vec::new();
    let mut free: u64 = FIRST_USABLE_LBA;
    let mut i: usize = 0;
    while i < parts.len()
        invariant
            i <= parts@.len() <= MAX_PARTITIONS,
            reqs == requests(parts@),
            forall|j: int| 0 <= j < parts@.len() ==> valid_request(#[trigger] request(parts@[j])),
            limit as int == usable_end(disk_bytes),
            limit >= FIRST_USABLE_LBA,
            out@.len() == i,
            free as nat == end_of(layout_spec(reqs.subrange(0, i as int))),
            free <= limit,
            forall|j: int| 0 <= j < i ==> #[trigger] placement_view(out@[j]) == layout_spec(reqs.subrange(0, i as int))[j]
                && out@[j].id == j + 1,
        decreases parts@.len() - i,
    {
        let ghost pre = reqs.subrange(0, i as int);
        let ghost next = reqs.subrange(0, i + 1);
        assert(next.drop_last() =~= pre);
        assert(next.last() == request(parts@[i as int]));
        proof {
            lemma_layout_len(pre);
        }
        let a: u64 = match parts[i].align {
            Some(x) => x,
            None => DEFAULT_ALIGN_LBAS,
        };
        let size = parts[i].size;
        let len_lba: u64 = (size - 1) / LB_SIZE + 1;
        assert(len_lba as nat == lbas_for(size as nat)) by (nonlinear_arith)
            requires
                len_lba == (size - 1) / 512 + 1,
                size > 0,
        ;
        let off: u64 = (a - free % a) % a;
        assert(off as nat == ((a - free as nat % a as nat) as nat) % (a as nat));
        let ghost spec_next = layout_spec(next);
        if off > limit - free || len_lba > limit - free - off {
            proof {
                lemma_layout_len(next);
                lemma_layout_prefix_end(reqs, i as int + 1);
            }
            return Err(LayoutError::NoSpace);
        }
        let start = free + off;
        out.push(Placement { id: (i + 1) as u32, first_lba: start, length_lba: len_lba });
        free = start + len_lba;
        proof {
            lemma_layout_len(next);
            assert forall|j: int| 0 <= j < i + 1 implies #[trigger] placement_view(out@[j]) == spec_next[j]
                && out@[j].id == j + 1 by {
                if j < i {
                    assert(spec_next[j] == layout_spec(pre)[j]);
                }
            }
        }
        i = i + 1;
    }
    assert(reqs.subrange(0, parts@.len() as int) =~= reqs);
    Ok(out)
}

proof fn lemma_layout_end_grows(reqs: Seq<(u64, Option<u64>)>)
    ensures
        end_of(layout_spec(reqs)) >= FIRST_USABLE_LBA,
    decreases reqs.len(),
{
    if reqs.len() > 0 {
        lemma_layout_end_grows(reqs.drop_last());
    }
}

/// The end of a layout is at least the end of the layout of any prefix.
proof fn lemma_layout_prefix_end(reqs: Seq<(u64, Option<u64>)>, k: int)
    requires
        0 <= k <= reqs.len(),
    ensures
        end_of(layout_spec(reqs.subrange(0, k))) <= end_of(layout_spec(reqs)),
    decreases reqs.len() - k,
{
    if k < reqs.len() {
        lemma_layout_prefix_end(reqs, k + 1);
        let next = reqs.subrange(0, k + 1);
        assert(next.drop_last() =~= reqs.subrange(0, k));
        lemma_layout_len(next.drop_last());
    } else {
        assert(reqs.subrange(0, k) =~= reqs);
    }
}


pub open spec fn aligned_request(r: (u64, Option<u64>)) -> bool {
    match r.1 {
        None => true,
        Some(a) => a > 0 && a % DEFAULT_ALIGN_LBAS == 0,
    }
}

proof fn lemma_layout_shape(reqs: Seq<(u64, Option<u64>)>)
    requires
        forall|i: int| 0 <= i < reqs.len() ==> aligned_request(#[trigger] reqs[i]),
    ensures
        layout_spec(reqs).len() == reqs.len(),
        end_of(layout_spec(reqs)) >= FIRST_USABLE_LBA,
        forall|i: int| 0 <= i < reqs.len() ==> {
            let p = #[trigger] layout_spec(reqs)[i];
            &&& p.0 >= FIRST_USABLE_LBA
            &&& p.0 % (DEFAULT_ALIGN_LBAS as nat) == 0
            &&& p.0 + p.1 <= end_of(layout_spec(reqs))
        },
        forall|i: int, j: int| 0 <= i < j < reqs.len() ==> #[trigger] layout_spec(reqs)[i].0 + layout_spec(reqs)[i].1
            <= #[trigger] layout_spec(reqs)[j].0,
    decreases reqs.len(),
{
    if reqs.len() > 0 {
        let pre = reqs.drop_last();
        assert forall|i: int| 0 <= i < pre.len() implies aligned_request(#[trigger] pre[i]) by {
            assert(pre[i] == reqs[i]);
        }
        lemma_layout_shape(pre);
        let prev = layout_spec(pre);
        let all = layout_spec(reqs);
        let a = align_of(reqs.last().1);
        assert(aligned_request(reqs[reqs.len() - 1]));
        lemma_align_up(end_of(prev), a);
        let st = align_up(end_of(prev), a);
        let q = st / a;
        let m = a / 2048;
        lemma_fundamental_div_mod(st as int, a as int);
        lemma_fundamental_div_mod(a as int, 2048);
        assert(st == 2048 * (m * q)) by (nonlinear_arith)
            requires
                st == a * q,
                a == 2048 * m,
        ;
        lemma_mod_multiples_basic((m * q) as int, 2048);
        assert forall|i: int| 0 <= i < reqs.len() implies {
            let p = #[trigger] all[i];
            &&& p.0 >= FIRST_USABLE_LBA
            &&& p.0 % (DEFAULT_ALIGN_LBAS as nat) == 0
            &&& p.0 + p.1 <= end_of(all)
        } by {
            if i < pre.len() {
                assert(all[i] == prev[i]);
            }
        }
        assert forall|i: int, j: int| 0 <= i < j < reqs.len() implies #[trigger] all[i].0 + all[i].1 <= #[trigger] all[j].0 by {
            assert(all[i] == prev[i]);
            if j < pre.len() {
                assert(all[j] == prev[j]);
            }
        }
    }
}

/// Byte range `[start, end)` of the `i`-th placement of a layout.
pub open spec fn byte_range(p: (nat, nat)) -> (nat, nat) {
    (p.0 * 512, (p.0 + p.1) * 512)
}

/// A layout that fits a disk is disjoint, 1 MiB aligned and inside the usable
/// area: each partition's byte range is aligned to 1 MiB, lies within
/// `[34 * 512, disk_bytes - 33 * 512]`, and ends at or before the next one starts.
pub proof fn lemma_layout_disjoint(reqs: Seq<(u64, Option<u64>)>, disk_bytes: u64)
    requires
        forall|i: int| 0 <= i < reqs.len() ==> aligned_request(#[trigger] reqs[i]),
        end_of(layout_spec(reqs)) <= usable_end(disk_bytes),
    ensures
        layout_spec(reqs).len() == reqs.len(),
        forall|i: int| 0 <= i < reqs.len() ==> {
            let b = #[trigger] byte_range(layout_spec(reqs)[i]);
            &&& b.0 % (PART_ALIGN_BYTES as nat) == 0
            &&& b.0 >= FIRST_USABLE_LBA * LB_SIZE
            &&& b.0 <= b.1
            &&& b.1 <= disk_bytes - GPT_TRAILER_LBAS * LB_SIZE
        },
        forall|i: int, j: int| 0 <= i < j < reqs.len() ==> (#[trigger] byte_range(layout_spec(reqs)[i])).1
            <= (#[trigger] byte_range(layout_spec(reqs)[j])).0,
{
    lemma_layout_shape(reqs);
    let all = layout_spec(reqs);
    let e = end_of(all);
    assert forall|i: int| 0 <= i < reqs.len() implies {
        let b = #[trigger] byte_range(all[i]);
        &&& b.0 % (PART_ALIGN_BYTES as nat) == 0
        &&& b.0 >= FIRST_USABLE_LBA * LB_SIZE
        &&& b.0 <= b.1
        &&& b.1 <= disk_bytes - GPT_TRAILER_LBAS * LB_SIZE
    } by {
        let p = all[i];
        assert(p.0 * 512 % 1048576 == 0) by (nonlinear_arith)
            requires
                p.0 % 2048 == 0,
        ;
        assert((p.0 + p.1) * 512 <= disk_bytes - 33 * 512) by (nonlinear_arith)
            requires
                p.0 + p.1 <= e,
                e <= disk_bytes / 512 - 33,
        ;
        assert(p.0 * 512 <= (p.0 + p.1) * 512) by (nonlinear_arith);
        assert(p.0 * 512 >= 34 * 512) by (nonlinear_arith)
            requires
                p.0 >= 34,
        ;
    }
    assert forall|i: int, j: int| 0 <= i < j < reqs.len() implies (#[trigger] byte_range(all[i])).1
        <= (#[trigger] byte_range(all[j])).0 by {
        let p = all[i];
        let q = all[j];
        assert((p.0 + p.1) * 512 <= q.0 * 512) by (nonlinear_arith)
            requires
                p.0 + p.1 <= q.0,
        ;
    }
}


pub open spec fn sum_sizes(ps: Seq<SPartition>) -> nat
    decreases ps.len(),
{
    if ps.len() == 0 {
        0
    } else {
        sum_sizes(ps.drop_last()) + ps.last().size as nat
    }
}

/// Estimated disk size: the partitions' sizes, twice the alignment for each
/// partition, and a reserve for the backup GPT.
pub open spec fn estimate_spec(ps: Seq<SPartition>) -> nat {
    sum_sizes(ps) + 2 * (PART_ALIGN_BYTES as nat) * ps.len() + TRAILER_RESERVE as nat
}

/// The disk size to allocate for a set of partitions.
pub fn estimate_size(parts: &Vec<SPartition>) -> (r: Result<u64, LayoutError>)
    ensures
        match r {
            Ok(n) => n == estimate_spec(parts@),
            Err(e) => e == LayoutError::Overflow && estimate_spec(parts@) > u64::MAX,
        },
{
    let mut sum: u64 = 0;
    let mut i: usize = 0;
    while i < parts.len()
        invariant
            i <= parts@.len(),
            sum as nat == sum_sizes(parts@.subrange(0, i as int)),
        decreases parts@.len() - i,
    {
        let ghost next = parts@.subrange(0, i + 1);
        assert(next.drop_last() =~= parts@.subrange(0, i as int));
        if parts[i].size > u64::MAX - sum {
            proof {
                lemma_sum_prefix(parts@, i + 1);
            }
            return Err(LayoutError::Overflow);
        }
        sum = sum + parts[i].size;
        i = i + 1;
    }
    assert(parts@.subrange(0, parts@.len() as int) =~= parts@);
    let n = parts.len() as u64;
    if n > (u64::MAX - TRAILER_RESERVE) / (2 * PART_ALIGN_BYTES) {
        assert(2 * PART_ALIGN_BYTES * n + TRAILER_RESERVE > u64::MAX) by (nonlinear_arith)
            requires
                n > (u64::MAX - TRAILER_RESERVE) / (2 * PART_ALIGN_BYTES),
        ;
        return Err(LayoutError::Overflow);
    }
    assert(2 * PART_ALIGN_BYTES * n + TRAILER_RESERVE <= u64::MAX) by (nonlinear_arith)
        requires
            n <= (u64::MAX - TRAILER_RESERVE) / (2 * PART_ALIGN_BYTES),
    ;
    let overhead = 2 * PART_ALIGN_BYTES * n + TRAILER_RESERVE;
    if sum > u64::MAX - overhead {
        return Err(LayoutError::Overflow);
    }
    Ok(sum + overhead)
}

proof fn lemma_sum_prefix(ps: Seq<SPartition>, k: int)
    requires
        0 <= k <= ps.len(),
    ensures
        sum_sizes(ps.subrange(0, k)) <= sum_sizes(ps),
    decreases ps.len() - k,
{
    if k < ps.len() {
        lemma_sum_prefix(ps, k + 1);
        assert(ps.subrange(0, k + 1).drop_last() =~= ps.subrange(0, k));
    } else {
        assert(ps.subrange(0, k) =~= ps);
    }
}

/// Blocks that the protective MBR's single partition declares: every block after
/// the first, capped at what 32 bits hold.
pub open spec fn mbr_blocks_spec(disk_bytes: u64) -> u32 {
    let n = disk_bytes / LB_SIZE - 1;
    if n > u32::MAX {
        u32::MAX
    } else {
        n as u32
    }
}

/// Blocks that the protective MBR declares for a disk of `disk_bytes` bytes.
pub fn mbr_blocks(disk_bytes: u64) -> (r: u32)
    requires
        disk_bytes >= LB_SIZE,
    ensures
        r == mbr_blocks_spec(disk_bytes),
{
    let n = disk_bytes / LB_SIZE - 1;
    if n > u32::MAX as u64 {
        u32::MAX
    } else {
        n as u32
    }
}

impl SPartition {
    /// Byte window of a placed partition; `Unplaced` before layout.
    pub fn fdisk(&self) -> (r: Result<(u64, u64), LayoutError>)
        ensures
            match (self.startb, self.endb) {
                (Some(s), Some(e)) => r == Ok::<(u64, u64), LayoutError>((s, e)),
                _ => r == Err::<(u64, u64), LayoutError>(LayoutError::Unplaced),
            },
    {
        match (self.startb, self.endb) {
            (Some(s), Some(e)) => Ok((s, e)),
            _ => Err(LayoutError::Unplaced),
        }
    }

    /// This partition is the request `p` placed at `pl`.
    pub open spec fn placed_from(&self, p: SPartition, pl: (nat, nat), id: u32) -> bool {
        &&& self.name == p.name
        &&& self.ptype == p.ptype
        &&& self.size == p.size
        &&& self.flags == p.flags
        &&& self.align == p.align
        &&& self.id == Some(id)
        &&& self.startb matches Some(s) && s == byte_range(pl).0
        &&& self.endb matches Some(e) && e == byte_range(pl).1
    }
}

/// Lays the partitions out on a disk of `disk_bytes` bytes and records in each its
/// GPT id and byte range.
pub fn lay_out(parts: Vec<SPartition>, disk_bytes: u64) -> (r: Result<Vec<SPartition>, LayoutError>)
    ensures
        match r {
            Ok(v) => v@.len() == parts@.len() && forall|i: int| 0 <= i < v@.len() ==> (#[trigger] v@[i]).placed_from(
                parts@[i],
                layout_spec(requests(parts@))[i],
                (i + 1) as u32,
            ),
            Err(e) => match plan_layout_spec(parts@, disk_bytes) {
                Err(f) => e == f,
                Ok(_) => false,
            },
        },
        r is Ok <==> plan_layout_spec(parts@, disk_bytes) is Ok,
{
    let plan = plan_layout(&parts, disk_bytes);
    let placements = match plan {
        Ok(v) => v,
        Err(e) => return Err(e),
    };
    let ghost orig = parts@;
    let ghost lay = layout_spec(requests(parts@));
    proof {
        lemma_layout_len(requests(parts@));
        lemma_layout_end_bound(requests(parts@));
    }
    let mut rest = parts;
    let mut out: Vec<SPartition> = Vec::new();
    let mut i: usize = 0;
    while rest.len() > 0
        invariant
            i + rest@.len() == orig.len(),
            rest@ == orig.subrange(i as int, orig.len() as int),
            placements@.len() == orig.len(),
            lay.len() == orig.len(),
            end_of(lay) <= usable_end(disk_bytes),
            forall|j: int| 0 <= j < orig.len() ==> #[trigger] placement_view(placements@[j]) == lay[j] && placements@[j].id
                == j + 1,
            forall|j: int| 0 <= j < orig.len() ==> lay[j].0 + lay[j].1 <= end_of(lay),
            out@.len() == i,
            forall|j: int| 0 <= j < i ==> (#[trigger] out@[j]).placed_from(orig[j], lay[j], (j + 1) as u32),
        decreases rest@.len(),
    {
        let p = rest.remove(0);
        assert(p == orig[i as int]);
        let pl = placements[i];
        assert(placement_view(pl) == lay[i as int]);
        assert(pl.first_lba + pl.length_lba <= end_of(lay));
        assert((pl.first_lba + pl.length_lba) * 512 <= disk_bytes) by (nonlinear_arith)
            requires
                pl.first_lba + pl.length_lba <= end_of(lay),
                end_of(lay) <= usable_end(disk_bytes),
                usable_end(disk_bytes) == disk_bytes / 512 - 33,
        ;
        assert(pl.first_lba * 512 <= (pl.first_lba + pl.length_lba) * 512) by (nonlinear_arith);
        let startb = pl.first_lba * LB_SIZE;
        let endb = (pl.first_lba + pl.length_lba) * LB_SIZE;
        let q = SPartition {
            name: p.name,
            ptype: p.ptype,
            size: p.size,
            flags: p.flags,
            id: Some(pl.id),
            startb: Some(startb),
            endb: Some(endb),
            align: p.align,
        };
        out.push(q);
        assert(rest@ =~= orig.subrange(i + 1, orig.len() as int));
        i = i + 1;
    }
    Ok(out)
}

/// What `plan_layout` gives, over the partitions' requests alone.
pub open spec fn plan_layout_spec(ps: Seq<SPartition>, disk_bytes: u64) -> Result<(), LayoutError> {
    if ps.len() > MAX_PARTITIONS {
        Err(LayoutError::TooManyPartitions)
    } else if exists|i: int| 0 <= i < ps.len() && !valid_request(#[trigger] request(ps[i])) {
        Err(LayoutError::BadRequest)
    } else if end_of(layout_spec(requests(ps))) > usable_end(disk_bytes) {
        Err(LayoutError::NoSpace)
    } else {
        Ok(())
    }
}

proof fn lemma_layout_end_bound(reqs: Seq<(u64, Option<u64>)>)
    ensures
        forall|j: int| 0 <= j < reqs.len() ==> #[trigger] layout_spec(reqs)[j].0 + layout_spec(reqs)[j].1 <= end_of(
            layout_spec(reqs),
        ),
        forall|j: int| 0 <= j < reqs.len() ==> #[trigger] layout_spec(reqs)[j].0 >= FIRST_USABLE_LBA,
    decreases reqs.len(),
{
    if reqs.len() > 0 {
        let pre = reqs.drop_last();
        lemma_layout_end_bound(pre);
        lemma_layout_len(pre);
        lemma_layout_end_grows(pre);
        let prev = layout_spec(pre);
        let all = layout_spec(reqs);
        let a = align_of(reqs.last().1);
        if a > 0 {
            lemma_align_up(end_of(prev), a);
        }
        assert forall|j: int| 0 <= j < reqs.len() implies #[trigger] all[j].0 + all[j].1 <= end_of(all) && all[j].0
            >= FIRST_USABLE_LBA by {
            if j < pre.len() {
                assert(all[j] == prev[j]);
            }
        }
    }
}

/// Container kinds that carry a partitioned disk image.
#[derive(Debug, Clone, Copy, PartialEq, Eq, Structural)]
pub enum PackType {
    VHD,
    IMG,
}

/// Headroom that a fixed VHD gets beyond the estimated disk, for its footer.
pub const VHD_HEADROOM: u64 = 1024 * 1024;

/// Everything that writing a media disk needs to know in advance.
#[derive(Debug)]
pub struct DiskPlan {
    /// Bytes of the partitioned disk.
    pub disk_bytes: u64,
    /// Bytes of the container to create (a VHD gets headroom for its footer).
    pub container_bytes: u64,
    /// Blocks that the protective MBR declares.
    pub mbr_blocks: u32,
    /// The partitions, placed.
    pub partitions: Vec<SPartition>,
}

/// The one partition of a media disk: `Basic Data` (Windows Setup does not find
/// its files on an EFI System partition), named `efi`, aligned to 1 MiB.
pub fn media_partition(media_bytes: u64) -> (r: SPartition)
    ensures
        r.name@ == "efi"@,
        r.ptype == PartitionKind::BasicData,
        r.size == media_bytes,
        r.flags == 0,
        r.align == Some(DEFAULT_ALIGN_LBAS),
        r.id is None && r.startb is None && r.endb is None,
{
    SPartition {
        name: String::from_str("efi"),
        ptype: PartitionKind::BasicData,
        size: media_bytes,
        flags: 0,
        id: None,
        startb: None,
        endb: None,
        align: Some(DEFAULT_ALIGN_LBAS),
    }
}

/// Plans a disk for the partitions: estimated size, protective MBR extent, and the
/// placed partitions.
pub fn plan_disk(parts: Vec<SPartition>, o_type: PackType) -> (r: Result<DiskPlan, LayoutError>)
    ensures
        match r {
            Ok(plan) => {
                &&& plan.disk_bytes == estimate_spec(parts@)
                &&& plan_layout_spec(parts@, plan.disk_bytes) is Ok
                &&& plan.container_bytes == plan.disk_bytes + if o_type == PackType::VHD {
                    VHD_HEADROOM
                } else {
                    0
                }
                &&& plan.mbr_blocks == mbr_blocks_spec(plan.disk_bytes)
                &&& plan.partitions@.len() == parts@.len()
                &&& forall|i: int| 0 <= i < parts@.len() ==> (#[trigger] plan.partitions@[i]).placed_from(
                    parts@[i],
                    layout_spec(requests(parts@))[i],
                    (i + 1) as u32,
                )
            },
            Err(LayoutError::Overflow) => estimate_spec(parts@) + if o_type == PackType::VHD {
                VHD_HEADROOM
            } else {
                0
            } > u64::MAX,
            Err(e) => estimate_spec(parts@) <= u64::MAX && plan_layout_spec(parts@, estimate_spec(parts@) as u64) == Err::<(), LayoutError>(e),
        },
        ((forall|i: int| 0 <= i < parts@.len() ==> modest_alignment(#[trigger] request(parts@[i])) && valid_request(
            request(parts@[i]),
        )) && parts@.len() <= MAX_PARTITIONS && estimate_spec(parts@) + if o_type == PackType::VHD {
            VHD_HEADROOM
        } else {
            0
        } <= u64::MAX) ==> r is Ok,
{
    let disk_bytes = estimate_size(&parts)?;
    let container_bytes = match o_type {
        PackType::VHD => {
            if disk_bytes > u64::MAX - VHD_HEADROOM {
                return Err(LayoutError::Overflow);
            }
            disk_bytes + VHD_HEADROOM
        },
        PackType::IMG => disk_bytes,
    };
    proof {
        if forall|i: int| 0 <= i < parts@.len() ==> modest_alignment(#[trigger] request(parts@[i])) {
            lemma_estimate_fits(parts@);
        }
    }
    let placed = lay_out(parts, disk_bytes)?;
    Ok(DiskPlan { disk_bytes, container_bytes, mbr_blocks: mbr_blocks(disk_bytes), partitions: placed })
}


/// Blocks that a layout can use beyond the first usable block: each partition's
/// alignment gap (less than its alignment) and its blocks.
pub open spec fn layout_budget(reqs: Seq<(u64, Option<u64>)>) -> nat
    decreases reqs.len(),
{
    if reqs.len() == 0 {
        0
    } else {
        layout_budget(reqs.drop_last()) + (align_of(reqs.last().1) - 1) as nat + lbas_for(reqs.last().0 as nat)
    }
}

pub open spec fn sum_request_sizes(reqs: Seq<(u64, Option<u64>)>) -> nat
    decreases reqs.len(),
{
    if reqs.len() == 0 {
        0
    } else {
        sum_request_sizes(reqs.drop_last()) + reqs.last().0 as nat
    }
}

/// Alignment of at most 2 MiB, and not zero.
pub open spec fn modest_alignment(r: (u64, Option<u64>)) -> bool {
    match r.1 {
        None => true,
        Some(a) => 0 < a <= 2 * DEFAULT_ALIGN_LBAS,
    }
}

proof fn lemma_layout_within_budget(reqs: Seq<(u64, Option<u64>)>)
    requires
        forall|i: int| 0 <= i < reqs.len() ==> modest_alignment(#[trigger] reqs[i]),
    ensures
        end_of(layout_spec(reqs)) <= FIRST_USABLE_LBA + layout_budget(reqs),
        512 * layout_budget(reqs) + reqs.len() <= sum_request_sizes(reqs) + 512 * 4096 * reqs.len(),
    decreases reqs.len(),
{
    if reqs.len() > 0 {
        let pre = reqs.drop_last();
        assert forall|i: int| 0 <= i < pre.len() implies modest_alignment(#[trigger] pre[i]) by {
            assert(pre[i] == reqs[i]);
        }
        lemma_layout_within_budget(pre);
        assert(modest_alignment(reqs[reqs.len() - 1]));
        let a = align_of(reqs.last().1);
        lemma_align_up(end_of(layout_spec(pre)), a);
        let sz = reqs.last().0 as nat;
        let l = lbas_for(sz);
        assert(512 * l <= sz + 511) by (nonlinear_arith)
            requires
                l == (sz + 511) / 512,
        ;
        assert(512 * ((a - 1) as nat + l) + 1 <= sz + 512 * 4096) by (nonlinear_arith)
            requires
                512 * l <= sz + 511,
                1 <= a <= 4096,
        ;
        assert(512 * layout_budget(reqs) == 512 * layout_budget(pre) + 512 * ((a - 1) as nat + l)) by (nonlinear_arith)
            requires
                layout_budget(reqs) == layout_budget(pre) + (a - 1) as nat + l,
        ;
        assert(512 * 4096 * reqs.len() == 512 * 4096 * pre.len() + 512 * 4096) by (nonlinear_arith)
            requires
                reqs.len() == pre.len() + 1,
        ;
    }
}

proof fn lemma_sum_sizes_requests(ps: Seq<SPartition>)
    ensures
        sum_sizes(ps) == sum_request_sizes(requests(ps)),
        requests(ps).len() == ps.len(),
    decreases ps.len(),
{
    if ps.len() > 0 {
        lemma_sum_sizes_requests(ps.drop_last());
        assert(requests(ps).drop_last() =~= requests(ps.drop_last()));
    }
}

/// The estimated size always suffices: laid out on a disk of the estimated size,
/// partitions aligned to at most 2 MiB end before the backup GPT.
pub proof fn lemma_estimate_fits(parts: Seq<SPartition>)
    requires
        forall|i: int| 0 <= i < parts.len() ==> modest_alignment(#[trigger] request(parts[i])),
        estimate_spec(parts) <= u64::MAX,
    ensures
        end_of(layout_spec(requests(parts))) <= usable_end(estimate_spec(parts) as u64),
{
    let reqs = requests(parts);
    lemma_sum_sizes_requests(parts);
    assert forall|i: int| 0 <= i < reqs.len() implies modest_alignment(#[trigger] reqs[i]) by {
        assert(reqs[i] == request(parts[i]));
    }
    lemma_layout_within_budget(reqs);
    let b = layout_budget(reqs);
    let n = parts.len();
    let sz = sum_sizes(parts);
    let est = estimate_spec(parts);
    assert(est == sz + 2 * 1048576 * n + 2097152);
    assert(b <= sz / 512 + 4096 * n) by (nonlinear_arith)
        requires
            512 * b + n <= sz + 512 * 4096 * n,
    ;
    assert(est / 512 == sz / 512 + 4096 * n + 4096) by (nonlinear_arith)
        requires
            est == sz + 2 * 1048576 * n + 2097152,
    ;
}

} // verus!
