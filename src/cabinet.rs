//! Layout check of a cabinet (CAB) archive, before its members are read.
//!
//! Every file entry names a folder and an offset into the folder's uncompressed
//! data. The check walks the header, the folder table, the file table and, for
//! each file, the chain of data blocks of its folder, and accepts the archive only
//! where each file's offset is reached by a data block (and, in an uncompressed
//! folder, lies inside the bytes that block stores). Reading a member of an
//! archive that fails the check is not attempted.
use vstd::prelude::*;

verus! {

/// Largest archive, in bytes, that the check accepts.
pub const MAX_ARCHIVE: u64 = 0x1_0000_0000_0000;

pub open spec fn u16_at(d: Seq<u8>, p: int) -> int {
    d[p] as int + d[p + 1] as int * 256
}

pub open spec fn u32_at(d: Seq<u8>, p: int) -> int {
    d[p] as int + d[p + 1] as int * 256 + d[p + 2] as int * 65536 + d[p + 3] as int * 16777216
}

/// The bit of byte `b` whose value is `m` (a power of two).
pub open spec fn bit(b: u8, m: nat) -> bool {
    (b as nat / m) % 2 == 1
}

/// Position after the NUL-terminated string that starts at `p`.
pub open spec fn cstr_end(d: Seq<u8>, p: int) -> Option<int>
    decreases d.len() - p,
{
    if p < 0 || p >= d.len() {
        None
    } else if d[p] == 0 {
        Some(p + 1)
    } else {
        cstr_end(d, p + 1)
    }
}

/// Position after two NUL-terminated strings.
pub open spec fn two_cstr_end(d: Seq<u8>, p: int) -> Option<int> {
    match cstr_end(d, p) {
        Some(q) => cstr_end(d, q),
        None => None,
    }
}

/// The data blocks from `pos` on (`remaining` of them, uncompressed bytes before
/// them `cum`) reach offset `off`: some block ends at or after `off`, every block
/// up to it lies inside the archive, and where the folder is uncompressed
/// (`ctype` 0) the offset lies inside the bytes that block stores.
pub open spec fn blocks_reach(d: Seq<u8>, pos: int, remaining: int, dres: int, cum: int, off: int, ctype: int) -> bool
    decreases remaining,
{
    if remaining <= 0 || pos < 0 || pos + 8 + dres > d.len() {
        false
    } else {
        let csize = u16_at(d, pos + 4);
        let usize_ = u16_at(d, pos + 6);
        if pos + 8 + dres + csize > d.len() {
            false
        } else if cum + usize_ >= off {
            ctype == 0 ==> off - cum <= csize
        } else {
            blocks_reach(d, pos + 8 + dres + csize, remaining - 1, dres, cum + usize_, off, ctype)
        }
    }
}

/// Each of `remaining` file entries from `pos` on names a folder of the table at
/// `fpos` (`nfolders` entries of `8 + frsv` bytes), whose blocks reach the entry's
/// offset.
pub open spec fn files_ok(d: Seq<u8>, pos: int, remaining: int, fpos: int, nfolders: int, frsv: int, dres: int) -> bool
    decreases remaining,
{
    if remaining <= 0 {
        true
    } else if pos < 0 || pos + 16 > d.len() {
        false
    } else {
        let off = u32_at(d, pos + 4);
        let fi = u16_at(d, pos + 8);
        let fq = fpos + fi * (8 + frsv);
        if fi >= nfolders || fq < 0 || fq + 8 > d.len() {
            false
        } else if !(off == 0 || blocks_reach(d, u32_at(d, fq), u16_at(d, fq + 4), dres, 0, off, d[fq + 6] as int % 16)) {
            false
        } else {
            match cstr_end(d, pos + 16) {
                None => false,
                Some(e) => files_ok(d, e, remaining - 1, fpos, nfolders, frsv, dres),
            }
        }
    }
}

pub open spec fn reserve_present(d: Seq<u8>) -> bool {
    bit(d[30], 4)
}

/// Position after the fixed header and its reserve fields.
pub open spec fn after_header(d: Seq<u8>) -> int {
    if reserve_present(d) {
        40 + u16_at(d, 36)
    } else {
        36
    }
}

pub open spec fn folder_reserve(d: Seq<u8>) -> int {
    if reserve_present(d) {
        d[38] as int
    } else {
        0
    }
}

pub open spec fn data_reserve(d: Seq<u8>) -> int {
    if reserve_present(d) {
        d[39] as int
    } else {
        0
    }
}

/// Position after the optional names of the previous cabinet.
pub open spec fn after_prev(d: Seq<u8>) -> Option<int> {
    if bit(d[30], 1) {
        two_cstr_end(d, after_header(d))
    } else {
        Some(after_header(d))
    }
}

/// The folder table's position: after the header, its reserve and the optional
/// names of the previous and next cabinets.
pub open spec fn folder_table(d: Seq<u8>) -> Option<int> {
    if d.len() < 36 || (reserve_present(d) && d.len() < 40) {
        None
    } else {
        match after_prev(d) {
            None => None,
            Some(q) => if bit(d[30], 2) {
                two_cstr_end(d, q)
            } else {
                Some(q)
            },
        }
    }
}

/// The archive passes the layout check.
pub open spec fn cab_layout_spec(d: Seq<u8>) -> bool {
    d.len() < MAX_ARCHIVE && match folder_table(d) {
        None => false,
        Some(fpos) => files_ok(d, u32_at(d, 16), u16_at(d, 28), fpos, u16_at(d, 26), folder_reserve(d), data_reserve(d)),
    }
}

proof fn lemma_table_offset(fi: u64, frsv: u64)
    requires
        fi <= 65535,
        frsv <= 255,
    ensures
        fi * (8 + frsv) <= 65535 * 263,
{
    assert(fi * (8 + frsv) <= 65535 * 263) by (nonlinear_arith)
        requires
            fi <= 65535,
            frsv <= 255,
    ;
}

fn read_u16(d: &[u8], p: usize) -> (r: u64)
    requires
        p + 2 <= d@.len(),
    ensures
        r == u16_at(d@, p as int),
        r <= 65535,
{
    d[p] as u64 + d[p + 1] as u64 * 256
}

fn read_u32(d: &[u8], p: usize) -> (r: u64)
    requires
        p + 4 <= d@.len(),
    ensures
        r == u32_at(d@, p as int),
{
    d[p] as u64 + d[p + 1] as u64 * 256 + d[p + 2] as u64 * 65536 + d[p + 3] as u64 * 16777216
}

fn test_bit(b: u8, m: u8) -> (r: bool)
    requires
        m > 0,
    ensures
        r == bit(b, m as nat),
{
    (b / m) % 2 == 1
}

fn skip_cstr(d: &[u8], p: u64) -> (r: Option<u64>)
    ensures
        match r {
            Some(q) => cstr_end(d@, p as int) == Some(q as int) && q <= d@.len(),
            None => cstr_end(d@, p as int) is None,
        },
{
    let mut i = p;
    while i < d.len() as u64
        invariant
            p <= i,
            cstr_end(d@, p as int) == cstr_end(d@, i as int),
            forall|j: int| p <= j < i ==> d@[j] != 0,
        decreases d@.len() - i,
    {
        if d[i as usize] == 0 {
            return Some(i + 1);
        }
        i = i + 1;
    }
    None
}

fn skip_two_cstr(d: &[u8], p: u64) -> (r: Option<u64>)
    ensures
        match r {
            Some(q) => two_cstr_end(d@, p as int) == Some(q as int) && q <= d@.len(),
            None => two_cstr_end(d@, p as int) is None,
        },
{
    match skip_cstr(d, p) {
        Some(q) => skip_cstr(d, q),
        None => None,
    }
}

fn check_blocks(d: &[u8], start: u64, count: u64, dres: u64, off: u64, ctype: u64) -> (r: bool)
    requires
        dres <= 255,
        count <= 65535,
        0 < off <= u32::MAX,
        start <= u32::MAX,
        d@.len() < MAX_ARCHIVE,
    ensures
        r == blocks_reach(d@, start as int, count as int, dres as int, 0, off as int, ctype as int),
{
    let mut pos: u64 = start;
    let mut remaining: u64 = count;
    let mut cum: u64 = 0;
    while remaining > 0
        invariant
            dres <= 255,
            0 < off <= u32::MAX,
            d@.len() < MAX_ARCHIVE,
            start <= u32::MAX,
            cum < off,
            pos == start || pos <= d@.len(),
            blocks_reach(d@, start as int, count as int, dres as int, 0, off as int, ctype as int) == blocks_reach(
                d@,
                pos as int,
                remaining as int,
                dres as int,
                cum as int,
                off as int,
                ctype as int,
            ),
        decreases remaining,
    {
        if pos + 8 + dres > d.len() as u64 {
            return false;
        }
        let csize = read_u16(d, (pos + 4) as usize);
        let usz = read_u16(d, (pos + 6) as usize);
        if pos + 8 + dres + csize > d.len() as u64 {
            return false;
        }
        if cum + usz >= off {
            return ctype != 0 || off - cum <= csize;
        }
        pos = pos + 8 + dres + csize;
        cum = cum + usz;
        remaining = remaining - 1;
    }
    false
}

/// Checks the layout of a cabinet archive.
pub fn cab_layout_ok(d: &[u8]) -> (r: bool)
    ensures
        r == cab_layout_spec(d@),
{
    if d.len() < 36 || d.len() as u64 >= MAX_ARCHIVE {
        return false;
    }
    let flags = d[30];
    let reserve = test_bit(flags, 4);
    assert(reserve == reserve_present(d@));
    if reserve && d.len() < 40 {
        return false;
    }
    let (p1, frsv, dres): (u64, u64, u64) = if reserve {
        (40 + read_u16(d, 36), d[38] as u64, d[39] as u64)
    } else {
        (36, 0, 0)
    };
    assert(p1 == after_header(d@) && frsv == folder_reserve(d@) && dres == data_reserve(d@));
    let q2 = if test_bit(flags, 1) {
        match skip_two_cstr(d, p1) {
            Some(q) => q,
            None => return false,
        }
    } else {
        p1
    };
    assert(after_prev(d@) == Some(q2 as int));
    let fpos = if test_bit(flags, 2) {
        match skip_two_cstr(d, q2) {
            Some(q) => q,
            None => return false,
        }
    } else {
        q2
    };
    assert(folder_table(d@) == Some(fpos as int));
    assert(fpos <= d@.len() + 65535 + 40);
    let nfolders = read_u16(d, 26);
    let mut remaining = read_u16(d, 28);
    let mut pos = read_u32(d, 16);
    while remaining > 0
        invariant
            frsv <= 255,
            dres <= 255,
            nfolders <= 65535,
            fpos <= d@.len() + 65535 + 40,
            d@.len() < MAX_ARCHIVE,
            pos <= u32::MAX || pos <= d@.len(),
            cab_layout_spec(d@) == files_ok(d@, pos as int, remaining as int, fpos as int, nfolders as int, frsv as int, dres as int),
        decreases remaining,
    {
        if pos + 16 > d.len() as u64 {
            return false;
        }
        let off = read_u32(d, (pos + 4) as usize);
        let fi = read_u16(d, (pos + 8) as usize);
        if fi >= nfolders {
            return false;
        }
        proof {
            lemma_table_offset(fi, frsv);
        }
        let fq = fpos + fi * (8 + frsv);
        if fq + 8 > d.len() as u64 {
            return false;
        }
        if off != 0 {
            let first = read_u32(d, fq as usize);
            let nblocks = read_u16(d, (fq + 4) as usize);
            let ctype = (d[(fq + 6) as usize] % 16) as u64;
            if !check_blocks(d, first, nblocks, dres, off, ctype) {
                return false;
            }
        }
        match skip_cstr(d, pos + 16) {
            None => return false,
            Some(e) => {
                pos = e;
            },
        }
        remaining = remaining - 1;
    }
    true
}

} // verus!
