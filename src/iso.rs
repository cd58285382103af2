//! The ISO 9660 packer's decisions: the El-Torito boot catalog of Windows media,
//! and which staged files go into the image under which path.
use vstd::prelude::*;
use vstd::string::StringExecFns;
use vstd::string::StrSliceExecFns;
use crate::text::push_char;

verus! {

/// Firmware that a boot entry is for.
#[derive(Debug, Clone, Copy, PartialEq, Eq, Structural)]
pub enum Platform {
    Bios,
    Uefi,
}

/// One boot entry: the image's path at the ISO root, the staged file it is copied
/// from, the sectors to load (`None`: computed by the ISO writer), and no
/// emulation.
#[derive(Debug)]
pub struct BootEntry {
    pub platform: Platform,
    pub image_path: String,
    pub staged_from: String,
    pub load_sectors: Option<u16>,
    pub no_emulation: bool,
}

/// The boot catalog of Windows installation media: a legacy BIOS default entry
/// and a UEFI entry.
#[derive(Debug)]
pub struct ElToritoBootCatalog {
    pub default_entry: BootEntry,
    pub uefi_entry: BootEntry,
}

impl ElToritoBootCatalog {
    /// `etfsboot.com` (4 sectors) for BIOS, `efisys.bin` for UEFI, both without
    /// emulation, each copied to the root from where Windows media keeps it.
    pub fn windows_media() -> (r: ElToritoBootCatalog)
        ensures
            r.default_entry.platform == Platform::Bios,
            r.default_entry.image_path@ == "etfsboot.com"@,
            r.default_entry.staged_from@ == "boot/etfsboot.com"@,
            r.default_entry.load_sectors == Some(4u16),
            r.default_entry.no_emulation,
            r.uefi_entry.platform == Platform::Uefi,
            r.uefi_entry.image_path@ == "efisys.bin"@,
            r.uefi_entry.staged_from@ == "efi/microsoft/boot/efisys.bin"@,
            r.uefi_entry.load_sectors is None,
            r.uefi_entry.no_emulation,
    {
        ElToritoBootCatalog {
            default_entry: BootEntry {
                platform: Platform::Bios,
                image_path: String::from_str("etfsboot.com"),
                staged_from: String::from_str("boot/etfsboot.com"),
                load_sectors: Some(4),
                no_emulation: true,
            },
            uefi_entry: BootEntry {
                platform: Platform::Uefi,
                image_path: String::from_str("efisys.bin"),
                staged_from: String::from_str("efi/microsoft/boot/efisys.bin"),
                load_sectors: None,
                no_emulation: true,
            },
        }
    }
}

/// Volume name of the ISO image.
pub fn volume_name() -> (r: String)
    ensures
        r@ == "RINB"@,
{
    String::from_str("RINB")
}

/// Longest file name, in bytes, that goes into the image by default.
pub const MAX_ISO_NAME_LEN: usize = 32;

pub open spec fn slash(c: char) -> char {
    if c == '\\' {
        '/'
    } else {
        c
    }
}

/// A relative path with `/` for every `\`.
pub open spec fn forward_slashes(s: Seq<char>) -> Seq<char> {
    s.map_values(|c: char| slash(c))
}

/// The path under which a staged file goes into the image: its relative path with
/// forward slashes; `None` (the file is left out) where its name is longer than
/// `max_len` bytes.
pub fn iso_entry_path(rel_path: &str, name_bytes: usize, max_len: usize) -> (r: Option<String>)
    ensures
        match r {
            Some(p) => name_bytes <= max_len && p@ == forward_slashes(rel_path@),
            None => name_bytes > max_len,
        },
{
    if name_bytes > max_len {
        return None;
    }
    let n = rel_path.unicode_len();
    let mut out = String::new();
    let mut i: usize = 0;
    while i < n
        invariant
            n == rel_path@.len(),
            i <= n,
            out@ == forward_slashes(rel_path@.subrange(0, i as int)),
        decreases n - i,
    {
        let c = rel_path.get_char(i);
        let d = if c == '\\' { '/' } else { c };
        push_char(&mut out, d);
        assert(forward_slashes(rel_path@.subrange(0, i + 1)) =~= forward_slashes(rel_path@.subrange(0, i as int)).push(d));
        i = i + 1;
    }
    assert(rel_path@.subrange(0, n as int) =~= rel_path@);
    Some(out)
}

} // verus!
