use rinb::iso::{iso_entry_path, volume_name, ElToritoBootCatalog, Platform, MAX_ISO_NAME_LEN};

#[test]
fn boot_catalog_has_legacy_and_uefi_entries() {
    let cat = ElToritoBootCatalog::windows_media();
    assert_eq!(cat.default_entry.platform, Platform::Bios);
    assert_eq!(cat.default_entry.image_path, "etfsboot.com");
    assert_eq!(cat.default_entry.staged_from, "boot/etfsboot.com");
    assert_eq!(cat.default_entry.load_sectors, Some(4));
    assert!(cat.default_entry.no_emulation);
    assert_eq!(cat.uefi_entry.platform, Platform::Uefi);
    assert_eq!(cat.uefi_entry.image_path, "efisys.bin");
    assert_eq!(cat.uefi_entry.staged_from, "efi/microsoft/boot/efisys.bin");
    assert_eq!(cat.uefi_entry.load_sectors, None);
    assert!(cat.uefi_entry.no_emulation);
    assert_eq!(volume_name(), "RINB");
}

#[test]
fn entry_paths_use_forward_slashes() {
    assert_eq!(iso_entry_path("sources\\boot.wim", 8, MAX_ISO_NAME_LEN), Some("sources/boot.wim".to_string()));
    assert_eq!(iso_entry_path("efi/boot/bootx64.efi", 11, 32), Some("efi/boot/bootx64.efi".to_string()));
    assert_eq!(iso_entry_path("", 0, 0), Some(String::new()));
}

#[test]
fn long_names_are_left_out() {
    assert_eq!(MAX_ISO_NAME_LEN, 32);
    assert_eq!(iso_entry_path("a/very_long_name_that_exceeds_the_limit.txt", 40, 32), None);
    assert_eq!(iso_entry_path("x", 33, 32), None);
    assert!(iso_entry_path("x", 32, 32).is_some());
}
