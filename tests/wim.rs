use rinb::wim::{
    split_size, worker_threads, Compression, ExpectEqual, ImageInfo, TempFile, WimError, ESD,
    WIM_CHUNK_SIZE,
};

fn image(index: u32, name: &str, edition: &str, flags: &str) -> ImageInfo {
    ImageInfo {
        index,
        name: name.to_string(),
        description: format!("{name} description"),
        size: 1000 + index as i64,
        edition_id: edition.to_string(),
        flags: flags.to_string(),
    }
}

fn windows_esd(install: &[&str]) -> ESD {
    let mut images = vec![
        image(1, "Windows Setup Media", "", ""),
        image(2, "Microsoft Windows PE (amd64)", "WindowsPE", "9"),
        image(3, "Microsoft Windows Setup (amd64)", "WindowsPE", "2"),
    ];
    for (i, ed) in install.iter().enumerate() {
        images.push(image(4 + i as u32, &format!("Windows 11 {ed}"), ed, ed));
    }
    ESD::new("x.esd".to_string(), images).unwrap()
}

#[test]
fn image_table_must_be_in_order() {
    let images = vec![image(1, "a", "", ""), image(3, "b", "", "")];
    assert!(matches!(ESD::new("x".to_string(), images), Err(WimError::BadIndex)));
    let esd = windows_esd(&["Core"]);
    assert_eq!(esd.get_img_info().len(), 4);
    assert_eq!(esd.get_img_info()[3].edition_id, "Core");
}

#[test]
fn base_image_is_index_one() {
    assert_eq!(windows_esd(&[]).base().unwrap(), 1);
    let esd = ESD::new("x".to_string(), vec![image(1, "Something else", "", "")]).unwrap();
    match esd.base() {
        Err(WimError::Layout(e)) => {
            assert_eq!(e.expected, "Windows Setup Media");
            assert_eq!(e.got, "Something else");
            assert_eq!(e.message, "Unexpected image name at index 1");
        }
        other => panic!("unexpected {other:?}"),
    }
    let empty = ESD::new("x".to_string(), vec![]).unwrap();
    assert!(matches!(empty.base(), Err(WimError::MissingImage(1))));
}

#[test]
fn boot_images_are_checked_and_exported_bootable() {
    let esd = windows_esd(&["Professional"]);
    let pe = esd.win_pe().unwrap();
    assert_eq!(pe.source_index, 2);
    assert!(pe.bootable);
    assert_eq!(pe.name, "Microsoft Windows PE (amd64)");
    assert_eq!(pe.compression, Compression::Lzx);
    assert_eq!(pe.chunk_size, 32768);
    let setup = esd.boot().unwrap();
    assert_eq!(setup.source_index, 3);
    assert_eq!(setup.description, "Microsoft Windows Setup (amd64) description");
    assert_eq!(WIM_CHUNK_SIZE, 32 * 1024);
}

#[test]
fn boot_wim_holds_setup_and_optionally_winpe() {
    let esd = windows_esd(&["Professional"]);
    let only = esd.boot_wim_plan(false).unwrap();
    assert_eq!(only.iter().map(|p| p.source_index).collect::<Vec<_>>(), vec![3]);
    let both = esd.boot_wim_plan(true).unwrap();
    assert_eq!(both.iter().map(|p| p.source_index).collect::<Vec<_>>(), vec![2, 3]);
    assert!(both.iter().all(|p| p.bootable));
}

#[test]
fn wrong_boot_image_flags_are_refused() {
    let images = vec![
        image(1, "Windows Setup Media", "", ""),
        image(2, "pe", "WindowsPE", "2"),
        image(3, "setup", "Professional", "2"),
    ];
    let esd = ESD::new("x".to_string(), images).unwrap();
    match esd.win_pe() {
        Err(WimError::Layout(e)) => {
            assert_eq!(e.expected, "9");
            assert_eq!(e.got, "2");
        }
        other => panic!("unexpected {other:?}"),
    }
    match esd.boot() {
        Err(WimError::Layout(e)) => assert_eq!(e.got, "Professional"),
        other => panic!("unexpected {other:?}"),
    }
    assert!(esd.boot_wim_plan(false).is_err());
}

#[test]
fn export_of_missing_image() {
    let esd = windows_esd(&[]);
    assert!(matches!(esd.export_img(9, false), Err(WimError::MissingImage(9))));
    assert!(matches!(esd.export_img(0, false), Err(WimError::MissingImage(0))));
    let p = esd.export_img(1, false).unwrap();
    assert!(!p.bootable);
    assert_eq!(p.name, "Windows Setup Media");
}

#[test]
fn install_image_by_edition() {
    let esd = windows_esd(&["Core", "Professional", "Education"]);
    assert_eq!(esd.install("Professional").unwrap(), Some(5));
    assert_eq!(esd.install_index("Education").unwrap(), 6);
    assert_eq!(esd.install("professional").unwrap(), None);
    assert!(matches!(esd.install_index("Enterprise"), Err(WimError::InstallEditionNotFound)));
}

#[test]
fn boot_images_are_not_install_candidates() {
    let esd = windows_esd(&["Core"]);
    assert_eq!(esd.install("WindowsPE").unwrap(), None);
}

#[test]
fn duplicate_install_editions_are_fatal() {
    let esd = windows_esd(&["Core", "Professional", "Professional"]);
    assert!(matches!(esd.install("Professional"), Err(WimError::MultipleInstallEditions)));
    assert!(matches!(esd.install_index("Professional"), Err(WimError::MultipleInstallEditions)));
}

#[test]
fn split_only_oversized_archives() {
    assert_eq!(split_size(100, 50), Some(45));
    assert_eq!(split_size(50, 50), None);
    assert_eq!(split_size(4_294_967_296, 4_000_000_000), Some(3_600_000_000));
    assert_eq!(split_size(u64::MAX, u64::MAX - 1), Some(16602069666338596452));
    assert_eq!(split_size(20, 19), Some(17));
}

#[test]
fn thread_count_falls_back_to_eight() {
    assert_eq!(worker_threads(None), 8);
    assert_eq!(worker_threads(Some(12)), 12);
    assert_eq!(worker_threads(Some(usize::MAX)), u32::MAX);
}

#[test]
fn expect_equal_reports_both_values() {
    let got = "2".to_string();
    assert_eq!(got.expect_equal(&"2".to_string(), "flags").unwrap(), "2");
    let e = got.expect_equal(&"9".to_string(), "flags").unwrap_err();
    assert_eq!((e.message.as_str(), e.expected.as_str(), e.got.as_str()), ("flags", "9", "2"));
}

#[test]
fn temp_archive_name() {
    assert_eq!(TempFile::name_for("0123abcd"), "rinb_tmp_file_0123abcd.wim");
}

#[test]
fn cleanup_keeps_the_table() {
    let mut esd = windows_esd(&["Core"]);
    esd.cleanup();
    assert_eq!(esd.get_img_info().len(), 4);
}
