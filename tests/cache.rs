use rinb::cache::{
    cache_file_name, cache_step, check_event, format_sha1size, lock_config, pin_from_catalog,
    pin_from_config, CacheAction, CacheEvent, CacheStage, PinError,
};
use rinb::catalog::FileInfo;
use rinb::config::{Arch, Config, ConfigError, MajorWinVer};
use rinb::download::{verify_digest, VerifyError};

const SHA1: &str = "a9993e364706816aba3e25717850c26c9cd0d89d";
const URL: &str = "https://dl.example.com/upgr/26100.1742.240906-0331.ge_release_svc_refresh_CLIENTCONSUMER_RET_x64FRE_en-us.esd";

fn config(sha1size: Option<&str>, url: Option<&str>) -> Config {
    Config {
        lang: "en-us".to_string(),
        arch: Arch::Amd64,
        edition: "Professional".to_string(),
        version: MajorWinVer::Win11,
        sha1size: sha1size.map(|s| s.to_string()),
        url: url.map(|s| s.to_string()),
    }
}

fn catalog_entry() -> FileInfo {
    FileInfo {
        file_name: "x.esd".to_string(),
        language_code: "en-us".to_string(),
        language: "English".to_string(),
        edition: "Professional".to_string(),
        architecture: "x64".to_string(),
        size: 3,
        sha1: SHA1.to_string(),
        file_path: URL.to_string(),
    }
}

#[test]
fn sha1size_text() {
    assert_eq!(format_sha1size("ab", 0), "ab:0");
    assert_eq!(format_sha1size(SHA1, 18446744073709551615), format!("{SHA1}:18446744073709551615"));
}

#[test]
fn pin_from_catalog_fills_sha1size() {
    let c = config(None, None);
    assert!(c.needs_catalog());
    let pin = pin_from_catalog(&c, catalog_entry()).unwrap();
    assert_eq!(pin.url, URL);
    assert_eq!(pin.sha1, SHA1);
    assert_eq!(pin.size, 3);
    assert_eq!(pin.sha1size, format!("{SHA1}:3"));
}

#[test]
fn pin_conflict_is_fatal() {
    let c = config(Some(&format!("{SHA1}:4")), None);
    assert_eq!(pin_from_catalog(&c, catalog_entry()).unwrap_err(), PinError::PinConflict);
    let c = config(Some(&format!("{SHA1}:3")), None);
    assert!(pin_from_catalog(&c, catalog_entry()).is_ok());
    let unreadable = config(Some("garbage"), None);
    assert!(pin_from_catalog(&unreadable, catalog_entry()).is_ok());
}

#[test]
fn pin_from_pinned_config() {
    let c = config(Some(&format!("{SHA1}:99")), Some("https://example.com/a.esd"));
    assert!(!c.needs_catalog());
    let pin = pin_from_config(&c).unwrap();
    assert_eq!(pin.url, "https://example.com/a.esd");
    assert_eq!(pin.sha1, SHA1);
    assert_eq!(pin.size, 99);
    assert_eq!(pin.sha1size, format!("{SHA1}:99"));
    let bad = config(Some("0123:99"), Some("https://example.com/a.esd"));
    assert_eq!(pin_from_config(&bad).unwrap_err(), PinError::Config(ConfigError::MalformedSha1Size));
}

#[test]
fn pinned_url_without_sha1size() {
    let c = config(None, Some("https://example.com/a.esd"));
    assert_eq!(pin_from_config(&c).unwrap_err(), PinError::Config(ConfigError::MissingSha1Size));
    let c = config(Some("nocolon"), Some("https://example.com/a.esd"));
    assert_eq!(pin_from_config(&c).unwrap_err(), PinError::Config(ConfigError::MalformedSha1Size));
}

#[test]
fn cache_name_of_fresh_download() {
    let c = config(None, None);
    let pin = pin_from_catalog(&c, catalog_entry()).unwrap();
    let name = cache_file_name(&c, &pin).unwrap();
    assert_eq!(
        name,
        format!("26100.1742.240906-0331.ge_release_svc_refresh_CLIENTCONSUMER_RET_x64FRE_en-us-en-us-Professional-x64-{SHA1}.esd")
    );
    assert_eq!(cache_step(CacheStage::Lookup, CacheEvent::Missing, 3), (CacheStage::Downloading, CacheAction::Download));
    assert_eq!(cache_step(CacheStage::Downloading, CacheEvent::Accepted, 3), (CacheStage::Done, CacheAction::UseCached));
}

#[test]
fn lock_file_reproduces_selection() {
    let c = config(None, None);
    let pin = pin_from_catalog(&c, catalog_entry()).unwrap();
    let first = cache_file_name(&c, &pin).unwrap();
    let locked = lock_config(c, &pin);
    assert_eq!(locked.url.as_deref(), Some(URL));
    assert_eq!(locked.sha1size, Some(format!("{SHA1}:3")));
    assert!(!locked.needs_catalog());
    let again = pin_from_config(&locked).unwrap();
    assert_eq!(again.url, pin.url);
    assert_eq!(again.sha1, pin.sha1);
    assert_eq!(again.size, pin.size);
    assert_eq!(cache_file_name(&locked, &again).unwrap(), first);
}

#[test]
fn cached_file_of_right_content_is_reused() {
    assert_eq!(
        cache_step(CacheStage::Lookup, CacheEvent::Found { size: 3 }, 3),
        (CacheStage::Verifying, CacheAction::VerifyCached)
    );
    let digest: [u8; 20] = [
        0xa9, 0x99, 0x3e, 0x36, 0x47, 0x06, 0x81, 0x6a, 0xba, 0x3e, 0x25, 0x71, 0x78, 0x50, 0xc2, 0x6c, 0x9c, 0xd0,
        0xd8, 0x9d,
    ];
    let ev = check_event(&verify_digest(&digest, 3, 3, SHA1));
    assert_eq!(ev, CacheEvent::Accepted);
    assert_eq!(cache_step(CacheStage::Verifying, ev, 3), (CacheStage::Done, CacheAction::UseCached));
}

#[test]
fn corrupted_cache_file_is_replaced() {
    let mut digest: [u8; 20] = [
        0xa9, 0x99, 0x3e, 0x36, 0x47, 0x06, 0x81, 0x6a, 0xba, 0x3e, 0x25, 0x71, 0x78, 0x50, 0xc2, 0x6c, 0x9c, 0xd0,
        0xd8, 0x9d,
    ];
    digest[7] ^= 1;
    let ev = check_event(&verify_digest(&digest, 3, 3, SHA1));
    assert_eq!(ev, CacheEvent::Rejected);
    assert_eq!(cache_step(CacheStage::Verifying, ev, 3), (CacheStage::Downloading, CacheAction::DeleteThenDownload));
    assert_eq!(
        cache_step(CacheStage::Lookup, CacheEvent::Found { size: 4 }, 3),
        (CacheStage::Downloading, CacheAction::DeleteThenDownload)
    );
    assert_eq!(cache_step(CacheStage::Downloading, CacheEvent::Accepted, 3), (CacheStage::Done, CacheAction::UseCached));
}

#[test]
fn mismatching_download_fails_and_is_deleted() {
    let other = [0u8; 20];
    let r = verify_digest(&other, 3, 3, SHA1);
    match &r {
        Err(VerifyError::HashMismatch { expected, actual }) => {
            assert_eq!(expected, SHA1);
            assert_eq!(actual, "0000000000000000000000000000000000000000");
        }
        _ => panic!("expected a hash mismatch"),
    }
    assert_eq!(
        cache_step(CacheStage::Downloading, check_event(&r), 3),
        (CacheStage::Failed, CacheAction::DeleteThenFail)
    );
}

#[test]
fn events_outside_their_stage_are_ignored() {
    assert_eq!(cache_step(CacheStage::Done, CacheEvent::Missing, 3), (CacheStage::Done, CacheAction::Ignore));
    assert_eq!(cache_step(CacheStage::Lookup, CacheEvent::Accepted, 3), (CacheStage::Lookup, CacheAction::Ignore));
    assert_eq!(cache_step(CacheStage::Failed, CacheEvent::Rejected, 3), (CacheStage::Failed, CacheAction::Ignore));
}
