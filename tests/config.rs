use rinb::config::{
    default_arch, default_edition, default_lang, default_major_winver, Arch, Args, Config,
    ConfigError, MajorWinVer, OutType,
};

fn config_with(sha1size: Option<&str>, url: Option<&str>) -> Config {
    Config {
        lang: "en-us".to_string(),
        arch: Arch::Amd64,
        edition: "Professional".to_string(),
        version: MajorWinVer::Win11,
        sha1size: sha1size.map(|s| s.to_string()),
        url: url.map(|s| s.to_string()),
    }
}

fn args_for(config: &str) -> Args {
    Args {
        config: config.to_string(),
        out: "out/devwin.iso".to_string(),
        o_type: OutType::ISO,
        cache_path: "./.rinbcache/esd_cache".to_string(),
    }
}

#[test]
fn arch_wire_names() {
    assert_eq!(Arch::Amd64.as_str(), "x64");
    assert_eq!(Arch::Arm64.as_str(), "arm64");
    assert_eq!(Arch::X86.as_str(), "x86");
}

#[test]
fn version_names() {
    assert_eq!(MajorWinVer::Win10.as_str(), "10");
    assert_eq!(MajorWinVer::Win11.as_str(), "11");
}

#[test]
fn defaults() {
    assert_eq!(default_lang(), "en-us");
    assert_eq!(default_edition(), "Professional");
    assert_eq!(default_arch(), Arch::Amd64);
    assert_eq!(default_major_winver(), MajorWinVer::Win11);
}

#[test]
fn sha1size_parses() {
    let c = config_with(Some("a9993e364706816aba3e25717850c26c9cd0d89d:4096"), None);
    let (sha1, size) = c.parse_sha1size().unwrap();
    assert_eq!(sha1, "a9993e364706816aba3e25717850c26c9cd0d89d");
    assert_eq!(size, 4096);
}

const DIGEST: &str = "a9993e364706816aba3e25717850c26c9cd0d89d";

#[test]
fn sha1size_digest_must_be_forty_lowercase_hex() {
    assert_eq!(config_with(Some("abc:5"), None).parse_sha1size().unwrap_err(), ConfigError::MalformedSha1Size);
    assert_eq!(config_with(Some("ab:cd:5"), None).parse_sha1size().unwrap_err(), ConfigError::MalformedSha1Size);
    let upper = "A9993E364706816ABA3E25717850C26C9CD0D89D:5";
    assert_eq!(config_with(Some(upper), None).parse_sha1size().unwrap_err(), ConfigError::MalformedSha1Size);
    let short = &DIGEST[..39];
    assert_eq!(config_with(Some(&format!("{short}:5")), None).parse_sha1size().unwrap_err(), ConfigError::MalformedSha1Size);
    let long = format!("{DIGEST}0:5");
    assert_eq!(config_with(Some(&long), None).parse_sha1size().unwrap_err(), ConfigError::MalformedSha1Size);
}

#[test]
fn sha1size_size_must_be_plain_digits() {
    let c = config_with(Some(&format!("{DIGEST}:+7")), None);
    assert_eq!(c.parse_sha1size().unwrap_err(), ConfigError::InvalidSize);
    let c = config_with(Some(&format!("{DIGEST}:7:8")), None);
    assert_eq!(c.parse_sha1size().unwrap_err(), ConfigError::InvalidSize);
}

#[test]
fn sha1size_missing() {
    let c = config_with(None, None);
    assert_eq!(c.parse_sha1size().unwrap_err(), ConfigError::MissingSha1Size);
}

#[test]
fn sha1size_without_colon() {
    let c = config_with(Some("abcdef"), None);
    assert_eq!(c.parse_sha1size().unwrap_err(), ConfigError::MalformedSha1Size);
}

#[test]
fn sha1size_with_bad_size() {
    let bad = |size: &str| config_with(Some(&format!("{DIGEST}:{size}")), None).parse_sha1size();
    assert_eq!(bad("x1").unwrap_err(), ConfigError::InvalidSize);
    assert_eq!(bad("").unwrap_err(), ConfigError::InvalidSize);
    assert_eq!(bad("+").unwrap_err(), ConfigError::InvalidSize);
    assert_eq!(bad("18446744073709551616").unwrap_err(), ConfigError::InvalidSize);
    assert_eq!(bad("18446744073709551615").unwrap(), (DIGEST.to_string(), u64::MAX));
    assert_eq!(bad("0").unwrap(), (DIGEST.to_string(), 0));
}

#[test]
fn url_without_sha1size_is_a_config_error() {
    let c = config_with(None, Some("https://example.com/a.esd"));
    assert_eq!(c.validate(), Err(ConfigError::UrlWithoutSha1Size));
    assert_eq!(config_with(Some("x"), Some("https://example.com/a.esd")).validate(), Ok(()));
    assert_eq!(config_with(None, None).validate(), Ok(()));
}

#[test]
fn lock_path_inserts_before_first_dot() {
    assert_eq!(args_for("rinb.json").lock_path(), "rinb.lock.json");
    assert_eq!(args_for("cfg/rinb.json5").lock_path(), "cfg/rinb.lock.json5");
    assert_eq!(args_for("a.dir/b.c.d").lock_path(), "a.dir/b.lock.c.d");
    assert_eq!(args_for("plain").lock_path(), "plain.lock");
    assert_eq!(args_for("/etc/x/plain").lock_path(), "/etc/x/plain.lock");
}

#[test]
fn lock_path_ignores_trailing_slashes() {
    assert_eq!(args_for("cfg/").lock_path(), "cfg.lock");
    assert_eq!(args_for("a/cfg.json//").lock_path(), "a/cfg.lock.json");
    assert_eq!(args_for("/").lock_path(), ".lock");
    assert_eq!(args_for("cfg/..").lock_path(), "cfg/.lock");
    assert_eq!(args_for("..").lock_path(), ".lock");
}
