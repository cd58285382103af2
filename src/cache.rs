//! Resolution of the source archive: the pin (URL, digest, size) taken from the
//! configuration or from the catalog, the content-addressed cache file name, and
//! the decisions of the cache discipline.
use vstd::prelude::*;
use vstd::string::StringExecFns;
use crate::catalog::{filename_without_extension, opt_view, url_stem_spec, CatalogError, FileInfo};
use crate::config::{is_lower_hex, is_sha1_text, sha1size_spec, sha1size_text, Config, ConfigError};
use crate::download::VerifyError;
use crate::text::{
    decimal_of, find_first, is_either, lemma_decimal_digits, lemma_find_first_at,
    lemma_parse_decimal, push_char, push_decimal,
};

verus! {

/// What a build is pinned to: where the archive is fetched from, and its digest
/// and size.
#[derive(Debug)]
pub struct Pin {
    pub url: String,
    pub sha1: String,
    pub size: u64,
    /// `{sha1}:{size}`, as the lock file records it.
    pub sha1size: String,
}

/// Why no pin could be settled.
#[derive(Debug, Clone, Copy, PartialEq, Eq, Structural)]
pub enum PinError {
    Config(ConfigError),
    /// The configuration's `sha1size` disagrees with the catalog.
    PinConflict,
}

pub open spec fn pin_view(p: Pin) -> (Seq<char>, Seq<char>, u64, Seq<char>) {
    (p.url@, p.sha1@, p.size, p.sha1size@)
}

/// The pin of a configuration that names its URL.
pub open spec fn config_pin_spec(config: Config) -> Result<(Seq<char>, Seq<char>, u64, Seq<char>), PinError> {
    match (config.url, config.sha1size) {
        (Some(u), Some(t)) => match sha1size_spec(t@) {
            Ok((s, n)) => Ok((u@, s, n, t@)),
            Err(e) => Err(PinError::Config(e)),
        },
        _ => Err(PinError::Config(ConfigError::MissingSha1Size)),
    }
}

/// The pin given by a catalog entry; where the configuration also holds a
/// readable `sha1size`, it must agree.
pub open spec fn catalog_pin_spec(config: Config, file: FileInfo) -> Result<(Seq<char>, Seq<char>, u64, Seq<char>), PinError> {
    let ok = Ok((file.file_path@, file.sha1@, file.size, sha1size_text(file.sha1@, file.size)));
    match config.parse_sha1size_spec() {
        Ok((s, n)) => if s == file.sha1@ && n == file.size {
            ok
        } else {
            Err(PinError::PinConflict)
        },
        Err(_) => ok,
    }
}

impl Config {
    /// A configuration without a URL is resolved through the catalog.
    pub fn needs_catalog(&self) -> (r: bool)
        ensures
            r == (self.url is None),
    {
        self.url.is_none()
    }
}

/// The pin of a configuration that names its URL.
pub fn pin_from_config(config: &Config) -> (r: Result<Pin, PinError>)
    ensures
        match (r, config_pin_spec(*config)) {
            (Ok(p), Ok(q)) => pin_view(p) == q,
            (Err(e), Err(f)) => e == f,
            _ => false,
        },
{
    match (&config.url, &config.sha1size) {
        (Some(u), Some(t)) => match config.parse_sha1size() {
            Ok((sha1, size)) => Ok(Pin { url: u.clone(), sha1, size, sha1size: t.clone() }),
            Err(e) => Err(PinError::Config(e)),
        },
        _ => Err(PinError::Config(ConfigError::MissingSha1Size)),
    }
}

/// Writes `{sha1}:{size}`.
pub fn format_sha1size(sha1: &str, size: u64) -> (r: String)
    ensures
        r@ == sha1size_text(sha1@, size),
{
    let mut t = sha1.to_owned();
    push_char(&mut t, ':');
    push_decimal(&mut t, size);
    t
}

/// The pin given by a catalog entry.
pub fn pin_from_catalog(config: &Config, file: FileInfo) -> (r: Result<Pin, PinError>)
    ensures
        match (r, catalog_pin_spec(*config, file)) {
            (Ok(p), Ok(q)) => pin_view(p) == q,
            (Err(e), Err(f)) => e == f,
            _ => false,
        },
{
    match config.parse_sha1size() {
        Ok((s, n)) => {
            if !(s == file.sha1 && n == file.size) {
                return Err(PinError::PinConflict);
            }
        },
        Err(_) => {},
    }
    let sha1size = format_sha1size(file.sha1.as_str(), file.size);
    Ok(Pin { url: file.file_path, sha1: file.sha1, size: file.size, sha1size })
}

/// The cache file name: `{url file stem}-{lang}-{edition}-{arch}-{sha1}.esd`.
pub open spec fn cache_name_spec(stem: Seq<char>, config: Config, sha1: Seq<char>) -> Seq<char> {
    stem + "-"@ + config.lang@ + "-"@ + config.edition@ + "-"@ + config.arch.wire_name() + "-"@ + sha1 + ".esd"@
}

/// The name under which the archive of a pin is cached.
pub fn cache_file_name(config: &Config, pin: &Pin) -> (r: Result<String, CatalogError>)
    ensures
        match (r, url_stem_spec(pin.url@)) {
            (Ok(s), Some(stem)) => s@ == cache_name_spec(stem, *config, pin.sha1@),
            (Err(e), None) => e is NoFilename,
            _ => false,
        },
{
    let mut name = filename_without_extension(&pin.url)?;
    name.append("-");
    name.append(config.lang.as_str());
    name.append("-");
    name.append(config.edition.as_str());
    name.append("-");
    name.append(config.arch.as_str());
    name.append("-");
    name.append(pin.sha1.as_str());
    name.append(".esd");
    Ok(name)
}

/// The configuration that the lock file records: the same, with the pin's URL and
/// `sha1size` filled in.
pub fn lock_config(config: Config, pin: &Pin) -> (r: Config)
    ensures
        r.lang == config.lang,
        r.arch == config.arch,
        r.edition == config.edition,
        r.version == config.version,
        opt_view(r.url) == Some(pin.url@),
        opt_view(r.sha1size) == Some(pin.sha1size@),
{
    Config {
        lang: config.lang,
        arch: config.arch,
        edition: config.edition,
        version: config.version,
        sha1size: Some(pin.sha1size.clone()),
        url: Some(pin.url.clone()),
    }
}

proof fn lemma_sha1size_round_trip(sha1: Seq<char>, size: u64)
    requires
        is_sha1_text(sha1),
    ensures
        sha1size_spec(sha1size_text(sha1, size)) == Ok::<(Seq<char>, u64), ConfigError>((sha1, size)),
{
    let t = sha1size_text(sha1, size);
    let k = sha1.len() as int;
    assert forall|j: int| 0 <= j < k implies !is_either(':', ':')(#[trigger] t[j]) by {
        assert(t[j] == sha1[j]);
        assert(is_lower_hex(sha1[j]));
    }
    lemma_find_first_at(t, is_either(':', ':'), k);
    assert(find_first(t, is_either(':', ':')) == Some(k as nat));
    assert(t.subrange(0, k) =~= sha1);
    assert(t.subrange(k + 1, t.len() as int) =~= decimal_of(size as nat));
    lemma_parse_decimal(size);
    lemma_decimal_digits(size as nat);
}

/// Writing the lock file pins the build: a configuration that records the URL and
/// `sha1size` of a pin taken from the catalog resolves, without the catalog, to
/// the same URL, digest and size, and so to the same cache file. This holds where
/// the catalog's digest is a SHA-1 text (40 lowercase hex digits), the form that
/// a `sha1size` must have.
pub proof fn lemma_lock_stability(config: Config, file: FileInfo, lock: Config)
    requires
        catalog_pin_spec(config, file) is Ok,
        is_sha1_text(file.sha1@),
        lock.lang == config.lang,
        lock.arch == config.arch,
        lock.edition == config.edition,
        opt_view(lock.url) == Some(catalog_pin_spec(config, file)->Ok_0.0),
        opt_view(lock.sha1size) == Some(catalog_pin_spec(config, file)->Ok_0.3),
    ensures
        config_pin_spec(lock) == catalog_pin_spec(config, file),
        forall|stem: Seq<char>| #[trigger] cache_name_spec(stem, lock, file.sha1@) == cache_name_spec(stem, config, file.sha1@),
{
    lemma_sha1size_round_trip(file.sha1@, file.size);
}

/// Where the cache discipline stands.
#[derive(Debug, Clone, Copy, PartialEq, Eq, Structural)]
pub enum CacheStage {
    /// Looking for the cache file.
    Lookup,
    /// Re-reading a cache file of the right size to check its digest.
    Verifying,
    /// Fetching the archive into the cache file, checking it as it arrives.
    Downloading,
    /// The cache file holds the archive.
    Done,
    /// The archive could not be had.
    Failed,
}

/// What the caller observed.
#[derive(Debug, Clone, Copy, PartialEq, Eq, Structural)]
pub enum CacheEvent {
    /// No cache file exists.
    Missing,
    /// A cache file of this size exists.
    Found { size: u64 },
    /// The check of a read or a download passed.
    Accepted,
    /// The check of a read or a download failed.
    Rejected,
}

/// What the caller does next.
#[derive(Debug, Clone, Copy, PartialEq, Eq, Structural)]
pub enum CacheAction {
    /// Read the cache file through a stream check.
    VerifyCached,
    /// Download into the cache file through a stream check.
    Download,
    /// Delete the cache file, then download.
    DeleteThenDownload,
    /// Return the cache file.
    UseCached,
    /// Delete the cache file and report the failure.
    DeleteThenFail,
    /// Nothing: the event does not belong to the stage.
    Ignore,
}

pub open spec fn cache_step_spec(stage: CacheStage, event: CacheEvent, expected_size: u64) -> (CacheStage, CacheAction) {
    match (stage, event) {
        (CacheStage::Lookup, CacheEvent::Missing) => (CacheStage::Downloading, CacheAction::Download),
        (CacheStage::Lookup, CacheEvent::Found { size }) => if size == expected_size {
            (CacheStage::Verifying, CacheAction::VerifyCached)
        } else {
            (CacheStage::Downloading, CacheAction::DeleteThenDownload)
        },
        (CacheStage::Verifying, CacheEvent::Accepted) => (CacheStage::Done, CacheAction::UseCached),
        (CacheStage::Verifying, CacheEvent::Rejected) => (CacheStage::Downloading, CacheAction::DeleteThenDownload),
        (CacheStage::Downloading, CacheEvent::Accepted) => (CacheStage::Done, CacheAction::UseCached),
        (CacheStage::Downloading, CacheEvent::Rejected) => (CacheStage::Failed, CacheAction::DeleteThenFail),
        _ => (stage, CacheAction::Ignore),
    }
}

/// One decision of the cache discipline: a size mismatch or a failed re-check
/// deletes the cache file and downloads once; a failed download deletes the
/// partial file and fails.
pub fn cache_step(stage: CacheStage, event: CacheEvent, expected_size: u64) -> (r: (CacheStage, CacheAction))
    ensures
        r == cache_step_spec(stage, event, expected_size),
{
    match (stage, event) {
        (CacheStage::Lookup, CacheEvent::Missing) => (CacheStage::Downloading, CacheAction::Download),
        (CacheStage::Lookup, CacheEvent::Found { size }) => if size == expected_size {
            (CacheStage::Verifying, CacheAction::VerifyCached)
        } else {
            (CacheStage::Downloading, CacheAction::DeleteThenDownload)
        },
        (CacheStage::Verifying, CacheEvent::Accepted) => (CacheStage::Done, CacheAction::UseCached),
        (CacheStage::Verifying, CacheEvent::Rejected) => (CacheStage::Downloading, CacheAction::DeleteThenDownload),
        (CacheStage::Downloading, CacheEvent::Accepted) => (CacheStage::Done, CacheAction::UseCached),
        (CacheStage::Downloading, CacheEvent::Rejected) => (CacheStage::Failed, CacheAction::DeleteThenFail),
        _ => (stage, CacheAction::Ignore),
    }
}

/// The event that a finished stream check gives.
pub fn check_event(r: &Result<(), VerifyError>) -> (e: CacheEvent)
    ensures
        e == (if r is Ok { CacheEvent::Accepted } else { CacheEvent::Rejected }),
{
    match r {
        Ok(()) => CacheEvent::Accepted,
        Err(_) => CacheEvent::Rejected,
    }
}

/// A cache file whose size is right and whose re-check passes is used as it is:
/// no download, no deletion.
pub proof fn lemma_cache_hit_reuses(expected_size: u64)
    ensures
        cache_step_spec(CacheStage::Lookup, CacheEvent::Found { size: expected_size }, expected_size)
            == (CacheStage::Verifying, CacheAction::VerifyCached),
        cache_step_spec(CacheStage::Verifying, CacheEvent::Accepted, expected_size)
            == (CacheStage::Done, CacheAction::UseCached),
{
}

/// A cache file whose size is wrong, or whose re-check fails, is deleted and
/// downloaded again, once: a second failure ends the resolution.
pub proof fn lemma_cache_rejects_corrupt(expected_size: u64, size: u64)
    ensures
        size != expected_size ==> cache_step_spec(CacheStage::Lookup, CacheEvent::Found { size }, expected_size)
            == (CacheStage::Downloading, CacheAction::DeleteThenDownload),
        cache_step_spec(CacheStage::Verifying, CacheEvent::Rejected, expected_size)
            == (CacheStage::Downloading, CacheAction::DeleteThenDownload),
        cache_step_spec(CacheStage::Downloading, CacheEvent::Rejected, expected_size)
            == (CacheStage::Failed, CacheAction::DeleteThenFail),
{
}

} // verus!
