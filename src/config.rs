//! Build configuration: target language, architecture, edition, Windows version and
//! the optional pin (`url`, `sha1size`).
use vstd::prelude::*;
use vstd::string::StringExecFns;
use vstd::string::StrSliceExecFns;
use crate::text::{
    decimal_of, find_first, find_first_of, find_last, find_last_of, is_either, parse_u64,
    parse_u64_spec, lemma_find_first_bounds,
};

verus! {

/// Target architecture.
#[derive(Debug, Clone, Copy, PartialEq, Eq, Hash, Structural)]
pub enum Arch {
    Amd64,
    Arm64,
    X86,
}

impl Arch {
    /// The architecture as the catalog and the cache file names write it.
    pub open spec fn wire_name(self) -> Seq<char> {
        match self {
            Arch::Amd64 => "x64"@,
            Arch::Arm64 => "arm64"@,
            Arch::X86 => "x86"@,
        }
    }

    pub fn as_str(&self) -> (r: &'static str)
        ensures
            r@ == self.wire_name(),
    {
        match self {
            Arch::Amd64 => "x64",
            Arch::Arm64 => "arm64",
            Arch::X86 => "x86",
        }
    }
}

/// Major Windows version.
#[derive(Debug, Clone, Copy, PartialEq, Eq, Hash, Structural)]
pub enum MajorWinVer {
    Win10,
    Win11,
}

impl MajorWinVer {
    pub open spec fn version_name(self) -> Seq<char> {
        match self {
            MajorWinVer::Win10 => "10"@,
            MajorWinVer::Win11 => "11"@,
        }
    }

    pub fn as_str(&self) -> (r: &'static str)
        ensures
            r@ == self.version_name(),
    {
        match self {
            MajorWinVer::Win10 => "10",
            MajorWinVer::Win11 => "11",
        }
    }
}

pub fn default_lang() -> (r: String)
    ensures
        r@ == "en-us"@,
{
    String::from_str("en-us")
}

pub fn default_arch() -> (r: Arch)
    ensures
        r == Arch::Amd64,
{
    Arch::Amd64
}

pub fn default_major_winver() -> (r: MajorWinVer)
    ensures
        r == MajorWinVer::Win11,
{
    MajorWinVer::Win11
}

pub fn default_edition() -> (r: String)
    ensures
        r@ == "Professional"@,
{
    String::from_str("Professional")
}

/// Why a configuration was refused.
#[derive(Debug, Clone, Copy, PartialEq, Eq, Structural)]
pub enum ConfigError {
    /// `sha1size` is absent where it is needed.
    MissingSha1Size,
    /// `sha1size` holds no `:`.
    MalformedSha1Size,
    /// The part of `sha1size` after the first `:` is no `u64`.
    InvalidSize,
    /// `url` is set but `sha1size` is not.
    UrlWithoutSha1Size,
}

/// The parameters of one build.
#[derive(Debug)]
pub struct Config {
    pub lang: String,
    pub arch: Arch,
    pub edition: String,
    pub version: MajorWinVer,
    pub sha1size: Option<String>,
    pub url: Option<String>,
}

/// What `parse_sha1size` gives for a `sha1size` text: the digest text before the
/// first `:`, and the size after it.
pub open spec fn is_lower_hex(c: char) -> bool {
    ('0' <= c && c <= '9') || ('a' <= c && c <= 'f')
}

/// A SHA-1 digest as text: exactly 40 lowercase hexadecimal digits.
pub open spec fn is_sha1_text(s: Seq<char>) -> bool {
    s.len() == 40 && forall|i: int| 0 <= i < s.len() ==> is_lower_hex(#[trigger] s[i])
}

/// What `parse_sha1size` gives for a `sha1size` text, which must read
/// `{40 lowercase hex digits}:{decimal digits}` with a size that fits in a `u64`.
pub open spec fn sha1size_spec(t: Seq<char>) -> Result<(Seq<char>, u64), ConfigError> {
    match find_first(t, is_either(':', ':')) {
        None => Err(ConfigError::MalformedSha1Size),
        Some(k) => if !is_sha1_text(t.subrange(0, k as int)) {
            Err(ConfigError::MalformedSha1Size)
        } else {
            let rest = t.subrange(k + 1 as int, t.len() as int);
            if rest.len() == 0 || rest[0] == '+' {
                Err(ConfigError::InvalidSize)
            } else {
                match parse_u64_spec(rest) {
                    None => Err(ConfigError::InvalidSize),
                    Some(n) => Ok((t.subrange(0, k as int), n)),
                }
            }
        },
    }
}

/// The `sha1size` text that pins a digest and a size.
pub open spec fn sha1size_text(sha1: Seq<char>, size: u64) -> Seq<char> {
    sha1 + seq![':'] + decimal_of(size as nat)
}

impl Config {
    pub open spec fn parse_sha1size_spec(&self) -> Result<(Seq<char>, u64), ConfigError> {
        match self.sha1size {
            None => Err(ConfigError::MissingSha1Size),
            Some(t) => sha1size_spec(t@),
        }
    }

    /// Splits `sha1size` into the expected digest and the expected size.
    pub fn parse_sha1size(&self) -> (r: Result<(String, u64), ConfigError>)
        ensures
            match (r, self.parse_sha1size_spec()) {
                (Ok((s, n)), Ok((t, m))) => s@ == t && n == m,
                (Err(e), Err(f)) => e == f,
                _ => false,
            },
    {
        match &self.sha1size {
            None => Err(ConfigError::MissingSha1Size),
            Some(t) => {
                let ts = t.as_str();
                match find_first_of(ts, ':', ':') {
                    None => Err(ConfigError::MalformedSha1Size),
                    Some(k) => {
                        let n = ts.unicode_len();
                        proof {
                            lemma_find_first_bounds(ts@, is_either(':', ':'));
                        }
                        if k != 40 {
                            assert(t@.subrange(0, k as int).len() != 40);
                            return Err(ConfigError::MalformedSha1Size);
                        }
                        let mut i: usize = 0;
                        while i < 40
                            invariant
                                i <= 40,
                                k == 40,
                                40 < ts@.len(),
                                ts@ == t@,
                                self.parse_sha1size_spec() == sha1size_spec(t@),
                                find_first(t@, is_either(':', ':')) == Some(k as nat),
                                forall|j: int| 0 <= j < i ==> is_lower_hex(#[trigger] ts@[j]),
                            decreases 40 - i,
                        {
                            let c = ts.get_char(i);
                            if !(('0' <= c && c <= '9') || ('a' <= c && c <= 'f')) {
                                assert(t@.subrange(0, 40)[i as int] == c);
                                assert(!is_lower_hex(t@.subrange(0, 40)[i as int]));
                                assert(!is_sha1_text(t@.subrange(0, k as int)));
                                return Err(ConfigError::MalformedSha1Size);
                            }
                            i = i + 1;
                        }
                        assert(is_sha1_text(t@.subrange(0, 40))) by {
                            assert forall|j: int| 0 <= j < 40 implies is_lower_hex(#[trigger] t@.subrange(0, 40)[j]) by {
                                assert(t@.subrange(0, 40)[j] == ts@[j]);
                            }
                        }
                        let rest = ts.substring_char(k + 1, n);
                        assert(rest@ == t@.subrange(k + 1, t@.len() as int));
                        if rest.unicode_len() == 0 || rest.get_char(0) == '+' {
                            return Err(ConfigError::InvalidSize);
                        }
                        match parse_u64(rest) {
                            None => Err(ConfigError::InvalidSize),
                            Some(size) => {
                                let sha1 = ts.substring_char(0, k).to_owned();
                                Ok((sha1, size))
                            },
                        }
                    },
                }
            },
        }
    }

    /// Holds of every configuration that `validate` accepts: a pinned `url` comes
    /// with its `sha1size`.
    pub open spec fn valid(&self) -> bool {
        self.url is Some ==> self.sha1size is Some
    }

    /// Checks that a pinned `url` comes with its `sha1size`.
    pub fn validate(&self) -> (r: Result<(), ConfigError>)
        ensures
            r is Ok <==> self.valid(),
            r matches Err(e) ==> e == ConfigError::UrlWithoutSha1Size,
    {
        if self.url.is_some() && self.sha1size.is_none() {
            Err(ConfigError::UrlWithoutSha1Size)
        } else {
            Ok(())
        }
    }
}

/// Output container kinds.
#[derive(Debug, Clone, Copy, PartialEq, Eq, Structural)]
pub enum OutType {
    ISO,
    VHD,
    IMG,
}

/// Command-line arguments of a build.
#[derive(Debug)]
pub struct Args {
    pub config: String,
    pub out: String,
    pub o_type: OutType,
    pub cache_path: String,
}

/// A path without its trailing `/` characters.
pub open spec fn trim_slashes(p: Seq<char>) -> Seq<char>
    decreases p.len(),
{
    if p.len() > 0 && p.last() == '/' {
        trim_slashes(p.drop_last())
    } else {
        p
    }
}

/// The lock file's path for a configuration path: trailing `/` are dropped, then
/// `.lock` is inserted before the first `.` of the last path component, or
/// appended where it has none. A last component `.` or `..` names no file, so
/// `.lock` alone is placed in the directory before it.
pub open spec fn lock_path_spec(p0: Seq<char>) -> Seq<char> {
    let p = trim_slashes(p0);
    let start: int = match find_last(p, '/') {
        Some(k) => k + 1 as int,
        None => 0,
    };
    let dir = p.subrange(0, start);
    let last = p.subrange(start, p.len() as int);
    let base = if last == seq!['.'] || last == seq!['.', '.'] {
        Seq::empty()
    } else {
        last
    };
    match find_first(base, is_either('.', '.')) {
        None => dir + base + ".lock"@,
        Some(k) => dir + base.subrange(0, k as int) + ".lock"@ + base.subrange(k as int, base.len() as int),
    }
}

impl Args {
    /// Path of the lock file that pins this configuration.
    pub fn lock_path(&self) -> (r: String)
        ensures
            r@ == lock_path_spec(self.config@),
    {
        let full = self.config.as_str();
        let mut e: usize = full.unicode_len();
        assert(full@.subrange(0, e as int) =~= full@);
        while e > 0 && full.get_char(e - 1) == '/'
            invariant
                e <= full@.len(),
                trim_slashes(full@) == trim_slashes(full@.subrange(0, e as int)),
            decreases e,
        {
            assert(full@.subrange(0, e as int).drop_last() =~= full@.subrange(0, e - 1));
            e = e - 1;
        }
        let p = full.substring_char(0, e);
        assert(trim_slashes(p@) == p@);
        let n = p.unicode_len();
        let start: usize = match find_last_of(p, '/') {
            Some(k) => k + 1,
            None => 0,
        };
        let dir = p.substring_char(0, start);
        let last = p.substring_char(start, n);
        let ln = last.unicode_len();
        let dots = (ln == 1 && last.get_char(0) == '.') || (ln == 2 && last.get_char(0) == '.' && last.get_char(1)
            == '.');
        assert(dots == (last@ == seq!['.'] || last@ == seq!['.', '.'])) by {
            if ln == 1 && last@[0] == '.' {
                assert(last@ =~= seq!['.']);
            }
            if ln == 2 && last@[0] == '.' && last@[1] == '.' {
                assert(last@ =~= seq!['.', '.']);
            }
            if last@ == seq!['.'] {
                assert(last@[0] == seq!['.'][0]);
            }
            if last@ == seq!['.', '.'] {
                assert(last@[0] == seq!['.', '.'][0] && last@[1] == seq!['.', '.'][1]);
            }
        }
        let base = if dots {
            last.substring_char(0, 0)
        } else {
            last
        };
        proof {
            lemma_find_first_bounds(base@, is_either('.', '.'));
        }
        let mut r = dir.to_owned();
        match find_first_of(base, '.', '.') {
            None => {
                r.append(base);
                r.append(".lock");
            },
            Some(k) => {
                let bn = base.unicode_len();
                r.append(base.substring_char(0, k));
                r.append(".lock");
                r.append(base.substring_char(k, bn));
            },
        }
        r
    }
}

} // verus!
