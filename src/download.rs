//! Verified reading of a byte stream: the bytes read are counted, progress is
//! reported at a bounded rate, and at the end the SHA-1 digest of what was read
//! and the byte count are held against the expected ones.
use vstd::prelude::*;
use crate::text::{eq_ignore_ascii_case, eq_ignore_ascii_case_spec, fold_char};

verus! {

pub open spec fn hex_digit(n: u8) -> char {
    seq!['0', '1', '2', '3', '4', '5', '6', '7', '8', '9', 'a', 'b', 'c', 'd', 'e', 'f'][n as int]
}

/// Lowercase hexadecimal text of a byte string, two digits per byte.
pub open spec fn hex_lower(b: Seq<u8>) -> Seq<char>
    decreases b.len(),
{
    if b.len() == 0 {
        Seq::empty()
    } else {
        hex_lower(b.drop_last()) + seq![hex_digit(b.last() / 16), hex_digit(b.last() % 16)]
    }
}

/// Relies on hex::encode: two lowercase digits for each byte, high nibble first.
#[verifier::external_body]
fn hex_encode(b: &[u8]) -> (r: String)
    ensures
        r@ == hex_lower(b@),
{
    hex::encode(b)
}

/// Why a stream was refused.
#[derive(Debug)]
pub enum VerifyError {
    /// The SHA-1 of what was read is not the expected one.
    HashMismatch { expected: String, actual: String },
    /// Fewer bytes were read than expected.
    SizeMismatch { expected_len: u64, actual_len: u64 },
}

/// Progress is reported at most once for this many bytes.
pub const PROGRESS_STEP: u64 = 16 * 1024 * 1024;

/// Buffer size for reading a stream.
pub const READ_BUFFER_SIZE: usize = 256 * 1024;

/// What verifying a stream gives, from the lowercase hex digest of what was read
/// and the number of bytes read.
pub open spec fn verify_spec(actual: Seq<char>, received: u64, expected_size: u64, expected_sha1: Seq<char>) -> Option<bool> {
    if !eq_ignore_ascii_case_spec(actual, expected_sha1) {
        Some(false)
    } else if received < expected_size {
        Some(true)
    } else {
        None
    }
}

/// Holds a digest and a byte count against the expected ones: the digest's hex
/// text must equal `expected_sha1` up to ASCII case, and at least `expected_size`
/// bytes must have arrived.
pub fn verify_digest(digest: &[u8], received: u64, expected_size: u64, expected_sha1: &str) -> (r: Result<(), VerifyError>)
    ensures
        match r {
            Ok(()) => eq_ignore_ascii_case_spec(hex_lower(digest@), expected_sha1@) && received >= expected_size,
            Err(VerifyError::HashMismatch { expected, actual }) => !eq_ignore_ascii_case_spec(hex_lower(digest@), expected_sha1@)
                && expected@ == expected_sha1@ && actual@ == hex_lower(digest@),
            Err(VerifyError::SizeMismatch { expected_len, actual_len }) => eq_ignore_ascii_case_spec(hex_lower(digest@), expected_sha1@)
                && received < expected_size && expected_len == expected_size && actual_len == received,
        },
{
    let actual = hex_encode(digest);
    if !eq_ignore_ascii_case(actual.as_str(), expected_sha1) {
        return Err(VerifyError::HashMismatch { expected: expected_sha1.to_owned(), actual });
    }
    if received < expected_size {
        return Err(VerifyError::SizeMismatch { expected_len: expected_size, actual_len: received });
    }
    Ok(())
}

/// The running state of a verified read: the byte count, the bytes read since
/// progress was last reported, and what is expected. The digest of the bytes is
/// computed beside it and handed to `finish`.
pub struct StreamCheck {
    total: u64,
    since_report: u64,
    expected_size: u64,
    expected_sha1: String,
}

impl StreamCheck {
    pub closed spec fn total(&self) -> u64 {
        self.total
    }

    pub closed spec fn expected_size(&self) -> u64 {
        self.expected_size
    }

    pub closed spec fn expected_sha1(&self) -> Seq<char> {
        self.expected_sha1@
    }

    /// Bytes counted since progress was last reported.
    pub closed spec fn pending(&self) -> u64 {
        self.since_report
    }

    pub closed spec fn wf(&self) -> bool {
        self.since_report < PROGRESS_STEP
    }

    /// A check that has seen nothing yet.
    pub fn new(expected_size: u64, expected_sha1: &str) -> (r: StreamCheck)
        ensures
            r.wf(),
            r.total() == 0,
            r.pending() == 0,
            r.expected_size() == expected_size,
            r.expected_sha1() == expected_sha1@,
    {
        StreamCheck { total: 0, since_report: 0, expected_size, expected_sha1: expected_sha1.to_owned() }
    }

    /// Bytes read so far.
    pub fn received(&self) -> (r: u64)
        ensures
            r == self.total(),
    {
        self.total
    }

    /// Counts one chunk of `n` bytes. Returns the byte count to report as progress,
    /// where at least `PROGRESS_STEP` bytes arrived since the last report.
    pub fn feed(&mut self, n: u64) -> (r: Option<u64>)
        requires
            old(self).wf(),
            old(self).total() + n <= u64::MAX,
        ensures
            final(self).wf(),
            final(self).total() == old(self).total() + n,
            final(self).expected_size() == old(self).expected_size(),
            final(self).expected_sha1() == old(self).expected_sha1(),
            r matches Some(k) ==> k == final(self).total(),
            r is Some <==> old(self).pending() + n >= PROGRESS_STEP,
            r is None ==> final(self).pending() == old(self).pending() + n,
            r is Some ==> final(self).pending() == 0,
    {
        self.total = self.total + n;
        if n >= PROGRESS_STEP - self.since_report {
            self.since_report = 0;
            Some(self.total)
        } else {
            self.since_report = self.since_report + n;
            None
        }
    }

    /// Ends the read: the digest of every byte counted is held, with the count,
    /// against the expected ones.
    pub fn finish(&self, digest: &[u8]) -> (r: Result<(), VerifyError>)
        ensures
            match r {
                Ok(()) => eq_ignore_ascii_case_spec(hex_lower(digest@), self.expected_sha1())
                    && self.total() >= self.expected_size(),
                Err(VerifyError::HashMismatch { expected, actual }) => !eq_ignore_ascii_case_spec(
                    hex_lower(digest@),
                    self.expected_sha1(),
                ) && expected@ == self.expected_sha1() && actual@ == hex_lower(digest@),
                Err(VerifyError::SizeMismatch { expected_len, actual_len }) => eq_ignore_ascii_case_spec(
                    hex_lower(digest@),
                    self.expected_sha1(),
                ) && self.total() < self.expected_size() && expected_len == self.expected_size()
                    && actual_len == self.total(),
            },
    {
        verify_digest(digest, self.total, self.expected_size, self.expected_sha1.as_str())
    }
}


pub open spec fn is_hex_char(c: char) -> bool {
    ('0' <= c && c <= '9') || ('a' <= c && c <= 'f')
}

proof fn lemma_hex_digit(n: u8)
    requires
        n < 16,
    ensures
        is_hex_char(hex_digit(n)),
        forall|m: u8| m < 16 && #[trigger] hex_digit(m) == hex_digit(n) ==> m == n,
{
}

proof fn lemma_hex_lower_shape(b: Seq<u8>)
    ensures
        hex_lower(b).len() == 2 * b.len(),
        forall|i: int| 0 <= i < hex_lower(b).len() ==> is_hex_char(#[trigger] hex_lower(b)[i]),
    decreases b.len(),
{
    if b.len() > 0 {
        lemma_hex_lower_shape(b.drop_last());
        lemma_hex_digit(b.last() / 16);
        lemma_hex_digit(b.last() % 16);
        let p = hex_lower(b.drop_last());
        assert forall|i: int| 0 <= i < hex_lower(b).len() implies is_hex_char(#[trigger] hex_lower(b)[i]) by {
            if i < p.len() {
                assert(hex_lower(b)[i] == p[i]);
            }
        }
    }
}

proof fn lemma_hex_lower_injective(a: Seq<u8>, b: Seq<u8>)
    requires
        hex_lower(a) == hex_lower(b),
    ensures
        a == b,
    decreases a.len(),
{
    lemma_hex_lower_shape(a);
    lemma_hex_lower_shape(b);
    if a.len() > 0 {
        let ha = hex_lower(a);
        let n = ha.len();
        let x = a.last();
        let y = b.last();
        lemma_hex_digit(x / 16);
        lemma_hex_digit(x % 16);
        assert(ha[n - 2] == hex_digit(x / 16) && ha[n - 1] == hex_digit(x % 16));
        assert(hex_lower(b)[n - 2] == hex_digit(y / 16) && hex_lower(b)[n - 1] == hex_digit(y % 16));
        assert(x / 16 == y / 16 && x % 16 == y % 16);
        assert(x == y) by (nonlinear_arith)
            requires
                x / 16 == y / 16,
                x % 16 == y % 16,
        ;
        assert(hex_lower(a.drop_last()) =~= ha.subrange(0, n - 2));
        assert(hex_lower(b.drop_last()) =~= ha.subrange(0, n - 2));
        lemma_hex_lower_injective(a.drop_last(), b.drop_last());
        assert(a =~= a.drop_last().push(x));
        assert(b =~= b.drop_last().push(y));
    } else {
        assert(b.len() == 0);
        assert(a =~= b);
    }
}

/// Content addressing: two byte streams that are both accepted against the same
/// expected digest text have the same SHA-1 digest.
pub proof fn lemma_accepted_digests_agree(d1: Seq<u8>, d2: Seq<u8>, expected: Seq<char>)
    requires
        eq_ignore_ascii_case_spec(hex_lower(d1), expected),
        eq_ignore_ascii_case_spec(hex_lower(d2), expected),
    ensures
        d1 == d2,
{
    lemma_hex_lower_shape(d1);
    lemma_hex_lower_shape(d2);
    let h1 = hex_lower(d1);
    let h2 = hex_lower(d2);
    assert forall|i: int| 0 <= i < h1.len() implies h1[i] == h2[i] by {
        assert(is_hex_char(h1[i]) && is_hex_char(h2[i]));
        assert(fold_char(h1[i]) == fold_char(expected[i]));
        assert(fold_char(h2[i]) == fold_char(expected[i]));
        assert(h1[i] as u32 == h2[i] as u32);
    }
    assert(h1 =~= h2);
    lemma_hex_lower_injective(d1, d2);
}

} // verus!
