use rinb::download::{verify_digest, StreamCheck, VerifyError, PROGRESS_STEP, READ_BUFFER_SIZE};
use sha1::{Digest, Sha1};

fn digest_of(data: &[u8]) -> Vec<u8> {
    let mut h = Sha1::new();
    h.update(data);
    h.finalize().to_vec()
}

#[test]
fn digest_of_abc_is_accepted() {
    let d = digest_of(b"abc");
    assert!(verify_digest(&d, 3, 3, "a9993e364706816aba3e25717850c26c9cd0d89d").is_ok());
}

#[test]
fn expected_digest_is_compared_without_case() {
    let d = digest_of(b"abc");
    assert!(verify_digest(&d, 3, 3, "A9993E364706816ABA3E25717850C26C9CD0D89D").is_ok());
}

#[test]
fn wrong_digest_is_a_hash_mismatch() {
    let d = digest_of(b"abd");
    match verify_digest(&d, 3, 3, "a9993e364706816aba3e25717850c26c9cd0d89d") {
        Err(VerifyError::HashMismatch { expected, actual }) => {
            assert_eq!(expected, "a9993e364706816aba3e25717850c26c9cd0d89d");
            assert_eq!(actual.len(), 40);
            assert_ne!(actual, expected);
        }
        other => panic!("unexpected {other:?}"),
    }
}

#[test]
fn short_stream_is_a_size_mismatch() {
    let d = digest_of(b"abc");
    match verify_digest(&d, 3, 4, "a9993e364706816aba3e25717850c26c9cd0d89d") {
        Err(VerifyError::SizeMismatch { expected_len, actual_len }) => {
            assert_eq!(expected_len, 4);
            assert_eq!(actual_len, 3);
        }
        other => panic!("unexpected {other:?}"),
    }
}

#[test]
fn empty_stream() {
    let d = digest_of(b"");
    let check = StreamCheck::new(0, "da39a3ee5e6b4b0d3255bfef95601890afd80709");
    assert_eq!(check.received(), 0);
    assert!(check.finish(&d).is_ok());
}

#[test]
fn progress_is_reported_every_sixteen_mib() {
    assert_eq!(PROGRESS_STEP, 16 * 1024 * 1024);
    assert_eq!(READ_BUFFER_SIZE, 256 * 1024);
    let mut check = StreamCheck::new(0, "");
    let chunk = READ_BUFFER_SIZE as u64;
    let mut reports = Vec::new();
    for _ in 0..130 {
        if let Some(n) = check.feed(chunk) {
            reports.push(n);
        }
    }
    assert_eq!(reports, vec![PROGRESS_STEP, 2 * PROGRESS_STEP]);
    assert_eq!(check.received(), 130 * chunk);
}

#[test]
fn stream_check_counts_and_verifies() {
    let data = b"The quick brown fox jumps over the lazy dog";
    let mut check = StreamCheck::new(data.len() as u64, "2fd4e1c67a2d28fced849ee1bb76e7391b93eb12");
    assert_eq!(check.feed(10), None);
    assert_eq!(check.feed((data.len() - 10) as u64), None);
    assert_eq!(check.received(), data.len() as u64);
    assert!(check.finish(&digest_of(data)).is_ok());
    assert!(check.finish(&digest_of(b"other")).is_err());
}
