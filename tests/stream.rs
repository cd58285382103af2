use rinb::stream::{SeekError, SeekTarget, Transfer, VhdCursor};

#[test]
fn seek_from_each_origin() {
    let mut c = VhdCursor::new();
    assert_eq!(c.seek(SeekTarget::Start(5), 100), Ok(5));
    assert_eq!(c.seek(SeekTarget::Current(10), 100), Ok(15));
    assert_eq!(c.seek(SeekTarget::Current(-15), 100), Ok(0));
    assert_eq!(c.seek(SeekTarget::End(-1), 100), Ok(99));
    assert_eq!(c.seek(SeekTarget::End(1), 100), Ok(101));
    assert_eq!(c.pos(), 101);
}

#[test]
fn seek_before_start_is_refused() {
    let mut c = VhdCursor::new();
    c.seek(SeekTarget::Start(5), 100).unwrap();
    assert_eq!(c.seek(SeekTarget::Current(-6), 100), Err(SeekError::BeforeStart));
    assert_eq!(c.seek(SeekTarget::End(-101), 100), Err(SeekError::BeforeStart));
    assert_eq!(c.seek(SeekTarget::Current(i64::MIN), 100), Err(SeekError::BeforeStart));
    assert_eq!(c.pos(), 5);
}

#[test]
fn seek_past_u64_is_refused() {
    let mut c = VhdCursor::new();
    assert_eq!(c.seek(SeekTarget::End(1), u64::MAX), Err(SeekError::Overflow));
    assert_eq!(c.seek(SeekTarget::End(0), u64::MAX), Ok(u64::MAX));
}

#[test]
fn transfers_move_the_cursor() {
    let mut c = VhdCursor::new();
    assert_eq!(c.after_transfer(Transfer::Moved(512)), Ok(512));
    assert_eq!(c.after_transfer(Transfer::EndOfData), Ok(0));
    assert_eq!(c.pos(), 512);
    c.seek(SeekTarget::Start(u64::MAX), 0).unwrap();
    assert_eq!(c.after_transfer(Transfer::Moved(1)), Err(SeekError::Overflow));
}
