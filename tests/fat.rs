use rinb::fat::{dir2fatsize, FatSizeError, FsEntry};

fn file(name_len: u64, size: u64) -> FsEntry {
    FsEntry { name_len, is_dir: false, size }
}

fn dir(name_len: u64) -> FsEntry {
    FsEntry { name_len, is_dir: true, size: 0 }
}

#[test]
fn empty_tree_costs_nothing() {
    assert_eq!(dir2fatsize(&vec![]), Ok(0));
}

#[test]
fn file_rounds_up_to_clusters() {
    assert_eq!(dir2fatsize(&vec![file(8, 1)]), Ok(32768 + 64));
    assert_eq!(dir2fatsize(&vec![file(8, 32768)]), Ok(32768 + 64));
    assert_eq!(dir2fatsize(&vec![file(8, 32769)]), Ok(65536 + 64));
    assert_eq!(dir2fatsize(&vec![file(8, 0)]), Ok(64));
    assert_eq!(dir2fatsize(&vec![file(0, 0)]), Ok(32));
    assert_eq!(dir2fatsize(&vec![file(14, 0)]), Ok(96));
}

#[test]
fn directory_adds_dot_entries() {
    assert_eq!(dir2fatsize(&vec![dir(4)]), Ok(96));
    assert_eq!(dir2fatsize(&vec![dir(4), file(9, 100), dir(26)]), Ok(96 + 32832 + 128));
}

#[test]
fn estimate_overflow() {
    assert_eq!(dir2fatsize(&vec![file(1, u64::MAX)]), Err(FatSizeError::Overflow));
    assert_eq!(dir2fatsize(&vec![dir(u64::MAX)]), Err(FatSizeError::Overflow));
    assert_eq!(dir2fatsize(&vec![file(1, u64::MAX - 100000), file(1, 100000)]), Err(FatSizeError::Overflow));
}
