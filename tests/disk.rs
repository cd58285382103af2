use rinb::disk::{
    estimate_size, lay_out, mbr_blocks, media_partition, plan_disk, plan_layout, LayoutError, PackType,
    PartitionKind, SPartition, DEFAULT_ALIGN_LBAS, RECOVERY_FLAGS,
};

const MIB: u64 = 1024 * 1024;

fn part(name: &str, size: u64, align: Option<u64>) -> SPartition {
    SPartition {
        name: name.to_string(),
        ptype: PartitionKind::BasicData,
        size,
        flags: 0,
        id: None,
        startb: None,
        endb: None,
        align,
    }
}

#[test]
fn type_guids() {
    assert_eq!(PartitionKind::EfiSystem.type_guid(), "C12A7328-F81F-11D2-BA4B-00A0C93EC93B");
    assert_eq!(PartitionKind::MicrosoftReserved.type_guid(), "E3C9E316-0B5C-4DB8-817D-F92DF00215AE");
    assert_eq!(PartitionKind::BasicData.type_guid(), "EBD0A0A2-B9E5-4433-87C0-68B6B72699C7");
    assert_eq!(RECOVERY_FLAGS, 0x8000000000000001);
}

#[test]
fn estimate_adds_alignment_and_trailer() {
    assert_eq!(estimate_size(&vec![part("efi", 10 * MIB, Some(2048))]).unwrap(), 14 * MIB);
    assert_eq!(estimate_size(&vec![]).unwrap(), 2 * MIB);
    assert_eq!(estimate_size(&vec![part("a", 1, None), part("b", 2, None)]).unwrap(), 3 + 6 * MIB);
    assert_eq!(estimate_size(&vec![part("a", u64::MAX, None)]).unwrap_err(), LayoutError::Overflow);
}

#[test]
fn protective_mbr_extent() {
    assert_eq!(mbr_blocks(14 * MIB), 28671);
    assert_eq!(mbr_blocks(512), 0);
    assert_eq!(mbr_blocks(u64::MAX), u32::MAX);
    assert_eq!(mbr_blocks((u32::MAX as u64 + 1) * 512), u32::MAX);
}

#[test]
fn single_partition_layout() {
    let placed = plan_layout(&vec![part("efi", 10 * MIB, Some(2048))], 14 * MIB).unwrap();
    assert_eq!(placed.len(), 1);
    assert_eq!(placed[0].id, 1);
    assert_eq!(placed[0].first_lba, 2048);
    assert_eq!(placed[0].length_lba, 20480);
}

#[test]
fn partitions_are_disjoint_aligned_and_inside() {
    let parts = vec![part("a", MIB, None), part("b", 3000, None), part("c", 1, Some(4096))];
    let disk = estimate_size(&parts).unwrap();
    let placed = lay_out(parts, disk).unwrap();
    let ranges: Vec<(u64, u64)> = placed.iter().map(|p| p.fdisk().unwrap()).collect();
    assert_eq!(ranges, vec![(MIB, 2 * MIB), (2 * MIB, 2 * MIB + 3072), (4 * MIB, 4 * MIB + 512)]);
    for (i, (s, e)) in ranges.iter().enumerate() {
        assert_eq!(s % MIB, 0);
        assert!(*s >= 34 * 512 && *e <= disk - 33 * 512);
        if i + 1 < ranges.len() {
            assert!(*e <= ranges[i + 1].0);
        }
        assert_eq!(placed[i].id, Some(i as u32 + 1));
    }
}

#[test]
fn layout_errors() {
    assert_eq!(plan_layout(&vec![part("a", 10 * MIB, None)], MIB).unwrap_err(), LayoutError::NoSpace);
    assert_eq!(plan_layout(&vec![part("a", 1, None)], 0).unwrap_err(), LayoutError::NoSpace);
    assert_eq!(plan_layout(&vec![part("a", 0, None)], 100 * MIB).unwrap_err(), LayoutError::BadRequest);
    assert_eq!(plan_layout(&vec![part("a", 5, Some(0))], 100 * MIB).unwrap_err(), LayoutError::BadRequest);
    let many: Vec<SPartition> = (0..129).map(|i| part(&format!("p{i}"), 1, None)).collect();
    assert_eq!(plan_layout(&many, u64::MAX).unwrap_err(), LayoutError::TooManyPartitions);
    assert!(matches!(lay_out(vec![part("a", 10 * MIB, None)], MIB), Err(LayoutError::NoSpace)));
}

#[test]
fn last_usable_block_is_respected() {
    // 2048 + 2048 blocks of partition end exactly at the last usable block + 1.
    let disk = (4096 + 33) * 512;
    assert!(plan_layout(&vec![part("a", MIB, None)], disk).is_ok());
    assert_eq!(plan_layout(&vec![part("a", MIB + 1, None)], disk).unwrap_err(), LayoutError::NoSpace);
}

#[test]
fn unplaced_partition_has_no_window() {
    assert_eq!(part("a", 1, None).fdisk().unwrap_err(), LayoutError::Unplaced);
}

#[test]
fn media_disk_plan() {
    let p = media_partition(10 * MIB);
    assert_eq!(p.name, "efi");
    assert_eq!(p.ptype, PartitionKind::BasicData);
    assert_eq!(p.align, Some(DEFAULT_ALIGN_LBAS));
    let plan = plan_disk(vec![p], PackType::VHD).unwrap();
    assert_eq!(plan.disk_bytes, 14 * MIB);
    assert_eq!(plan.container_bytes, 15 * MIB);
    assert_eq!(plan.mbr_blocks, 28671);
    assert_eq!(plan.partitions[0].fdisk().unwrap(), (MIB, 11 * MIB));
    let img = plan_disk(vec![media_partition(10 * MIB)], PackType::IMG).unwrap();
    assert_eq!(img.container_bytes, 14 * MIB);
    assert_eq!(plan_disk(vec![media_partition(u64::MAX - 3 * MIB)], PackType::VHD).unwrap_err(), LayoutError::Overflow);
}
