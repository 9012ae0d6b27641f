use rctool_core::fnmap::{
    desired_mappings, mapping_installed, original_for_save, VoiceKeyMapper, DST_FN_GLOBE, SRC_F5,
};

#[test]
fn desired_appends_f5_and_keeps_others() {
    assert_eq!(desired_mappings(&[]), vec![(SRC_F5, DST_FN_GLOBE)]);
    let existing = vec![(0xAA, 0xBB), (SRC_F5, 0x1234)];
    assert_eq!(desired_mappings(&existing), vec![(0xAA, 0xBB), (SRC_F5, DST_FN_GLOBE)]);
}

#[test]
fn original_excludes_our_stale_pair_but_keeps_foreign_f5() {
    assert_eq!(original_for_save(&[(SRC_F5, DST_FN_GLOBE)]), vec![]);
    let foreign = vec![(SRC_F5, 0x1234), (0xAA, 0xBB)];
    assert_eq!(original_for_save(&foreign), foreign);
}

#[test]
fn apply_then_restore_round_trip() {
    let mut mapper = VoiceKeyMapper::new();
    assert!(!mapper.has_saved());
    let current = vec![(0xAA, 0xBB), (SRC_F5, DST_FN_GLOBE)];
    let write = mapper.prepare_apply(7, &current);
    assert_eq!(write, vec![(0xAA, 0xBB), (SRC_F5, DST_FN_GLOBE)]);
    assert!(mapping_installed(&write));
    // A second apply on the same service does not replace the saved original.
    mapper.prepare_apply(7, &write);
    mapper.prepare_apply(9, &[]);
    assert_eq!(mapper.restore_value(7), Some(vec![(0xAA, 0xBB)]));
    assert_eq!(mapper.restore_value(9), Some(vec![]));
    assert_eq!(mapper.restore_value(8), None);
    mapper.restored(7);
    assert_eq!(mapper.restore_value(7), None);
    assert!(mapper.has_saved());
    mapper.forget_absent(&[1, 2]);
    assert!(!mapper.has_saved());
}

#[test]
fn forget_absent_keeps_present_services() {
    let mut mapper = VoiceKeyMapper::default();
    mapper.prepare_apply(1, &[]);
    mapper.prepare_apply(2, &[(1, 2)]);
    mapper.forget_absent(&[2, 3]);
    assert_eq!(mapper.restore_value(1), None);
    assert_eq!(mapper.restore_value(2), Some(vec![(1, 2)]));
    assert!(!mapping_installed(&[(SRC_F5, 0x1234)]));
}

#[test]
fn one_restore_keeps_only_failed_writes_of_present_services() {
    let mut mapper = VoiceKeyMapper::new();
    mapper.prepare_apply(1, &[(5, 6)]);
    mapper.prepare_apply(2, &[]);
    mapper.prepare_apply(3, &[(7, 8)]);
    // Services 1 and 2 are present; writing 1 back succeeds, writing 2 fails;
    // service 3 has gone.
    let mut restored = 0;
    let mut present = Vec::new();
    for (rid, ok) in [(1u64, true), (2u64, false)] {
        present.push(rid);
        if mapper.restore_value(rid).is_some() && ok {
            mapper.restored(rid);
            restored += 1;
        }
    }
    mapper.forget_absent(&present);
    assert_eq!(restored, 1);
    assert_eq!(mapper.restore_value(1), None);
    assert_eq!(mapper.restore_value(2), Some(vec![]));
    assert_eq!(mapper.restore_value(3), None);
}

#[test]
fn settling_a_restore_counts_and_keeps_failed_writes() {
    let mut mapper = VoiceKeyMapper::new();
    mapper.prepare_apply(1, &[(5, 6)]);
    mapper.prepare_apply(2, &[]);
    mapper.prepare_apply(3, &[(7, 8)]);
    // Service 1 written back, 2 failed, 4 has nothing saved, 3 is gone.
    let restored = mapper.settle_restore(&[(1, true), (2, false), (4, true)]);
    assert_eq!(restored, 1);
    assert_eq!(mapper.restore_value(1), None);
    assert_eq!(mapper.restore_value(2), Some(vec![]));
    assert_eq!(mapper.restore_value(3), None);
    assert!(mapper.has_saved());
}
