use braindump::migration::{merge_contents, same_file};

#[test]
fn migrate_missing_source_and_missing_target_creates_empty_target() {
    let source: Vec<u8> = Vec::new();
    let target: Vec<u8> = Vec::new();
    assert_eq!(merge_contents(&target, &source), b"".to_vec());
}

#[test]
fn migrate_into_missing_target_copies_source_verbatim_and_leaves_source_intact() {
    let source_content = b"# 2026-08-11\n\n## 12:00:00\nhello world\n".to_vec();
    let merged = merge_contents(&Vec::new(), &source_content);
    assert_eq!(source_content, b"# 2026-08-11\n\n## 12:00:00\nhello world\n".to_vec());
    assert_eq!(merged, source_content);
}

#[test]
fn migrate_into_existing_target_with_trailing_lf_inserts_no_join_byte() {
    let source = b"source note\n".to_vec();
    let target = b"target note\n".to_vec();
    let merged = merge_contents(&target, &source);
    assert_eq!(source, b"source note\n".to_vec());
    assert_eq!(merged, b"target note\nsource note\n".to_vec());
}

#[test]
fn migrate_into_existing_target_without_trailing_lf_inserts_exactly_one_lf() {
    let merged = merge_contents(&b"target note".to_vec(), &b"source note\n".to_vec());
    assert_eq!(merged, b"target note\nsource note\n".to_vec());
}

#[test]
fn migrate_into_existing_target_where_source_starts_with_lf_inserts_no_join_byte() {
    let merged = merge_contents(&b"target note".to_vec(), &b"\nsource note\n".to_vec());
    assert_eq!(merged, b"target note\nsource note\n".to_vec());
}

#[test]
fn migrate_where_both_target_ends_with_lf_and_source_starts_with_lf_inserts_no_join_byte() {
    let merged = merge_contents(&b"target note\n".to_vec(), &b"\nsource note\n".to_vec());
    assert_eq!(merged, b"target note\n\nsource note\n".to_vec());
}

#[test]
fn migrate_empty_source_into_existing_target_leaves_target_unchanged() {
    let merged = merge_contents(&b"existing target\n".to_vec(), &b"".to_vec());
    assert_eq!(merged, b"existing target\n".to_vec());
}

#[test]
fn migration_into_missing_target_copies_markdown_bytes_in_order() {
    let old_content = b"# 2026-08-11\n\n## 10:00:00\nfirst entry\n\n## 11:00:00\nsecond entry\n".to_vec();
    assert_eq!(merge_contents(&Vec::new(), &old_content), old_content);
}

#[test]
fn migration_into_target_containing_entries_appends_in_order() {
    let merged = merge_contents(&b"existing target entries\n".to_vec(), &b"old entries\n".to_vec());
    assert_eq!(merged, b"existing target entries\nold entries\n".to_vec());
}

#[test]
fn missing_source_behaves_as_empty_migration_source() {
    assert_eq!(merge_contents(&Vec::new(), &Vec::new()), Vec::<u8>::new());
}

#[test]
fn merging_keeps_every_byte_of_both_files_with_one_join_lf() {
    let target = b"a\nb".to_vec();
    let source = b"c\nd".to_vec();
    let merged = merge_contents(&target, &source);
    assert_eq!(merged.len(), target.len() + source.len() + 1);
    assert_eq!(&merged[..target.len()], &target[..]);
    assert_eq!(&merged[merged.len() - source.len()..], &source[..]);
    assert_eq!(merged[target.len()], b'\n');
}

#[test]
fn migrating_a_path_onto_itself_is_a_no_op() {
    assert!(same_file("/home/u/braindump.md", "/home/u/braindump.md"));
    assert!(same_file("/home/u//braindump.md", "/home/u/braindump.md"));
    assert!(!same_file("/home/u/braindump.md", "/home/u/other.md"));
}
