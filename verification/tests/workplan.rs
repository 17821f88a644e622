use file_sync_rs::work::{files_are_equal, plan_dir_work, plan_file_work, DirAction};

#[test]
fn equal_contents_compare_equal() {
    assert!(files_are_equal(&vec![1u8, 2, 3], &vec![1u8, 2, 3]));
    assert!(files_are_equal(&Vec::new(), &Vec::new()));
}

#[test]
fn different_contents_compare_unequal() {
    assert!(!files_are_equal(&vec![1u8, 2, 3], &vec![1u8, 2, 4]));
    assert!(!files_are_equal(&vec![1u8, 2, 3], &vec![1u8, 2]));
    assert!(!files_are_equal(&vec![1u8], &Vec::new()));
}

#[test]
fn missing_target_directory_is_created() {
    assert_eq!(plan_dir_work(false), DirAction::CreateDir);
}

#[test]
fn existing_target_directory_is_kept() {
    assert_eq!(plan_dir_work(true), DirAction::KeepDir);
}

#[test]
fn unchanged_file_plans_no_step() {
    // a second run over an unmodified tree performs no write at all
    let content = vec![10u8, 20, 30];
    let plan = plan_file_work(false, true, 3, 3, &content, &content.clone());
    assert!(!plan.make_writable);
    assert!(!plan.set_permissions);
    assert!(!plan.set_length);
    assert!(!plan.write_content);
}

#[test]
fn changed_content_is_rewritten() {
    let plan = plan_file_work(false, true, 3, 3, &vec![1u8, 2, 3], &vec![9u8, 9, 9]);
    assert!(!plan.set_length);
    assert!(plan.write_content);
}

#[test]
fn divergent_permissions_are_fixed_without_rewrite() {
    let content = vec![5u8];
    let plan = plan_file_work(true, false, 1, 1, &content, &content.clone());
    assert!(plan.make_writable);
    assert!(plan.set_permissions);
    assert!(!plan.set_length);
    assert!(!plan.write_content);
}

#[test]
fn shorter_source_truncates_and_rewrites() {
    let plan = plan_file_work(false, true, 2, 4, &vec![1u8, 2], &vec![1u8, 2, 3, 4]);
    assert!(plan.set_length);
    assert!(plan.write_content);
}
