use rust_arpg::debug::{LogBudget, MAX_LOG_BYTES, MAX_ROTATED_FILES};

#[test]
fn lines_count_their_newline() {
    assert_eq!(LogBudget::line_bytes(0), 1);
    assert_eq!(LogBudget::line_bytes(41), 42);
}

#[test]
fn rotation_happens_only_past_the_limit() {
    let mut budget = LogBudget::new();
    assert_eq!(budget.bytes_written(), 0);
    budget.record_write(MAX_LOG_BYTES - 10);
    assert!(!budget.needs_rotation(10));
    assert!(budget.needs_rotation(11));
    budget.record_write(10);
    assert_eq!(budget.bytes_written(), MAX_LOG_BYTES);
    assert!(budget.needs_rotation(1));
    budget.reset();
    assert_eq!(budget.bytes_written(), 0);
    assert!(!budget.needs_rotation(MAX_LOG_BYTES));
    assert!(budget.needs_rotation(MAX_LOG_BYTES + 1));
}

#[test]
fn a_written_file_never_passes_the_limit() {
    let mut budget = LogBudget::new();
    for len in [100usize, 5000, 300_000, 700_000, 48_575, 1, 1_000_000] {
        let bytes = LogBudget::line_bytes(len);
        if budget.needs_rotation(bytes) {
            budget.reset();
        }
        budget.record_write(bytes);
        assert!(budget.bytes_written() <= MAX_LOG_BYTES);
    }
}

#[test]
fn rotation_plan_clears_old_files_then_shifts_kept_ones() {
    assert_eq!(MAX_ROTATED_FILES, 1);
    assert_eq!(LogBudget::rotation_removals(), vec![5, 4, 3, 2, 1]);
    assert!(LogBudget::rotation_renames().is_empty());
}
