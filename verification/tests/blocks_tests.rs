use fi_slurm::blocks::block_counts;

fn filled_segments(max_blocks: usize, percentage: f64) -> usize {
    (max_blocks as f64 * 8.0 * percentage).round() as usize
}

#[test]
fn t1() {
    let result = block_counts(20, filled_segments(20, 0.95));
    assert_eq!(result.0, 19);
    assert_eq!(result.1, 1);
    assert_eq!(result.2, None);
}

#[test]
fn t2() {
    let result = block_counts(20, filled_segments(20, 0.92));
    assert_eq!(result.0, 18);
    assert_eq!(result.1, 1);
    assert_eq!(result.2, Some("▍".to_string()));
}

#[test]
fn blocks_full_bar_has_no_partial_or_empty() {
    assert_eq!(block_counts(10, 80), (10, 0, None));
}

#[test]
fn blocks_overfull_bar_leaves_no_empty_blocks() {
    assert_eq!(block_counts(4, 45), (5, 0, Some("▋".to_string())));
}

#[test]
fn blocks_bar_keeps_its_width_at_every_fill() {
    for filled in 0..=160usize {
        let (full, empty, partial) = block_counts(20, filled);
        let partial_count = usize::from(partial.is_some());
        assert_eq!(full + partial_count + empty, 20, "filled {filled}");
        assert_eq!(partial.is_some(), filled % 8 > 0);
        assert_eq!(full * 8 + filled % 8, filled);
    }
}
