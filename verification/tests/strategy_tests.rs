use chompie::file_state::FileState;
use chompie::strategy::Strategy;
use chompie::strategies::BisectionStrategy;
use chompie::strategies::RandomLinesStrategy;
use chompie::strategies::RandomRangesStrategy;
use chompie::strategies::SlidingWindowStrategy;
use chompie::strategies::UpToNLinesStrategy;

#[test]
fn test_bisection_strategy() {
    let strategy = BisectionStrategy;
    let mut files = Vec::new();

    let content = "line1\nline2\nline3\nline4".to_string();
    files.push(FileState::new("test.txt".to_string(), content));

    let ranges = strategy.generate_ranges(&files);

    // Halves (2 ranges), then single lines (4 ranges).
    assert!(!ranges.is_empty());
    assert_eq!(strategy.name(), "bisection");
}

#[test]
fn test_bisection_exact_ranges() {
    let strategy = BisectionStrategy;
    let mut files = Vec::new();
    files.push(FileState::new("t".to_string(), "a\nb\nc\nd".to_string()));

    let ranges = strategy.generate_ranges(&files);
    let pairs: Vec<(usize, usize)> =
        ranges.iter().map(|r| (r.start_line, r.end_line)).collect();
    assert_eq!(pairs, vec![(0, 2), (2, 4), (0, 1), (1, 2), (2, 3), (3, 4)]);
}

#[test]
fn test_bisection_single_line_file_no_ranges() {
    let strategy = BisectionStrategy;
    let mut files = Vec::new();
    files.push(FileState::new("t".to_string(), "only".to_string()));
    let ranges = strategy.generate_ranges(&files);
    assert_eq!(ranges.len(), 0);
}

#[test]
fn test_random_lines_strategy() {
    let strategy = RandomLinesStrategy::new(10);
    let mut files = Vec::new();

    let content = "line1\nline2\nline3\nline4\nline5".to_string();
    files.push(FileState::new("test.txt".to_string(), content));

    let ranges = strategy.generate_ranges(&files);

    assert!(!ranges.is_empty());
    assert!(ranges.len() <= 10);
    assert_eq!(strategy.name(), "random_lines");

    for range in &ranges {
        assert_eq!(range.end_line - range.start_line, 1);
    }
}

#[test]
fn test_random_lines_reproducible() {
    let strategy1 = RandomLinesStrategy::with_seed(5, 42);
    let strategy2 = RandomLinesStrategy::with_seed(5, 42);

    let mut files = Vec::new();
    let content = "a\nb\nc\nd\ne\nf\ng\nh".to_string();
    files.push(FileState::new("test.txt".to_string(), content));

    let ranges1 = strategy1.generate_ranges(&files);
    let ranges2 = strategy2.generate_ranges(&files);

    assert_eq!(ranges1.len(), ranges2.len());
}

#[test]
fn test_random_lines_same_seed_same_sequence() {
    let strategy1 = RandomLinesStrategy::with_seed(7, 99);
    let strategy2 = RandomLinesStrategy::with_seed(7, 99);

    let mut files = Vec::new();
    files.push(FileState::new("a.txt".to_string(), "1\n2\n3\n4\n5\n6".to_string()));
    files.push(FileState::new("b.txt".to_string(), "x\ny\nz".to_string()));

    let ranges1 = strategy1.generate_ranges(&files);
    let ranges2 = strategy2.generate_ranges(&files);
    assert_eq!(ranges1.len(), ranges2.len());
    for (a, b) in ranges1.iter().zip(ranges2.iter()) {
        assert_eq!(a.file, b.file);
        assert_eq!(a.start_line, b.start_line);
        assert_eq!(a.end_line, b.end_line);
    }
}

#[test]
fn test_random_lines_single_line_file() {
    let strategy = RandomLinesStrategy::new(10);
    let mut files = Vec::new();
    files.push(FileState::new("t".to_string(), "only".to_string()));
    let ranges = strategy.generate_ranges(&files);
    assert!(ranges.len() <= 1);
}

#[test]
fn test_random_ranges_strategy() {
    let strategy = RandomRangesStrategy::new(10);
    let mut files = Vec::new();

    let content = (0..20).map(|i| format!("line{}", i)).collect::<Vec<_>>().join("\n");
    files.push(FileState::new("test.txt".to_string(), content));

    let ranges = strategy.generate_ranges(&files);

    assert!(!ranges.is_empty());
    assert!(ranges.len() <= 10);
    assert_eq!(strategy.name(), "random_ranges");

    for range in &ranges {
        assert!(range.end_line > range.start_line);
        assert!(range.end_line <= 20);
    }
}

#[test]
fn test_random_ranges_same_seed_same_sequence() {
    let strategy1 = RandomRangesStrategy::with_seed(6, 5);
    let strategy2 = RandomRangesStrategy::with_seed(6, 5);

    let mut files = Vec::new();
    files.push(FileState::new("a.txt".to_string(), "1\n2\n3\n4\n5\n6\n7\n8".to_string()));

    let ranges1 = strategy1.generate_ranges(&files);
    let ranges2 = strategy2.generate_ranges(&files);
    assert_eq!(ranges1.len(), ranges2.len());
    for (a, b) in ranges1.iter().zip(ranges2.iter()) {
        assert_eq!(a.file, b.file);
        assert_eq!(a.start_line, b.start_line);
        assert_eq!(a.end_line, b.end_line);
    }
}

#[test]
fn test_sliding_window_size_1() {
    let strategy = SlidingWindowStrategy::new(1);
    let mut files = Vec::new();

    let content = "line1\nline2\nline3\nline4".to_string();
    files.push(FileState::new("test.txt".to_string(), content));

    let ranges = strategy.generate_ranges(&files);

    assert_eq!(ranges.len(), 4);
    assert_eq!(strategy.name(), "sliding_window");

    for (i, range) in ranges.iter().enumerate() {
        assert_eq!(range.start_line, i);
        assert_eq!(range.end_line, i + 1);
    }
}

#[test]
fn test_sliding_window_size_2() {
    let strategy = SlidingWindowStrategy::new(2);
    let mut files = Vec::new();

    let content = "line1\nline2\nline3\nline4".to_string();
    files.push(FileState::new("test.txt".to_string(), content));

    let ranges = strategy.generate_ranges(&files);

    assert_eq!(ranges.len(), 3);

    assert_eq!(ranges[0].start_line, 0);
    assert_eq!(ranges[0].end_line, 2);

    assert_eq!(ranges[1].start_line, 1);
    assert_eq!(ranges[1].end_line, 3);

    assert_eq!(ranges[2].start_line, 2);
    assert_eq!(ranges[2].end_line, 4);
}

#[test]
fn test_sliding_window_size_3() {
    let strategy = SlidingWindowStrategy::new(3);
    let mut files = Vec::new();

    let content = "a\nb\nc\nd\ne".to_string();
    files.push(FileState::new("test.txt".to_string(), content));

    let ranges = strategy.generate_ranges(&files);

    assert_eq!(ranges.len(), 3);
}

#[test]
fn test_sliding_window_with_blanked_lines() {
    let strategy = SlidingWindowStrategy::new(1);
    let mut files = Vec::new();

    let content = "line1\nline2\nline3\nline4".to_string();
    let mut state = FileState::new("test.txt".to_string(), content);

    state.blank_lines(&[1]);

    files.push(state);

    let ranges = strategy.generate_ranges(&files);

    assert_eq!(ranges.len(), 3);

    assert!(ranges.iter().all(|r| r.start_line != 1));
}

#[test]
fn test_sliding_window_single_line_file_one_range() {
    let strategy = SlidingWindowStrategy::new(1);
    let mut files = Vec::new();
    files.push(FileState::new("t".to_string(), "only".to_string()));
    let ranges = strategy.generate_ranges(&files);
    assert_eq!(ranges.len(), 1);
    assert_eq!(ranges[0].start_line, 0);
    assert_eq!(ranges[0].end_line, 1);
}

#[test]
fn test_up_to_n_lines_single_file() {
    let strategy = UpToNLinesStrategy::new(2);
    let mut files = Vec::new();

    let content = "line1\nline2\nline3\nline4".to_string();
    files.push(FileState::new("test.txt".to_string(), content));

    let ranges = strategy.generate_ranges(&files);

    assert_eq!(strategy.name(), "up_to_n_lines");

    assert_eq!(ranges.len(), 7);

    assert_eq!(ranges[0].start_line, 0);
    assert_eq!(ranges[0].end_line, 1);

    assert_eq!(ranges[1].start_line, 1);
    assert_eq!(ranges[1].end_line, 2);

    assert_eq!(ranges[4].start_line, 0);
    assert_eq!(ranges[4].end_line, 2);
}

#[test]
fn test_up_to_n_lines_with_blanked_lines() {
    let strategy = UpToNLinesStrategy::new(2);
    let mut files = Vec::new();

    let content = "line1\nline2\nline3\nline4\nline5".to_string();
    let mut state = FileState::new("test.txt".to_string(), content);

    state.blank_lines(&[1]);

    files.push(state);

    let ranges = strategy.generate_ranges(&files);

    assert_eq!(ranges.len(), 7);

    assert_eq!(ranges[0].start_line, 0);
    assert_eq!(ranges[0].end_line, 1);

    assert_eq!(ranges[1].start_line, 2);
    assert_eq!(ranges[1].end_line, 3);
}

#[test]
fn test_up_to_n_lines_window_larger_than_file() {
    let strategy = UpToNLinesStrategy::new(10);
    let mut files = Vec::new();

    let content = "line1\nline2\nline3".to_string();
    files.push(FileState::new("test.txt".to_string(), content));

    let ranges = strategy.generate_ranges(&files);

    assert_eq!(ranges.len(), 6);
}

#[test]
fn test_up_to_n_lines_empty_file() {
    let strategy = UpToNLinesStrategy::new(3);
    let mut files = Vec::new();

    let content = String::new();
    files.push(FileState::new("test.txt".to_string(), content));

    let ranges = strategy.generate_ranges(&files);

    assert_eq!(ranges.len(), 0);
}

#[test]
fn test_up_to_n_lines_multiple_files() {
    let strategy = UpToNLinesStrategy::new(2);
    let mut files = Vec::new();

    files.push(FileState::new("test1.txt".to_string(), "a\nb".to_string()));
    files.push(FileState::new("test2.txt".to_string(), "x\ny\nz".to_string()));

    let ranges = strategy.generate_ranges(&files);

    assert_eq!(ranges.len(), 8);
}

#[test]
fn test_up_to_n_lines_zero_window() {
    let strategy = UpToNLinesStrategy::new(0);
    let mut files = Vec::new();

    files.push(FileState::new("test.txt".to_string(), "line1\nline2".to_string()));

    let ranges = strategy.generate_ranges(&files);

    assert_eq!(ranges.len(), 2);
}

#[test]
fn test_empty_file_contributes_no_ranges_to_any_strategy() {
    let mut files = Vec::new();
    files.push(FileState::new("empty.txt".to_string(), String::new()));
    files.push(FileState::new("full.txt".to_string(), "a\nb\nc\nd".to_string()));

    let strategies: Vec<Box<dyn Strategy>> = vec![
        Box::new(BisectionStrategy),
        Box::new(RandomLinesStrategy::new(10)),
        Box::new(RandomRangesStrategy::new(10)),
        Box::new(SlidingWindowStrategy::new(1)),
        Box::new(UpToNLinesStrategy::new(2)),
    ];
    for strategy in &strategies {
        let ranges = strategy.generate_ranges(&files);
        assert!(ranges.iter().all(|r| r.file != "empty.txt"));
    }
}
