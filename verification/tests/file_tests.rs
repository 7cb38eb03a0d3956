use chompie::file_state::FileState;
use chompie::file_manager::FileManager;

#[test]
fn test_file_state_creation() {
    let content = "line1\nline2\nline3".to_string();
    let state = FileState::new("test.txt".to_string(), content);
    assert_eq!(state.total_lines(), 3);
    assert_eq!(state.non_blank_lines(), 3);
}

#[test]
fn test_file_state_blank_lines() {
    let content = "line1\nline2\nline3\nline4".to_string();
    let mut state = FileState::new("test.txt".to_string(), content);
    state.blank_lines(&[0, 2]);
    assert_eq!(state.non_blank_lines(), 2);
    let output = state.current_content();
    assert_eq!(output, "\nline2\n\nline4");
}

#[test]
fn test_file_state_unblank_lines() {
    let content = "line1\nline2\nline3".to_string();
    let mut state = FileState::new("test.txt".to_string(), content);
    state.blank_lines(&[0, 1, 2]);
    state.unblank_lines(&[1]);
    assert_eq!(state.non_blank_lines(), 1);
}

#[test]
fn test_file_state_empty_content() {
    let state = FileState::new("test.txt".to_string(), String::new());
    assert_eq!(state.total_lines(), 0);
    assert_eq!(state.non_blank_lines(), 0);
    assert_eq!(state.current_content(), "");
}

#[test]
fn test_file_state_trailing_newline_keeps_empty_line() {
    let state = FileState::new("test.txt".to_string(), "a\n".to_string());
    assert_eq!(state.total_lines(), 2);
    assert_eq!(state.current_content(), "a\n");
}

#[test]
fn test_file_state_blank_all_renders_separators_only() {
    let mut state = FileState::new("a.txt".to_string(), "X\nY\nZ".to_string());
    state.blank_lines(&[0, 1, 2]);
    assert_eq!(state.non_blank_lines(), 0);
    assert_eq!(state.current_content(), "\n\n");
}

#[test]
fn test_file_state_blank_out_of_range_is_ignored() {
    let mut state = FileState::new("test.txt".to_string(), "a\nb".to_string());
    state.blank_lines(&[5, 17]);
    assert_eq!(state.non_blank_lines(), 2);
    assert_eq!(state.current_content(), "a\nb");
}

#[test]
fn test_file_state_blank_then_unblank_restores_original() {
    let original = "one\ntwo\nthree\nfour";
    let mut state = FileState::new("test.txt".to_string(), original.to_string());
    state.blank_lines(&[1, 3]);
    state.unblank_lines(&[1, 3]);
    assert_eq!(state.current_content(), original);
    assert_eq!(state.original_content(), original);
}

#[test]
fn test_file_state_non_blank_line_indices() {
    let mut state = FileState::new("test.txt".to_string(), "a\nb\nc\nd".to_string());
    state.blank_lines(&[1]);
    assert_eq!(state.non_blank_line_indices(), vec![0, 2, 3]);
}

#[test]
fn test_file_manager_add_file_from_content() {
    let mut manager = FileManager::new();
    manager.add_file_from_content("test.txt".to_string(), "content".to_string());
    assert_eq!(manager.files().len(), 1);
    assert_eq!(manager.total_lines(), 1);
}

#[test]
fn test_file_manager_replaces_same_path() {
    let mut manager = FileManager::new();
    manager.add_file_from_content("test.txt".to_string(), "a\nb".to_string());
    manager.add_file_from_content("test.txt".to_string(), "a\nb\nc".to_string());
    assert_eq!(manager.files().len(), 1);
    assert_eq!(manager.total_lines(), 3);
}

#[test]
fn test_file_manager_counts_across_files() {
    let mut manager = FileManager::new();
    manager.add_file_from_content("a.txt".to_string(), "1\n2\n3".to_string());
    manager.add_file_from_content("b.txt".to_string(), "x\ny".to_string());
    assert_eq!(manager.total_lines(), 5);
    assert_eq!(manager.non_blank_lines(), 5);
    let state = manager.get_file_mut(&"a.txt".to_string()).unwrap();
    state.blank_lines(&[0]);
    assert_eq!(manager.non_blank_lines(), 4);
}

#[test]
fn test_file_manager_get_file_mut_unknown_path() {
    let mut manager = FileManager::new();
    manager.add_file_from_content("a.txt".to_string(), "1".to_string());
    assert!(manager.get_file_mut(&"b.txt".to_string()).is_none());
}
