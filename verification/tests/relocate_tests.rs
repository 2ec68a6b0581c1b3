use cargo_upgrade_command::choose_destination;
use cargo_upgrade_command::relocation_candidate;

#[test]
fn first_candidate_is_the_file_name() {
    let c = relocation_candidate(b"tool.exe", b"tool", true, 0);
    assert_eq!(c, b"tool.exe".to_vec());
    let c = relocation_candidate(b"tool", b"tool", false, 0);
    assert_eq!(c, b"tool".to_vec());
}

#[test]
fn later_candidates_append_numeric_suffixes() {
    assert_eq!(relocation_candidate(b"tool", b"tool", false, 1), b"tool-1".to_vec());
    assert_eq!(relocation_candidate(b"tool", b"tool", false, 2), b"tool-2".to_vec());
    assert_eq!(relocation_candidate(b"tool", b"tool", false, 12), b"tool-12".to_vec());
    assert_eq!(relocation_candidate(b"tool.exe", b"tool", true, 1), b"tool-1.exe".to_vec());
}

#[test]
fn distinct_attempts_never_collide() {
    let mut seen: Vec<Vec<u8>> = Vec::new();
    for attempt in 0..50u64 {
        let c = relocation_candidate(b"tool", b"tool", false, attempt);
        assert!(!seen.contains(&c), "collision at attempt {attempt}");
        seen.push(c);
    }
}

#[test]
fn fresh_directory_takes_the_original_name() {
    let occupied: Vec<Vec<u8>> = Vec::new();
    let dest = choose_destination(b"tool", b"tool", false, &occupied).unwrap();
    assert_eq!(dest, b"tool".to_vec());
}

#[test]
fn occupied_name_falls_back_to_suffix() {
    // A stale copy of the binary is still in the scratch directory.
    let occupied = vec![b"tool".to_vec()];
    let dest = choose_destination(b"tool", b"tool", false, &occupied).unwrap();
    assert_eq!(dest, b"tool-1".to_vec());
}

#[test]
fn repeated_relocation_never_fails_on_existing_names() {
    // Two relocations in a row: the second run sees the name the first run
    // used and must pick a fresh one rather than fail.
    let mut occupied: Vec<Vec<u8>> = Vec::new();
    let first = choose_destination(b"tool", b"tool", false, &occupied).unwrap();
    occupied.push(first.clone());
    let second = choose_destination(b"tool", b"tool", false, &occupied).unwrap();
    assert_ne!(first, second);
    assert_eq!(second, b"tool-1".to_vec());
}

#[test]
fn windows_suffix_keeps_the_extension() {
    let occupied = vec![b"tool.exe".to_vec(), b"tool-1.exe".to_vec()];
    let dest = choose_destination(b"tool.exe", b"tool", true, &occupied).unwrap();
    assert_eq!(dest, b"tool-2.exe".to_vec());
}
