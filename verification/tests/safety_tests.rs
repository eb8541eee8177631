use disk_scan::{
    check_deletion_safety, check_multiple_deletions, deletion_allowed, is_protected_path,
    new_deletion_result, record_deletion_failure, record_deletion_success, DeletionCandidate,
    Platform, SafetyCheck, LARGE_DELETION_THRESHOLD,
};

#[test]
fn test_protected_paths() {
    assert!(is_protected_path("/System/Library", Platform::MacOs));
    assert!(is_protected_path("/Applications/Safari.app", Platform::MacOs));
    assert!(!is_protected_path("/Users/test", Platform::MacOs));

    assert!(is_protected_path("C:\\Windows\\System32", Platform::Windows));
    assert!(is_protected_path("C:\\Program Files\\Test", Platform::Windows));
    assert!(!is_protected_path("C:\\Users\\test", Platform::Windows));

    assert!(is_protected_path("/bin/bash", Platform::Linux));
    assert!(is_protected_path("/etc/passwd", Platform::Linux));
    assert!(!is_protected_path("/home/test", Platform::Linux));
}

#[test]
fn test_safety_check_nonexistent() {
    let result = check_deletion_safety("/nonexistent/path", Platform::Linux, false, false, None);
    match result {
        SafetyCheck::Protected { .. } => (),
        _ => panic!("Expected Protected for nonexistent path"),
    }
}

#[test]
fn test_safety_check_messages() {
    match check_deletion_safety("/gone", Platform::Linux, false, false, None) {
        SafetyCheck::Protected { message } => {
            assert_eq!(message, "Path does not exist: /gone");
        }
        _ => panic!("expected Protected"),
    }
    match check_deletion_safety("/etc/passwd", Platform::Linux, true, false, None) {
        SafetyCheck::Protected { message } => {
            assert_eq!(message, "Cannot delete protected system path: /etc/passwd");
        }
        _ => panic!("expected Protected"),
    }
    match check_deletion_safety("/home/u/busy.txt", Platform::Linux, true, true, Some(5)) {
        SafetyCheck::InUse { message } => {
            assert_eq!(
                message,
                "File or directory is currently in use: /home/u/busy.txt"
            );
        }
        _ => panic!("expected InUse"),
    }
}

#[test]
fn test_safety_check_size_threshold() {
    match check_deletion_safety(
        "/home/u/huge",
        Platform::Linux,
        true,
        false,
        Some(LARGE_DELETION_THRESHOLD + 1),
    ) {
        SafetyCheck::RequiresConfirmation { .. } => (),
        _ => panic!("expected RequiresConfirmation"),
    }
    match check_deletion_safety(
        "/home/u/small",
        Platform::Linux,
        true,
        false,
        Some(LARGE_DELETION_THRESHOLD),
    ) {
        SafetyCheck::Safe => (),
        _ => panic!("expected Safe at the threshold"),
    }
    match check_deletion_safety("/home/u/nosize", Platform::Linux, true, false, None) {
        SafetyCheck::Safe => (),
        _ => panic!("expected Safe without a size"),
    }
}

#[test]
fn test_check_multiple_deletions() {
    let candidates = vec![
        DeletionCandidate {
            path: "/gone".to_string(),
            exists: false,
            in_use: false,
            size: None,
        },
        DeletionCandidate {
            path: "/home/u/file".to_string(),
            exists: true,
            in_use: false,
            size: Some(10),
        },
    ];
    let checks = check_multiple_deletions(candidates, Platform::Linux);
    assert_eq!(checks.len(), 2);
    assert!(matches!(checks[0], SafetyCheck::Protected { .. }));
    assert!(matches!(checks[1], SafetyCheck::Safe));
}

#[test]
fn test_deletion_allowed() {
    assert!(deletion_allowed(&SafetyCheck::Safe));
    assert!(deletion_allowed(&SafetyCheck::RequiresConfirmation {
        message: "m".to_string()
    }));
    assert!(!deletion_allowed(&SafetyCheck::Protected {
        message: "m".to_string()
    }));
    assert!(!deletion_allowed(&SafetyCheck::InUse {
        message: "m".to_string()
    }));
}

#[test]
fn test_deletion_result_recording() {
    let mut result = new_deletion_result();
    record_deletion_success(&mut result, "/a".to_string(), 100);
    record_deletion_success(&mut result, "/b".to_string(), 50);
    record_deletion_failure(&mut result, "/c".to_string(), "busy".to_string());
    assert_eq!(result.deleted, vec!["/a".to_string(), "/b".to_string()]);
    assert_eq!(result.failed.len(), 1);
    assert_eq!(result.failed[0].path, "/c");
    assert_eq!(result.failed[0].error, "busy");
    assert_eq!(result.space_freed, 150);
}
