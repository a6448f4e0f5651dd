use kb_app::error::ErrorCode;
use kb_app::knowledge_apply::WriteEffect;
use kb_app::source_apply::{
    check_plan_age, ensure_no_pending, merge_warnings, validate_capture_progress, CaptureInput, RecordWrite,
};
use kb_app::source_io::hash;

fn strings(v: &[&str]) -> Vec<String> {
    v.iter().map(|s| s.to_string()).collect()
}

#[test]
fn pending_recoveries_block_new_work() {
    assert!(ensure_no_pending(false, false).is_ok());
    let e = ensure_no_pending(true, true).unwrap_err();
    assert_eq!(e.code, ErrorCode::VaultNeedsRecovery);
    assert_eq!(e.message, "An interrupted source capture needs recovery.");
    assert_eq!(ensure_no_pending(false, true).unwrap_err().message, "An interrupted knowledge save needs recovery.");
}

#[test]
fn plans_expire() {
    assert!(check_plan_age(0, 24, true).is_ok());
    assert!(check_plan_age(-300, 24, true).is_ok());
    assert!(check_plan_age(24 * 3600, 24, true).is_ok());
    let e = check_plan_age(24 * 3600 + 1, 24, true).unwrap_err();
    assert_eq!(e.code, ErrorCode::PlanStale);
    assert_eq!(e.remediation, "Run kb review and inspect a fresh plan.");
    assert!(check_plan_age(-301, 24, true).is_err());
    assert!(check_plan_age(10, 24, false).is_err());
}

#[test]
fn capture_progress_must_belong_to_its_plan() {
    let writes = vec![RecordWrite { path: "Wiki/r.md".to_string(), before_sha256: Some(hash(b"old")), content: "new".to_string() }];
    let inputs = vec![CaptureInput { object_path: "Wiki/o/1".to_string(), sha256: hash(b"src"), present: true }];
    let record = WriteEffect { path: "Wiki/r.md".to_string(), before: Some(b"old".to_vec()), after_sha256: hash(b"new") };
    let object = WriteEffect { path: "Wiki/o/1".to_string(), before: None, after_sha256: hash(b"src") };
    assert!(validate_capture_progress("op", &writes, &inputs, "op", &vec![object, record]).is_ok());
    let e = validate_capture_progress("op", &writes, &inputs, "other", &Vec::new()).unwrap_err();
    assert_eq!(e.message, "Progress identity mismatch.");
    let dup = vec![
        WriteEffect { path: "Wiki/o/1".to_string(), before: None, after_sha256: hash(b"src") },
        WriteEffect { path: "Wiki/o/1".to_string(), before: None, after_sha256: hash(b"src") },
    ];
    assert_eq!(validate_capture_progress("op", &writes, &inputs, "op", &dup).unwrap_err().message, "Duplicate recovery path.");
    let stray = vec![WriteEffect { path: "Wiki/x.md".to_string(), before: None, after_sha256: hash(b"x") }];
    assert_eq!(
        validate_capture_progress("op", &writes, &inputs, "op", &stray).unwrap_err().message,
        "Progress is outside its operation plan."
    );
}

#[test]
fn receipts_keep_each_warning_once() {
    let (w, changed) = merge_warnings(strings(&["a"]), &strings(&["a", "b", "b"]));
    assert_eq!(w, strings(&["a", "b"]));
    assert!(changed);
    let (w, changed) = merge_warnings(strings(&["a"]), &strings(&["a"]));
    assert_eq!(w, strings(&["a"]));
    assert!(!changed);
}
