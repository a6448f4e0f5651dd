use kb_app::error::ErrorCode;
use kb_app::registry::{paths_equal, rebind_record, register_record, unregister_record, validate_registry, VaultRecord};

const A: &str = "11111111-1111-4111-8111-111111111111";
const B: &str = "22222222-2222-4222-8222-222222222222";
const C: &str = "33333333-3333-4333-8333-333333333333";

fn record(id: &str, path: &str) -> VaultRecord {
    VaultRecord { vault_id: id.to_owned(), path: path.to_owned() }
}

fn ids(recs: &[VaultRecord]) -> Vec<String> {
    recs.iter().map(|r| r.vault_id.clone()).collect()
}

#[test]
fn registering_adds_and_orders_by_id() {
    let mut recs = vec![record(C, "/vaults/c")];
    let added = register_record(&mut recs, &record(A, "/vaults/a")).unwrap();
    assert_eq!(added.vault_id, A);
    assert_eq!(ids(&recs), vec![A.to_owned(), C.to_owned()]);
    register_record(&mut recs, &record(B, "/vaults/b")).unwrap();
    assert_eq!(ids(&recs), vec![A.to_owned(), B.to_owned(), C.to_owned()]);
}

#[test]
fn registering_again_is_a_no_op() {
    let mut recs = vec![record(A, "/vaults/a")];
    let again = register_record(&mut recs, &record(A, "/vaults//a/")).unwrap();
    assert_eq!(again.path, "/vaults/a");
    assert_eq!(recs.len(), 1);
    assert_eq!(recs[0].path, "/vaults/a");
}

#[test]
fn registering_a_known_id_elsewhere_is_refused() {
    let mut recs = vec![record(A, "/vaults/a")];
    let err = register_record(&mut recs, &record(A, "/moved/a")).unwrap_err();
    assert_eq!(err.code, ErrorCode::InvalidConfig);
    assert_eq!(err.message, format!("Vault {A} is already registered at /vaults/a."));
    assert_eq!(err.remediation, format!("Run kb vault rebind {A} /moved/a if the Vault was moved."));
    assert_eq!(recs.len(), 1);
}

#[test]
fn registering_a_taken_path_is_refused() {
    let mut recs = vec![record(A, "/vaults/a")];
    let err = register_record(&mut recs, &record(B, "/vaults/a")).unwrap_err();
    assert_eq!(err.code, ErrorCode::InvalidConfig);
    assert_eq!(err.message, format!("/vaults/a: path is already registered as Vault {A}"));
}

#[test]
fn rebinding_moves_only_that_vault() {
    let mut recs = vec![record(A, "/vaults/a"), record(B, "/vaults/b")];
    let moved = rebind_record(&mut recs, A, &record(A, "/elsewhere/a"), "/elsewhere/a").unwrap();
    assert_eq!(moved.path, "/elsewhere/a");
    assert_eq!(recs[0].path, "/elsewhere/a");
    assert_eq!(recs[1].path, "/vaults/b");
}

#[test]
fn rebinding_checks_identity_conflicts_and_registration() {
    let mut recs = vec![record(A, "/vaults/a"), record(B, "/vaults/b")];
    let wrong = rebind_record(&mut recs, A, &record(B, "/x"), "/x").unwrap_err();
    assert_eq!(wrong.message, format!("/x: expected vault_id {A}, found {B}"));
    let taken = rebind_record(&mut recs, A, &record(A, "/vaults/b"), "/vaults/b").unwrap_err();
    assert_eq!(taken.message, format!("/vaults/b: path is already registered as Vault {B}"));
    let missing = rebind_record(&mut recs, C, &record(C, "/vaults/c"), "/vaults/c").unwrap_err();
    assert_eq!(missing.code, ErrorCode::VaultNotFound);
    assert_eq!(missing.message, format!("Vault {C} is not registered."));
    assert_eq!(missing.remediation, "Run kb vault register <path> first.");
}

#[test]
fn unregistering_keeps_the_other_vaults() {
    let mut recs = vec![record(A, "/vaults/a"), record(B, "/vaults/b"), record(C, "/vaults/c")];
    unregister_record(&mut recs, B);
    assert_eq!(ids(&recs), vec![A.to_owned(), C.to_owned()]);
    unregister_record(&mut recs, B);
    assert_eq!(recs.len(), 2);
}

#[test]
fn registered_then_valid_registry() {
    let mut recs = vec![record(B, "/vaults/b")];
    register_record(&mut recs, &record(A, "/vaults/a")).unwrap();
    assert!(validate_registry(&recs, "/config/vaults.yml").is_ok());
}

#[test]
fn validation_reports_the_first_problem() {
    let relative = vec![record(A, "/vaults/a"), record(B, "vaults/b")];
    let err = validate_registry(&relative, "/config/vaults.yml").unwrap_err();
    assert_eq!(err.code, ErrorCode::InvalidConfig);
    assert_eq!(err.message, "/config/vaults.yml: vaults[1].path must be absolute");
    let duplicate = vec![record(A, "/vaults/a"), record(B, "/vaults/b"), record(C, "/vaults/./a")];
    let err = validate_registry(&duplicate, "/config/vaults.yml").unwrap_err();
    assert_eq!(err.message, "/config/vaults.yml: vaults[2] duplicates an earlier ID or path");
    let same_id = vec![record(A, "/vaults/a"), record(A, "/vaults/b")];
    assert!(validate_registry(&same_id, "r").is_err());
}

#[test]
fn paths_compare_by_components() {
    assert!(paths_equal("/a//b/", "/a/b"));
    assert!(paths_equal("/a/./b", "/a/b"));
    assert!(!paths_equal("/a/../b", "/b"));
    assert!(!paths_equal("a", "/a"));
    assert!(!paths_equal("./a", "a"));
}
