use orchestrator_core::contract::ContractEnforcer;
use orchestrator_core::session::ExecutionContract;

#[test]
fn test_no_contract_allows_all() {
    let enforcer = ContractEnforcer::new(ExecutionContract::default());
    assert!(enforcer.check_path("src/main.rs").is_none());
}

#[test]
fn test_allowed_path_passes() {
    let enforcer = ContractEnforcer::new(ExecutionContract {
        allowed_paths: vec!["src/**".to_string()],
        allowed_commands: vec![],
    });
    assert!(enforcer.check_path("src/lib.rs").is_none());
}

#[test]
fn test_disallowed_path_fails() {
    let enforcer = ContractEnforcer::new(ExecutionContract {
        allowed_paths: vec!["src/**".to_string()],
        allowed_commands: vec![],
    });
    let result = enforcer.check_path("config/secret.toml");
    assert!(result.is_some());
}

#[test]
fn violation_names_the_path() {
    let enforcer = ContractEnforcer::new(ExecutionContract {
        allowed_paths: vec!["src/**".to_string()],
        allowed_commands: vec![],
    });
    let v = enforcer.check_path("config/x.toml").unwrap();
    assert_eq!(v.path, "config/x.toml");
    assert_eq!(v.reason, "path 'config/x.toml' is not in the allowed paths");
}

#[test]
fn invalid_glob_falls_back_to_prefix_match() {
    // "[" does not compile as a glob, so the pattern acts as a literal
    // prefix instead.
    let enforcer = ContractEnforcer::new(ExecutionContract {
        allowed_paths: vec!["[special".to_string()],
        allowed_commands: vec![],
    });
    assert!(enforcer.check_path("[special/file.txt").is_none());
    assert!(enforcer.check_path("other/file.txt").is_some());
}

#[test]
fn empty_allowed_paths_is_unrestricted() {
    let enforcer = ContractEnforcer::new(ExecutionContract {
        allowed_paths: vec![],
        allowed_commands: vec!["ls".to_string()],
    });
    assert!(!enforcer.has_contract());
    assert!(enforcer.check_path("anything/at/all").is_none());
    assert!(enforcer.check_path(".git/config").is_none());
}

#[test]
fn second_pattern_can_admit_the_path() {
    let enforcer = ContractEnforcer::new(ExecutionContract {
        allowed_paths: vec!["docs/**".to_string(), "src/**".to_string()],
        allowed_commands: vec![],
    });
    assert!(enforcer.check_path("src/deep/mod.rs").is_none());
    assert!(enforcer.check_path("tests/x.rs").is_some());
}
