//! The data model, the planner's fingerprints and descriptions, the lock
//! path, the event clock and run ids, and drift checking.

use forjar::drift::FileObservation;
use forjar::planner::{describe_action, hash_desired_state};
use forjar::types::{
    ExecOutput, MachineTarget, ParamValue, PlanAction, Policy, Resource, ResourceStatus,
    ResourceType, ValidationError,
};

fn base(rt: ResourceType) -> Resource {
    Resource {
        resource_type: rt,
        machine: MachineTarget::Single("m1".to_string()),
        state: None,
        depends_on: vec![],
        provider: None,
        packages: vec![],
        path: None,
        content: None,
        source: None,
        target: None,
        owner: None,
        group: None,
        mode: None,
        name: None,
        enabled: None,
        restart_on: vec![],
        fs_type: None,
        options: None,
    }
}

// ---- data model ----

#[test]
fn test_fj001_machine_target_single() {
    let t = MachineTarget::Single("lambda".to_string());
    assert_eq!(t.to_vec(), vec!["lambda"]);
}

#[test]
fn test_fj001_resource_type_display() {
    assert_eq!(ResourceType::Package.label(), "package");
    assert_eq!(ResourceType::Service.label(), "service");
    assert_eq!(ResourceType::Mount.label(), "mount");
}

#[test]
fn test_fj001_policy_defaults() {
    let p = Policy::default();
    assert_eq!(p.failure, forjar::types::FailurePolicy::StopOnFirst);
    assert!(p.tripwire);
    assert!(p.lock_file);
    assert!(!p.parallel_machines);
}

#[test]
fn test_fj001_resource_status_display() {
    assert_eq!(ResourceStatus::Converged.label(), "CONVERGED");
    assert_eq!(ResourceStatus::Drifted.label(), "DRIFTED");
}

#[test]
fn test_fj001_plan_action_display() {
    assert_eq!(PlanAction::Create.label(), "CREATE");
    assert_eq!(PlanAction::NoOp.label(), "NO-OP");
}

#[test]
fn test_fj002_validation_error_display() {
    let err = ValidationError { message: "test error".to_string() };
    assert_eq!(err.message, "test error");
}

// ---- planner ----

#[test]
fn test_fj004_hash_deterministic() {
    let mut r = base(ResourceType::Package);
    r.provider = Some("apt".to_string());
    r.packages = vec!["curl".to_string()];
    let h1 = hash_desired_state(&r);
    let h2 = hash_desired_state(&r);
    assert_eq!(h1, h2);
    assert!(h1.starts_with("blake3:"));
}

#[test]
fn test_fj004_describe_action() {
    let mut r = base(ResourceType::Package);
    r.provider = Some("apt".to_string());
    r.packages = vec!["curl".to_string(), "wget".to_string()];
    let desc = describe_action("test-pkg", &r, &PlanAction::Create);
    assert!(desc.contains("curl, wget"));
}

#[test]
fn test_fj004_describe_action_file() {
    let mut r = base(ResourceType::File);
    r.path = Some("/etc/conf".to_string());
    assert!(describe_action("f", &r, &PlanAction::Create).contains("/etc/conf"));
    assert!(describe_action("f", &r, &PlanAction::Update).contains("update"));
    assert!(describe_action("f", &r, &PlanAction::Destroy).contains("destroy"));
    assert!(describe_action("f", &r, &PlanAction::NoOp).contains("no changes"));
}

#[test]
fn test_fj004_describe_action_service() {
    let mut r = base(ResourceType::Service);
    r.name = Some("nginx".to_string());
    assert!(describe_action("svc", &r, &PlanAction::Create).contains("nginx"));
}

#[test]
fn test_fj004_describe_action_mount() {
    let mut r = base(ResourceType::Mount);
    r.path = Some("/mnt/data".to_string());
    assert!(describe_action("mnt", &r, &PlanAction::Create).contains("/mnt/data"));
}

#[test]
fn test_fj004_hash_includes_all_fields() {
    let mut r1 = base(ResourceType::Mount);
    r1.state = Some("mounted".to_string());
    r1.path = Some("/mnt/data".to_string());
    r1.source = Some("192.168.1.1:/data".to_string());
    r1.target = Some("/mnt/target".to_string());
    r1.owner = Some("root".to_string());
    r1.group = Some("root".to_string());
    r1.mode = Some("0755".to_string());
    r1.name = Some("data-mount".to_string());
    r1.fs_type = Some("nfs".to_string());
    r1.options = Some("ro,hard".to_string());

    let mut r2 = r1.clone();
    r2.fs_type = Some("ext4".to_string());
    assert_ne!(hash_desired_state(&r1), hash_desired_state(&r2));

    let mut r3 = r1.clone();
    r3.options = Some("rw".to_string());
    assert_ne!(hash_desired_state(&r1), hash_desired_state(&r3));

    let mut r4 = r1.clone();
    r4.name = Some("other-mount".to_string());
    assert_ne!(hash_desired_state(&r1), hash_desired_state(&r4));
}

// ---- recipe input templates ----

#[test]
fn test_fj019_resolve_input_template() {
    let mut inputs: forjar::omap::OMap<String> = forjar::omap::OMap::new();
    inputs.insert("name".to_string(), "world".to_string());
    let result = forjar::recipe::resolve_input_template("hello {{inputs.name}}!", &inputs).unwrap();
    assert_eq!(result, "hello world!");
}

#[test]
fn test_fj019_resolve_multiple_inputs() {
    let mut inputs: forjar::omap::OMap<String> = forjar::omap::OMap::new();
    inputs.insert("a".to_string(), "X".to_string());
    inputs.insert("b".to_string(), "Y".to_string());
    let result = forjar::recipe::resolve_input_template("{{inputs.a}}-{{inputs.b}}", &inputs)
        .unwrap();
    assert_eq!(result, "X-Y");
}

// ---- state store ----

#[test]
fn test_fj013_lock_file_path() {
    let p = forjar::state::lock_file_path("/state", "lambda");
    assert_eq!(p, "/state/lambda/state.lock.yaml");
}

// ---- event clock ----

#[test]
fn test_fj015_now_iso8601() {
    let ts = forjar::eventlog::now_iso8601();
    assert!(ts.starts_with("20"));
    assert!(ts.ends_with('Z'));
    assert!(ts.contains('T'));
}

#[test]
fn test_fj015_generate_run_id() {
    let id = forjar::eventlog::generate_run_id();
    assert!(id.starts_with("r-"));
    assert!(id.len() > 4);
}

#[test]
fn test_fj015_event_log_path() {
    let p = forjar::eventlog::event_log_path("/state", "lambda");
    assert_eq!(p, "/state/lambda/events.jsonl");
}

#[test]
fn test_fj015_is_leap() {
    assert!(forjar::eventlog::is_leap(2000));
    assert!(forjar::eventlog::is_leap(1600));

    assert!(!forjar::eventlog::is_leap(1900));
    assert!(!forjar::eventlog::is_leap(2100));

    assert!(forjar::eventlog::is_leap(2024));
    assert!(forjar::eventlog::is_leap(2028));
    assert!(forjar::eventlog::is_leap(1996));

    assert!(!forjar::eventlog::is_leap(2023));
    assert!(!forjar::eventlog::is_leap(2025));
    assert!(!forjar::eventlog::is_leap(2026));
}

// ---- drift ----

#[test]
fn test_fj016_missing_file() {
    let result = forjar::drift::check_file_drift(
        "gone",
        "/nonexistent/file.txt",
        "blake3:abc",
        &FileObservation::Missing,
    );
    assert!(result.is_some());
    assert_eq!(result.unwrap().actual_hash, "MISSING");
}

// ---- execution outputs ----

#[test]
fn test_transport_exec_output_success() {
    let ok = ExecOutput { exit_code: 0, stdout: "ok".into(), stderr: "".into() };
    assert!(ok.success());
    let fail = ExecOutput { exit_code: 1, stdout: "".into(), stderr: "err".into() };
    assert!(!fail.success());
    let sig = ExecOutput { exit_code: 137, stdout: "".into(), stderr: "killed".into() };
    assert!(!sig.success());
}

// ---- scalar rendering ----

#[test]
fn test_fj001_yaml_value_to_string() {
    assert_eq!(
        forjar::types::yaml_value_to_string(&ParamValue::Str("hello".to_string())),
        "hello"
    );
    assert_eq!(forjar::types::yaml_value_to_string(&ParamValue::Bool(true)), "true");
    assert_eq!(forjar::types::yaml_value_to_string(&ParamValue::Null), "");
    assert_eq!(forjar::types::yaml_value_to_string(&ParamValue::Int(-42)), "-42");
}
