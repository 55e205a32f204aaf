//! End-to-end behavior on concrete values: ordering, validation, the
//! planner's diff, lock round trips, templates, recipes and drift.

use forjar::drift::FileObservation;
use forjar::omap::OMap;
use forjar::recipe::{RecipeFile, RecipeInput, RecipeMetadata};
use forjar::types::ProvenanceEvent;
use forjar::planner::hash_desired_state;
use forjar::types::{
    ForjarConfig, Machine, MachineTarget, ParamValue, PlanAction, Policy, Resource, ResourceLock,
    ResourceStatus, ResourceType, StateLock,
};

fn base(rt: ResourceType) -> Resource {
    Resource {
        resource_type: rt,
        machine: MachineTarget::Single("m1".to_string()),
        state: None,
        depends_on: vec![],
        provider: None,
        packages: vec![],
        path: None,
        content: None,
        source: None,
        target: None,
        owner: None,
        group: None,
        mode: None,
        name: None,
        enabled: None,
        restart_on: vec![],
        fs_type: None,
        options: None,
    }
}

fn machine(hostname: &str, addr: &str) -> Machine {
    Machine {
        hostname: hostname.to_string(),
        addr: addr.to_string(),
        user: "root".to_string(),
        arch: "x86_64".to_string(),
        ssh_key: None,
        roles: vec![],
    }
}

fn config(machines: Vec<(&str, Machine)>, resources: Vec<(&str, Resource)>) -> ForjarConfig {
    let mut ms: OMap<Machine> = OMap::new();
    for (k, v) in machines {
        ms.insert(k.to_string(), v);
    }
    let mut rs: OMap<Resource> = OMap::new();
    for (k, v) in resources {
        rs.insert(k.to_string(), v);
    }
    ForjarConfig {
        version: "1.0".to_string(),
        name: "test".to_string(),
        description: None,
        params: OMap::new(),
        machines: ms,
        resources: rs,
        policy: Policy::default(),
    }
}

// Validate accepts the reserved localhost name without a declaration.
#[test]
fn validate_accepts_localhost() {
    let mut pkg = base(ResourceType::Package);
    pkg.machine = MachineTarget::Single("localhost".to_string());
    pkg.provider = Some("apt".to_string());
    pkg.packages = vec!["curl".to_string()];
    let c = config(vec![], vec![("pkg", pkg)]);
    let errors = forjar::validate::validate_config(&c);
    assert!(errors.is_empty());
}

// Two resources depending on each other are reported as a cycle.
#[test]
fn cycle_detection() {
    let mut a = base(ResourceType::Package);
    a.provider = Some("apt".to_string());
    a.packages = vec!["x".to_string()];
    a.depends_on = vec!["b".to_string()];
    let mut b = base(ResourceType::Package);
    b.provider = Some("apt".to_string());
    b.packages = vec!["y".to_string()];
    b.depends_on = vec!["a".to_string()];
    let c = config(vec![("m1", machine("m1", "1.1.1.1"))], vec![("a", a), ("b", b)]);
    let result = forjar::graph::build_execution_order(&c);
    assert!(result.is_err());
    assert!(result.unwrap_err().contains("cycle"));
}

// The diamond resolves to its one deterministic order.
#[test]
fn diamond_order() {
    let top = base(ResourceType::Package);
    let mut left = base(ResourceType::File);
    left.path = Some("/l".to_string());
    left.depends_on = vec!["top".to_string()];
    let mut right = base(ResourceType::File);
    right.path = Some("/r".to_string());
    right.depends_on = vec!["top".to_string()];
    let mut bottom = base(ResourceType::Service);
    bottom.name = Some("svc".to_string());
    bottom.depends_on = vec!["left".to_string(), "right".to_string()];
    let c = config(
        vec![("m1", machine("m1", "1.1.1.1"))],
        vec![("top", top), ("left", left), ("right", right), ("bottom", bottom)],
    );
    let order = forjar::graph::build_execution_order(&c).unwrap();
    assert_eq!(order, vec!["top", "left", "right", "bottom"]);
}

// The order is the same on every run.
#[test]
fn order_is_deterministic() {
    let mut a = base(ResourceType::Package);
    a.provider = Some("apt".to_string());
    a.packages = vec!["x".to_string()];
    let mut b = base(ResourceType::Package);
    b.provider = Some("apt".to_string());
    b.packages = vec!["y".to_string()];
    let c = config(
        vec![("m1", machine("m1", "1.1.1.1"))],
        vec![("beta", b.clone()), ("alpha", a.clone())],
    );
    let o1 = forjar::graph::build_execution_order(&c).unwrap();
    let o2 = forjar::graph::build_execution_order(&c).unwrap();
    assert_eq!(o1, o2);
    // ties among ready resources fall to the lexicographically smaller id
    assert_eq!(o1, vec!["alpha", "beta"]);
}

// An absent resource with no lock entry plans as unchanged, not destroy.
#[test]
fn absent_without_lock_is_noop() {
    let mut gone = base(ResourceType::File);
    gone.path = Some("/tmp/gone".to_string());
    gone.state = Some("absent".to_string());
    let c = config(vec![("m1", machine("m1", "127.0.0.1"))], vec![("gone-file", gone)]);
    let order = forjar::graph::build_execution_order(&c).unwrap();
    let locks: OMap<StateLock> = OMap::new();
    let plan = forjar::planner::plan(&c, &order, &locks);
    assert_eq!(plan.unchanged, 1);
    assert_eq!(plan.to_destroy, 0);
}

// A fresh resource plans as create; once converged under the planner's
// own fingerprint it re-plans as no-op.
#[test]
fn converged_replans_as_noop() {
    let mut f = base(ResourceType::File);
    f.path = Some("/tmp/x".to_string());
    f.content = Some("hello".to_string());
    let c = config(vec![("m1", machine("m1", "127.0.0.1"))], vec![("f", f.clone())]);
    let order = forjar::graph::build_execution_order(&c).unwrap();

    let locks: OMap<StateLock> = OMap::new();
    let plan1 = forjar::planner::plan(&c, &order, &locks);
    assert_eq!(plan1.to_create, 1);

    // record the converged outcome the way the applier does
    let mut lock = forjar::state::new_lock("m1", "m1");
    forjar::exec::record_success(
        &mut lock,
        "f",
        &f,
        &f,
        None,
        "2026-01-01T00:00:00Z".to_string(),
        100,
    );
    let mut locks2: OMap<StateLock> = OMap::new();
    locks2.insert("m1".to_string(), lock);
    let plan2 = forjar::planner::plan(&c, &order, &locks2);
    assert_eq!(plan2.unchanged, 1);
    assert_eq!(plan2.to_create, 0);
}

// The fingerprint the applier stores is the one the planner compares.
#[test]
fn planner_applier_fingerprints_agree() {
    let mut f = base(ResourceType::File);
    f.path = Some("/tmp/x".to_string());
    f.content = Some("hello".to_string());
    let mut lock = forjar::state::new_lock("m1", "m1");
    forjar::exec::record_success(
        &mut lock,
        "f",
        &f,
        &f,
        None,
        "2026-01-01T00:00:00Z".to_string(),
        5,
    );
    let stored = lock.resources.get("f").unwrap().hash.clone();
    assert_eq!(stored, hash_desired_state(&f));
}

// A converged file's recorded content fingerprint is the hash of its text.
#[test]
fn content_hash_matches_hash_string() {
    let mut f = base(ResourceType::File);
    f.path = Some("/tmp/x".to_string());
    f.content = Some("hello".to_string());
    let mut lock = forjar::state::new_lock("m1", "m1");
    forjar::exec::record_success(
        &mut lock,
        "f",
        &f,
        &f,
        None,
        "2026-01-01T00:00:00Z".to_string(),
        5,
    );
    let rl = lock.resources.get("f").unwrap();
    match rl.details.get("content_hash").unwrap() {
        ParamValue::Str(h) => assert_eq!(h, &forjar::hashes::hash_string("hello")),
        other => panic!("content_hash is not a string: {:?}", other),
    }
}

// The fingerprint ignores fields outside the listed set.
#[test]
fn hash_ignores_unlisted_fields() {
    let mut r1 = base(ResourceType::File);
    r1.path = Some("/etc/a".to_string());
    r1.content = Some("text".to_string());
    let mut r2 = r1.clone();
    r2.machine = MachineTarget::Multiple(vec!["a".to_string(), "b".to_string()]);
    r2.depends_on = vec!["other".to_string()];
    r2.enabled = Some(true);
    r2.restart_on = vec!["x".to_string()];
    r2.target = Some("/elsewhere".to_string());
    assert_eq!(hash_desired_state(&r1), hash_desired_state(&r2));
}

// A saved lock loads back identical, order and details included.
#[test]
fn lock_round_trip() {
    let mut details: OMap<ParamValue> = OMap::new();
    details.insert("path".to_string(), ParamValue::Str("/etc/a \"q\"\nline".to_string()));
    details.insert("count".to_string(), ParamValue::Int(-7));
    details.insert("flag".to_string(), ParamValue::Bool(true));
    details.insert("nothing".to_string(), ParamValue::Null);
    let mut resources: OMap<ResourceLock> = OMap::new();
    resources.insert(
        "zz-last-first".to_string(),
        ResourceLock {
            resource_type: ResourceType::Package,
            status: ResourceStatus::Converged,
            applied_at: Some("2026-02-16T14:00:01Z".to_string()),
            duration_millis: Some(1500),
            hash: "blake3:abc123".to_string(),
            details,
        },
    );
    resources.insert(
        "aaa-second".to_string(),
        ResourceLock {
            resource_type: ResourceType::File,
            status: ResourceStatus::Failed,
            applied_at: None,
            duration_millis: None,
            hash: "".to_string(),
            details: OMap::new(),
        },
    );
    let lock = StateLock {
        schema: "1.0".to_string(),
        machine: "lambda".to_string(),
        hostname: "lambda-box".to_string(),
        generated_at: "2026-02-16T14:00:00Z".to_string(),
        generator: "forjar 0.1.0".to_string(),
        blake3_version: "1.8".to_string(),
        resources,
    };
    let text = forjar::state::save_lock_text(&lock);
    let loaded = forjar::state::load_lock_text(&text).expect("round trip");
    assert_eq!(loaded.schema, lock.schema);
    assert_eq!(loaded.machine, lock.machine);
    assert_eq!(loaded.hostname, lock.hostname);
    assert_eq!(loaded.generated_at, lock.generated_at);
    assert_eq!(loaded.generator, lock.generator);
    assert_eq!(loaded.blake3_version, lock.blake3_version);
    assert_eq!(loaded.resources.len(), 2);
    // insertion order survives
    assert_eq!(loaded.resources.key_at(0), "zz-last-first");
    assert_eq!(loaded.resources.key_at(1), "aaa-second");
    let rl = loaded.resources.get("zz-last-first").unwrap();
    assert_eq!(rl.status, ResourceStatus::Converged);
    assert_eq!(rl.duration_millis, Some(1500));
    assert_eq!(rl.hash, "blake3:abc123");
    assert_eq!(
        rl.details.get("path").unwrap(),
        &ParamValue::Str("/etc/a \"q\"\nline".to_string())
    );
    assert_eq!(rl.details.get("count").unwrap(), &ParamValue::Int(-7));
    assert_eq!(rl.details.get("flag").unwrap(), &ParamValue::Bool(true));
    assert_eq!(rl.details.get("nothing").unwrap(), &ParamValue::Null);
}

#[test]
fn lock_load_rejects_garbage() {
    assert!(forjar::state::load_lock_text("not a lock").is_none());
    assert!(forjar::state::load_lock_text("").is_none());
}

// Fingerprints have the documented shape and depend on the content.
#[test]
fn hash_string_shape() {
    let h1 = forjar::hashes::hash_string("hello");
    let h2 = forjar::hashes::hash_string("hello");
    let h3 = forjar::hashes::hash_string("world");
    assert_eq!(h1, h2);
    assert_ne!(h1, h3);
    assert!(h1.starts_with("blake3:"));
    assert_eq!(h1.len(), 7 + 64);
    assert!(h1[7..].chars().all(|c| c.is_ascii_hexdigit() && !c.is_ascii_uppercase()));
    assert_ne!(&h1[7..], "hello");
}

// Composition is order-sensitive.
#[test]
fn composite_hash_not_commutative() {
    let a = vec!["blake3:aaa".to_string(), "blake3:bbb".to_string()];
    let b = vec!["blake3:bbb".to_string(), "blake3:aaa".to_string()];
    let h1 = forjar::hashes::composite_hash(&a);
    let h2 = forjar::hashes::composite_hash(&b);
    assert!(h1.starts_with("blake3:"));
    assert_ne!(h1, h2);
}

// A directory's fingerprint is computed from its regular files alone, so
// a listing with and without a symlink entry is the same listing.
#[test]
fn directory_listing_hash() {
    let with = vec![
        ("a.txt".to_string(), forjar::hashes::hash_string("aaa")),
        ("b.txt".to_string(), forjar::hashes::hash_string("bbb")),
    ];
    let h1 = forjar::hashes::hash_directory_listing(&with);
    let h2 = forjar::hashes::hash_directory_listing(&with);
    assert_eq!(h1, h2);
    assert!(h1.starts_with("blake3:"));
    let reordered = vec![with[1].clone(), with[0].clone()];
    assert_ne!(h1, forjar::hashes::hash_directory_listing(&reordered));
}

// Template resolution on params and machine fields, and its failures.
#[test]
fn template_resolution() {
    let mut params: OMap<ParamValue> = OMap::new();
    params.insert("name".to_string(), ParamValue::Str("world".to_string()));
    let mut machines: OMap<Machine> = OMap::new();
    machines.insert("lambda".to_string(), machine("lambda-box", "192.168.1.1"));

    let ok = forjar::template::resolve_template("hello {{params.name}}", &params, &machines);
    assert_eq!(ok.unwrap(), "hello world");

    let addr = forjar::template::resolve_template("ssh {{machine.lambda.addr}}", &params, &machines);
    assert_eq!(addr.unwrap(), "ssh 192.168.1.1");

    let host =
        forjar::template::resolve_template("{{ machine.lambda.hostname }}", &params, &machines);
    assert_eq!(host.unwrap(), "lambda-box");

    let missing = forjar::template::resolve_template("{{params.missing}}", &params, &machines);
    assert!(missing.unwrap_err().contains("unknown param"));

    let bogus = forjar::template::resolve_template("{{bogus.var}}", &params, &machines);
    assert!(bogus.unwrap_err().contains("unknown template variable"));

    let unclosed = forjar::template::resolve_template("x {{params.name", &params, &machines);
    assert!(unclosed.unwrap_err().contains("unclosed template at position 2"));

    let badref = forjar::template::resolve_template("{{machine.lambda}}", &params, &machines);
    assert!(badref.unwrap_err().contains("invalid machine ref"));

    let badfield = forjar::template::resolve_template("{{machine.lambda.bogus}}", &params, &machines);
    assert!(badfield.unwrap_err().contains("unknown machine field"));

    let nomachine = forjar::template::resolve_template("{{machine.ghost.addr}}", &params, &machines);
    assert!(nomachine.unwrap_err().contains("unknown machine"));
}

// Validation collects one diagnostic per fault, in document order.
#[test]
fn validation_collects_all() {
    let mut pkg = base(ResourceType::Package);
    pkg.machine = MachineTarget::Single("ghost".to_string());
    pkg.depends_on = vec!["pkg".to_string(), "missing".to_string()];
    let mut c = config(vec![], vec![("pkg", pkg)]);
    c.version = "2.0".to_string();
    c.name = "".to_string();
    let errors = forjar::validate::validate_config(&c);
    let msgs: Vec<&str> = errors.iter().map(|e| e.message.as_str()).collect();
    assert_eq!(msgs[0], "version must be \"1.0\", got \"2.0\"");
    assert_eq!(msgs[1], "name must not be empty");
    assert!(msgs.contains(&"resource 'pkg' references unknown machine 'ghost'"));
    assert!(msgs.contains(&"resource 'pkg' depends on itself"));
    assert!(msgs.contains(&"resource 'pkg' depends on unknown resource 'missing'"));
    assert!(msgs.contains(&"resource 'pkg' (package) has no packages"));
    assert!(msgs.contains(&"resource 'pkg' (package) has no provider"));
}

#[test]
fn validation_kind_requirements() {
    let f = base(ResourceType::File);
    let s = base(ResourceType::Service);
    let m = base(ResourceType::Mount);
    let c = config(
        vec![("m1", machine("m1", "1.1.1.1"))],
        vec![("f", f), ("s", s), ("m", m)],
    );
    let errors = forjar::validate::validate_config(&c);
    let msgs: Vec<&str> = errors.iter().map(|e| e.message.as_str()).collect();
    assert!(msgs.contains(&"resource 'f' (file) has no path"));
    assert!(msgs.contains(&"resource 's' (service) has no name"));
    assert!(msgs.contains(&"resource 'm' (mount) needs source and target path"));
}

// Recipe expansion: inputs validated, siblings namespaced, externals on
// the first resource and only the first.
#[test]
fn recipe_expansion() {
    let mut inputs: OMap<RecipeInput> = OMap::new();
    inputs.insert(
        "export_path".to_string(),
        RecipeInput {
            input_type: "path".to_string(),
            description: None,
            default: None,
            min: None,
            max: None,
            choices: vec![],
        },
    );
    inputs.insert(
        "port".to_string(),
        RecipeInput {
            input_type: "int".to_string(),
            description: None,
            default: Some(ParamValue::Int(2049)),
            min: Some(1024),
            max: Some(65535),
            choices: vec![],
        },
    );
    let mut resources: OMap<Resource> = OMap::new();
    let mut pkgs = base(ResourceType::Package);
    pkgs.provider = Some("apt".to_string());
    pkgs.packages = vec!["nfs-kernel-server".to_string()];
    resources.insert("packages".to_string(), pkgs);
    let mut exports = base(ResourceType::File);
    exports.path = Some("/etc/exports".to_string());
    exports.content = Some("{{inputs.export_path}} *(rw) # {{inputs.port}}".to_string());
    exports.depends_on = vec!["packages".to_string()];
    resources.insert("exports".to_string(), exports);
    let mut svc = base(ResourceType::Service);
    svc.name = Some("nfs-kernel-server".to_string());
    svc.restart_on = vec!["exports".to_string()];
    svc.depends_on = vec!["packages".to_string(), "exports".to_string()];
    resources.insert("service".to_string(), svc);
    let rf = RecipeFile {
        recipe: RecipeMetadata {
            name: "nfs-server".to_string(),
            version: None,
            description: None,
            inputs,
            needs: vec![],
        },
        resources,
    };

    let mut provided: OMap<ParamValue> = OMap::new();
    provided.insert("export_path".to_string(), ParamValue::Str("/mnt/raid".to_string()));
    let target = MachineTarget::Single("lambda".to_string());
    let ext = vec!["base-pkg".to_string()];
    let expanded = forjar::recipe::expand_recipe("nfs", &rf, &target, &provided, &ext).unwrap();

    assert_eq!(expanded.len(), 3);
    assert!(expanded.get("nfs/packages").is_some());
    let exports = expanded.get("nfs/exports").unwrap();
    assert!(exports.content.as_ref().unwrap().contains("/mnt/raid"));
    assert!(exports.content.as_ref().unwrap().contains("2049"));
    assert!(exports.depends_on.contains(&"nfs/packages".to_string()));
    assert_eq!(exports.machine.to_vec(), vec!["lambda"]);

    // externals on the first resource, and only the first
    let first = expanded.get("nfs/packages").unwrap();
    assert!(first.depends_on.contains(&"base-pkg".to_string()));
    assert!(!exports.depends_on.contains(&"base-pkg".to_string()));
    let third = expanded.get("nfs/service").unwrap();
    assert!(!third.depends_on.contains(&"base-pkg".to_string()));
    assert!(third.restart_on.contains(&"nfs/exports".to_string()));

    assert_eq!(
        forjar::recipe::recipe_terminal_id("nfs", &rf),
        Some("nfs/service".to_string())
    );
}

#[test]
fn recipe_input_faults() {
    let decl = RecipeInput {
        input_type: "int".to_string(),
        description: None,
        default: None,
        min: Some(1024),
        max: Some(65535),
        choices: vec![],
    };
    let low = forjar::recipe::validate_input_type("port", "int", &ParamValue::Int(80), &decl);
    assert!(low.unwrap_err().contains(">= 1024"));
    let high = forjar::recipe::validate_input_type("port", "int", &ParamValue::Int(70000), &decl);
    assert!(high.unwrap_err().contains("<= 65535"));
    let wrong =
        forjar::recipe::validate_input_type("port", "int", &ParamValue::Str("x".to_string()), &decl);
    assert!(wrong.unwrap_err().contains("must be an integer"));

    let pdecl = RecipeInput {
        input_type: "path".to_string(),
        description: None,
        default: None,
        min: None,
        max: None,
        choices: vec![],
    };
    let rel = forjar::recipe::validate_input_type(
        "export_path",
        "path",
        &ParamValue::Str("relative/path".to_string()),
        &pdecl,
    );
    assert!(rel.unwrap_err().contains("absolute path"));

    let edecl = RecipeInput {
        input_type: "enum".to_string(),
        description: None,
        default: None,
        min: None,
        max: None,
        choices: vec!["tcp".to_string(), "udp".to_string()],
    };
    let bad = forjar::recipe::validate_input_type(
        "protocol",
        "enum",
        &ParamValue::Str("icmp".to_string()),
        &edecl,
    );
    assert!(bad.unwrap_err().contains("one of: tcp, udp"));
}

// Drift: a matching fingerprint is quiet, a divergent one is a finding.
#[test]
fn drift_finding_on_divergence() {
    let expected = forjar::hashes::hash_string("original");
    let same = forjar::drift::check_file_drift(
        "cfg",
        "/etc/cfg",
        &expected,
        &FileObservation::Hashed(expected.clone()),
    );
    assert!(same.is_none());
    let actual = forjar::hashes::hash_string("modified");
    let finding = forjar::drift::check_file_drift(
        "cfg",
        "/etc/cfg",
        &expected,
        &FileObservation::Hashed(actual.clone()),
    )
    .unwrap();
    assert_eq!(finding.resource_id, "cfg");
    assert_eq!(finding.expected_hash, expected);
    assert_eq!(finding.actual_hash, actual);
    assert!(finding.detail.contains("content changed"));
}

#[test]
fn drift_targets_skip_non_candidates() {
    let mut resources: OMap<ResourceLock> = OMap::new();
    let mut good_details: OMap<ParamValue> = OMap::new();
    good_details.insert("path".to_string(), ParamValue::Str("/etc/a".to_string()));
    good_details.insert("content_hash".to_string(), ParamValue::Str("blake3:aa".to_string()));
    resources.insert(
        "good".to_string(),
        ResourceLock {
            resource_type: ResourceType::File,
            status: ResourceStatus::Converged,
            applied_at: None,
            duration_millis: None,
            hash: "blake3:x".to_string(),
            details: good_details,
        },
    );
    resources.insert(
        "failed".to_string(),
        ResourceLock {
            resource_type: ResourceType::File,
            status: ResourceStatus::Failed,
            applied_at: None,
            duration_millis: None,
            hash: "".to_string(),
            details: OMap::new(),
        },
    );
    resources.insert(
        "pkg".to_string(),
        ResourceLock {
            resource_type: ResourceType::Package,
            status: ResourceStatus::Converged,
            applied_at: None,
            duration_millis: None,
            hash: "blake3:y".to_string(),
            details: OMap::new(),
        },
    );
    let mut bad_details: OMap<ParamValue> = OMap::new();
    bad_details.insert("path".to_string(), ParamValue::Int(42));
    bad_details.insert("content_hash".to_string(), ParamValue::Str("blake3:bb".to_string()));
    resources.insert(
        "bad-path".to_string(),
        ResourceLock {
            resource_type: ResourceType::File,
            status: ResourceStatus::Converged,
            applied_at: None,
            duration_millis: None,
            hash: "blake3:z".to_string(),
            details: bad_details,
        },
    );
    let lock = StateLock {
        schema: "1.0".to_string(),
        machine: "m".to_string(),
        hostname: "m".to_string(),
        generated_at: "2026-01-01T00:00:00Z".to_string(),
        generator: "forjar 0.1.0".to_string(),
        blake3_version: "1.8".to_string(),
        resources,
    };
    let targets = forjar::drift::drift_targets(&lock);
    assert_eq!(targets.len(), 1);
    assert_eq!(targets[0].0, "good");
    assert_eq!(targets[0].1, "/etc/a");
    assert_eq!(targets[0].2, "blake3:aa");
}

// The calendar conversion on known instants.
#[test]
fn timestamp_formatting() {
    assert_eq!(forjar::eventlog::format_timestamp(0), "1970-01-01T00:00:00Z");
    assert_eq!(forjar::eventlog::format_timestamp(86399), "1970-01-01T23:59:59Z");
    assert_eq!(forjar::eventlog::format_timestamp(86400), "1970-01-02T00:00:00Z");
    // a leap day
    assert_eq!(forjar::eventlog::format_timestamp(951782400), "2000-02-29T00:00:00Z");
    // the day after it
    assert_eq!(forjar::eventlog::format_timestamp(951868800), "2000-03-01T00:00:00Z");
}

// One JSON object per event, tag first after the timestamp, escaping on.
#[test]
fn event_json_lines() {
    let line = forjar::events::event_json(
        "2026-01-01T00:00:00Z",
        &ProvenanceEvent::ApplyStarted {
            machine: "lambda".to_string(),
            run_id: "r-abc".to_string(),
            forjar_version: "0.1.0".to_string(),
        },
    );
    assert!(line.starts_with("{\"ts\":\"2026-01-01T00:00:00Z\""));
    assert!(line.contains("\"event\":\"apply_started\""));
    assert!(line.contains("\"run_id\":\"r-abc\""));
    assert!(line.ends_with("}"));

    let esc = forjar::events::event_json(
        "t",
        &ProvenanceEvent::ResourceFailed {
            machine: "m\"x".to_string(),
            resource: "r\nnl".to_string(),
            error: "back\\slash".to_string(),
        },
    );
    assert!(esc.contains("m\\\"x"));
    assert!(esc.contains("r\\nnl"));
    assert!(esc.contains("back\\\\slash"));

    let conv = forjar::events::event_json(
        "t",
        &ProvenanceEvent::ResourceConverged {
            machine: "m".to_string(),
            resource: "r".to_string(),
            duration_millis: 1500,
            hash: "blake3:aa".to_string(),
        },
    );
    assert!(conv.contains("\"duration_seconds\":1.500"));
}

// The applier's machine list: first appearance, no repeats.
#[test]
fn machine_collection() {
    let mut r1 = base(ResourceType::Package);
    r1.machine = MachineTarget::Single("a".to_string());
    r1.provider = Some("apt".to_string());
    r1.packages = vec!["x".to_string()];
    let mut r2 = base(ResourceType::Package);
    r2.machine = MachineTarget::Multiple(vec!["a".to_string(), "b".to_string()]);
    r2.provider = Some("apt".to_string());
    r2.packages = vec!["y".to_string()];
    let c = config(
        vec![("a", machine("a", "1.1.1.1")), ("b", machine("b", "2.2.2.2"))],
        vec![("r1", r1), ("r2", r2)],
    );
    let ms = forjar::exec::collect_machines(&c);
    assert_eq!(ms, vec!["a", "b"]);
}

// One resource on two machines yields two planned changes.
#[test]
fn multi_machine_plan() {
    let mut tools = base(ResourceType::Package);
    tools.machine = MachineTarget::Multiple(vec!["a".to_string(), "b".to_string()]);
    tools.provider = Some("cargo".to_string());
    tools.packages = vec!["batuta".to_string()];
    let c = config(
        vec![("a", machine("a", "1.1.1.1")), ("b", machine("b", "2.2.2.2"))],
        vec![("tools", tools)],
    );
    let order = forjar::graph::build_execution_order(&c).unwrap();
    let locks: OMap<StateLock> = OMap::new();
    let plan = forjar::planner::plan(&c, &order, &locks);
    assert_eq!(plan.changes.len(), 2);
    assert_eq!(plan.to_create, 2);
    assert_eq!(plan.changes[0].machine, "a");
    assert_eq!(plan.changes[1].machine, "b");
}

// A failed resource replans as update.
#[test]
fn failed_resource_replans_as_update() {
    let mut pkg = base(ResourceType::Package);
    pkg.provider = Some("apt".to_string());
    pkg.packages = vec!["curl".to_string()];
    let c = config(vec![("m1", machine("m1", "127.0.0.1"))], vec![("pkg", pkg)]);
    let order = forjar::graph::build_execution_order(&c).unwrap();
    let mut lock = forjar::state::new_lock("m1", "m1");
    let stop = forjar::exec::record_failure(
        &mut lock,
        "pkg",
        ResourceType::Package,
        "2026-01-01T00:00:00Z".to_string(),
        500,
        true,
    );
    assert!(stop);
    assert_eq!(lock.resources.get("pkg").unwrap().status, ResourceStatus::Failed);
    assert_eq!(lock.resources.get("pkg").unwrap().hash, "");
    let mut locks: OMap<StateLock> = OMap::new();
    locks.insert("m1".to_string(), lock);
    let plan = forjar::planner::plan(&c, &order, &locks);
    assert_eq!(plan.to_update, 1);
}
