//! The data model: configurations, machines, resources, execution policy,
//! per-machine state locks, plans, provenance events and run results.

use vstd::prelude::*;

use crate::omap::OMap;
use crate::strutil::int_str;

verus! {

/// A scalar configuration value: parameters and lock details hold strings,
/// integers, booleans or null.
#[derive(Debug, Clone, PartialEq)]
pub enum ParamValue {
    Str(String),
    Int(i64),
    Bool(bool),
    Null,
}

impl ParamValue {
    pub fn dup(&self) -> (r: ParamValue)
        ensures
            r == *self,
    {
        match self {
            ParamValue::Str(s) => ParamValue::Str(s.clone()),
            ParamValue::Int(i) => ParamValue::Int(*i),
            ParamValue::Bool(b) => ParamValue::Bool(*b),
            ParamValue::Null => ParamValue::Null,
        }
    }
}

/// The text a scalar contributes when substituted into a template:
/// the string itself, the decimal rendering, `true`/`false`, or nothing.
pub open spec fn scalar_text(v: ParamValue) -> Seq<char> {
    match v {
        ParamValue::Str(s) => s@,
        ParamValue::Int(i) => int_str(i as int),
        ParamValue::Bool(b) => if b {
            "true"@
        } else {
            "false"@
        },
        ParamValue::Null => Seq::empty(),
    }
}

/// Render a scalar value as the string it substitutes into templates.
pub fn yaml_value_to_string(val: &ParamValue) -> (r: String)
    ensures
        r@ == scalar_text(*val),
{
    match val {
        ParamValue::Str(s) => s.clone(),
        ParamValue::Int(i) => crate::strutil::i64_to_dec(*i),
        ParamValue::Bool(b) => {
            if *b {
                crate::strutil::str_to_string("true")
            } else {
                crate::strutil::str_to_string("false")
            }
        },
        ParamValue::Null => String::new(),
    }
}

/// A managed machine.
#[derive(Debug, Clone, PartialEq)]
pub struct Machine {
    pub hostname: String,
    pub addr: String,
    pub user: String,
    pub arch: String,
    pub ssh_key: Option<String>,
    pub roles: Vec<String>,
}

impl Machine {
    pub fn dup(&self) -> (r: Machine)
        ensures
            r.hostname == self.hostname,
            r.addr == self.addr,
            r.user == self.user,
            r.arch == self.arch,
            r.ssh_key == self.ssh_key,
            r.roles@ == self.roles@,
    {
        Machine {
            hostname: self.hostname.clone(),
            addr: self.addr.clone(),
            user: self.user.clone(),
            arch: self.arch.clone(),
            ssh_key: clone_opt(&self.ssh_key),
            roles: clone_strs(&self.roles),
        }
    }
}

/// The default SSH user for a machine that names none.
pub fn default_user() -> (r: String)
    ensures
        r@ == "root"@,
{
    crate::strutil::str_to_string("root")
}

/// The default CPU architecture for a machine that names none.
pub fn default_arch() -> (r: String)
    ensures
        r@ == "x86_64"@,
{
    crate::strutil::str_to_string("x86_64")
}

/// The default for the policy flags that are on unless switched off.
pub fn default_true() -> (r: bool)
    ensures
        r,
{
    true
}

pub fn clone_opt(o: &Option<String>) -> (r: Option<String>)
    ensures
        r == *o,
{
    match o {
        Some(s) => Some(s.clone()),
        None => None,
    }
}

pub fn clone_strs(v: &Vec<String>) -> (r: Vec<String>)
    ensures
        r@ == v@,
{
    let mut out: Vec<String> = Vec::new();
    let n = v.len();
    let mut i: usize = 0;
    while i < n
        invariant
            n == v.len(),
            i <= n,
            out@ =~= v@.take(i as int),
        decreases n - i,
    {
        out.push(v[i].clone());
        proof {
            assert(out@ =~= v@.take(i + 1));
        }
        i += 1;
    }
    proof {
        assert(v@.take(n as int) =~= v@);
    }
    out
}

/// The closed set of resource kinds.
#[derive(Debug, Clone, Copy, PartialEq, Eq, Structural)]
pub enum ResourceType {
    Package,
    File,
    Service,
    Mount,
    User,
    Docker,
    Pepita,
    Network,
    Cron,
}

/// The lowercase kind discriminator as it appears in configurations.
pub open spec fn type_label(t: ResourceType) -> Seq<char> {
    match t {
        ResourceType::Package => "package"@,
        ResourceType::File => "file"@,
        ResourceType::Service => "service"@,
        ResourceType::Mount => "mount"@,
        ResourceType::User => "user"@,
        ResourceType::Docker => "docker"@,
        ResourceType::Pepita => "pepita"@,
        ResourceType::Network => "network"@,
        ResourceType::Cron => "cron"@,
    }
}

impl ResourceType {
    /// The lowercase kind discriminator as it appears in configurations.
    pub fn label(&self) -> (r: &'static str)
        ensures
            r@ == type_label(*self),
    {
        match self {
            ResourceType::Package => "package",
            ResourceType::File => "file",
            ResourceType::Service => "service",
            ResourceType::Mount => "mount",
            ResourceType::User => "user",
            ResourceType::Docker => "docker",
            ResourceType::Pepita => "pepita",
            ResourceType::Network => "network",
            ResourceType::Cron => "cron",
        }
    }
}

/// A resource's target: one machine name or several.
#[derive(Debug, Clone, PartialEq)]
pub enum MachineTarget {
    Single(String),
    Multiple(Vec<String>),
}

/// The list of machine names a target stands for.
pub open spec fn target_names(t: MachineTarget) -> Seq<Seq<char>> {
    match t {
        MachineTarget::Single(s) => seq![s@],
        MachineTarget::Multiple(v) => v@.map_values(|s: String| s@),
    }
}

impl MachineTarget {
    /// Expand to the list of machine names.
    pub fn to_vec(&self) -> (r: Vec<String>)
        ensures
            r@.map_values(|s: String| s@) == target_names(*self),
    {
        match self {
            MachineTarget::Single(s) => {
                let mut out: Vec<String> = Vec::new();
                out.push(s.clone());
                proof {
                    assert(out@.map_values(|t: String| t@) =~= target_names(*self));
                }
                out
            },
            MachineTarget::Multiple(v) => {
                let out = clone_strs(v);
                proof {
                    assert(out@.map_values(|t: String| t@) =~= target_names(*self));
                }
                out
            },
        }
    }

    pub fn dup(&self) -> (r: MachineTarget)
        ensures
            target_names(r) == target_names(*self),
    {
        match self {
            MachineTarget::Single(s) => MachineTarget::Single(s.clone()),
            MachineTarget::Multiple(v) => MachineTarget::Multiple(clone_strs(v)),
        }
    }
}

/// A single declared resource: the kind, its target, its explicit edges and
/// the kind-specific attribute bag.
#[derive(Debug, Clone, PartialEq)]
pub struct Resource {
    pub resource_type: ResourceType,
    pub machine: MachineTarget,
    pub state: Option<String>,
    pub depends_on: Vec<String>,
    pub provider: Option<String>,
    pub packages: Vec<String>,
    pub path: Option<String>,
    pub content: Option<String>,
    pub source: Option<String>,
    pub target: Option<String>,
    pub owner: Option<String>,
    pub group: Option<String>,
    pub mode: Option<String>,
    pub name: Option<String>,
    pub enabled: Option<bool>,
    pub restart_on: Vec<String>,
    pub fs_type: Option<String>,
    pub options: Option<String>,
}

/// Two resources agree on every observable field.
pub open spec fn same_resource(a: Resource, b: Resource) -> bool {
    &&& a.resource_type == b.resource_type
    &&& target_names(a.machine) == target_names(b.machine)
    &&& a.state == b.state
    &&& a.depends_on@ == b.depends_on@
    &&& a.provider == b.provider
    &&& a.packages@ == b.packages@
    &&& a.path == b.path
    &&& a.content == b.content
    &&& a.source == b.source
    &&& a.target == b.target
    &&& a.owner == b.owner
    &&& a.group == b.group
    &&& a.mode == b.mode
    &&& a.name == b.name
    &&& a.enabled == b.enabled
    &&& a.restart_on@ == b.restart_on@
    &&& a.fs_type == b.fs_type
    &&& a.options == b.options
}

impl Resource {
    pub fn dup(&self) -> (r: Resource)
        ensures
            same_resource(r, *self),
    {
        Resource {
            resource_type: self.resource_type,
            machine: self.machine.dup(),
            state: clone_opt(&self.state),
            depends_on: clone_strs(&self.depends_on),
            provider: clone_opt(&self.provider),
            packages: clone_strs(&self.packages),
            path: clone_opt(&self.path),
            content: clone_opt(&self.content),
            source: clone_opt(&self.source),
            target: clone_opt(&self.target),
            owner: clone_opt(&self.owner),
            group: clone_opt(&self.group),
            mode: clone_opt(&self.mode),
            name: clone_opt(&self.name),
            enabled: self.enabled,
            restart_on: clone_strs(&self.restart_on),
            fs_type: clone_opt(&self.fs_type),
            options: clone_opt(&self.options),
        }
    }
}

/// What to do after a resource fails.
#[derive(Debug, Clone, Copy, PartialEq, Eq, Structural)]
pub enum FailurePolicy {
    StopOnFirst,
    ContinueIndependent,
}

/// Execution policy for a run.
#[derive(Debug, Clone, PartialEq)]
pub struct Policy {
    pub failure: FailurePolicy,
    pub parallel_machines: bool,
    pub tripwire: bool,
    pub lock_file: bool,
}

impl Default for Policy {
    /// Stop on the first failure, trace provenance, persist the lock.
    fn default() -> (r: Policy)
        ensures
            r.failure == FailurePolicy::StopOnFirst,
            !r.parallel_machines,
            r.tripwire,
            r.lock_file,
    {
        Policy { failure: FailurePolicy::StopOnFirst, parallel_machines: false, tripwire: true, lock_file: true }
    }
}

/// The root configuration document.
pub struct ForjarConfig {
    pub version: String,
    pub name: String,
    pub description: Option<String>,
    pub params: OMap<ParamValue>,
    pub machines: OMap<Machine>,
    pub resources: OMap<Resource>,
    pub policy: Policy,
}

/// Convergence status recorded per resource.
#[derive(Debug, Clone, Copy, PartialEq, Eq, Structural)]
pub enum ResourceStatus {
    Converged,
    Failed,
    Drifted,
    Unknown,
}

/// The uppercase status label used in human-readable output.
pub open spec fn status_label(s: ResourceStatus) -> Seq<char> {
    match s {
        ResourceStatus::Converged => "CONVERGED"@,
        ResourceStatus::Failed => "FAILED"@,
        ResourceStatus::Drifted => "DRIFTED"@,
        ResourceStatus::Unknown => "UNKNOWN"@,
    }
}

impl ResourceStatus {
    /// The uppercase status label used in human-readable output.
    pub fn label(&self) -> (r: &'static str)
        ensures
            r@ == status_label(*self),
    {
        match self {
            ResourceStatus::Converged => "CONVERGED",
            ResourceStatus::Failed => "FAILED",
            ResourceStatus::Drifted => "DRIFTED",
            ResourceStatus::Unknown => "UNKNOWN",
        }
    }
}

/// One resource's recorded outcome in a machine's lock.
#[derive(Debug, Clone, PartialEq)]
pub struct ResourceLock {
    pub resource_type: ResourceType,
    pub status: ResourceStatus,
    pub applied_at: Option<String>,
    pub duration_millis: Option<u64>,
    pub hash: String,
    pub details: OMap<ParamValue>,
}

/// A machine's persistent state lock.
#[derive(Debug, Clone, PartialEq)]
pub struct StateLock {
    pub schema: String,
    pub machine: String,
    pub hostname: String,
    pub generated_at: String,
    pub generator: String,
    pub blake3_version: String,
    pub resources: OMap<ResourceLock>,
}

/// Action the plan prescribes for one resource on one machine.
#[derive(Debug, Clone, Copy, PartialEq, Eq, Structural)]
pub enum PlanAction {
    Create,
    Update,
    Destroy,
    NoOp,
}

/// The uppercase action label used in human-readable output.
pub open spec fn action_label(a: PlanAction) -> Seq<char> {
    match a {
        PlanAction::Create => "CREATE"@,
        PlanAction::Update => "UPDATE"@,
        PlanAction::Destroy => "DESTROY"@,
        PlanAction::NoOp => "NO-OP"@,
    }
}

impl PlanAction {
    /// The uppercase action label used in human-readable output.
    pub fn label(&self) -> (r: &'static str)
        ensures
            r@ == action_label(*self),
    {
        match self {
            PlanAction::Create => "CREATE",
            PlanAction::Update => "UPDATE",
            PlanAction::Destroy => "DESTROY",
            PlanAction::NoOp => "NO-OP",
        }
    }
}

/// A single planned change.
#[derive(Debug, Clone, PartialEq)]
pub struct PlannedChange {
    pub resource_id: String,
    pub machine: String,
    pub resource_type: ResourceType,
    pub action: PlanAction,
    pub description: String,
}

/// The full execution plan: ordered changes plus summary counters.
#[derive(Debug, Clone, PartialEq)]
pub struct ExecutionPlan {
    pub name: String,
    pub changes: Vec<PlannedChange>,
    pub execution_order: Vec<String>,
    pub to_create: u32,
    pub to_update: u32,
    pub to_destroy: u32,
    pub unchanged: u32,
}

/// A provenance event, one JSON object per line in the event log.
#[derive(Debug, Clone, PartialEq)]
pub enum ProvenanceEvent {
    ApplyStarted { machine: String, run_id: String, forjar_version: String },
    ResourceStarted { machine: String, resource: String, action: String },
    ResourceConverged { machine: String, resource: String, duration_millis: u64, hash: String },
    ResourceFailed { machine: String, resource: String, error: String },
    ApplyCompleted {
        machine: String,
        run_id: String,
        resources_converged: u32,
        resources_unchanged: u32,
        resources_failed: u32,
        total_millis: u64,
    },
    DriftDetected { machine: String, resource: String, expected_hash: String, actual_hash: String },
}

/// The result of applying to a single machine.
#[derive(Debug, Clone, PartialEq)]
pub struct ApplyResult {
    pub machine: String,
    pub resources_converged: u32,
    pub resources_unchanged: u32,
    pub resources_failed: u32,
    pub total_millis: u64,
}

/// A structural or referential fault found by validation.
#[derive(Debug, Clone, PartialEq)]
pub struct ValidationError {
    pub message: String,
}

/// The captured output of one script execution on a target.
#[derive(Debug, Clone, PartialEq)]
pub struct ExecOutput {
    pub exit_code: i32,
    pub stdout: String,
    pub stderr: String,
}

impl ExecOutput {
    /// An execution succeeded exactly when it exited zero.
    pub fn success(&self) -> (r: bool)
        ensures
            r == (self.exit_code == 0),
    {
        self.exit_code == 0
    }
}

/// One drift finding: the recorded and the observed fingerprint differ.
#[derive(Debug, Clone, PartialEq)]
pub struct DriftFinding {
    pub resource_id: String,
    pub resource_type: ResourceType,
    pub expected_hash: String,
    pub actual_hash: String,
    pub detail: String,
}

} // verus!
