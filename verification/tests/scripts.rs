//! Script generation: per-kind handlers and the dispatcher.

use forjar::types::{MachineTarget, Resource, ResourceType};

fn base(rt: ResourceType) -> Resource {
    Resource {
        resource_type: rt,
        machine: MachineTarget::Single("m1".to_string()),
        state: None,
        depends_on: vec![],
        provider: None,
        packages: vec![],
        path: None,
        content: None,
        source: None,
        target: None,
        owner: None,
        group: None,
        mode: None,
        name: None,
        enabled: None,
        restart_on: vec![],
        fs_type: None,
        options: None,
    }
}

fn make_package() -> Resource {
    let mut r = base(ResourceType::Package);
    r.provider = Some("apt".to_string());
    r.packages = vec!["curl".to_string()];
    r
}

fn make_file() -> Resource {
    let mut r = base(ResourceType::File);
    r.path = Some("/etc/test.conf".to_string());
    r.content = Some("key=value".to_string());
    r.owner = Some("root".to_string());
    r.group = Some("root".to_string());
    r.mode = Some("0644".to_string());
    r
}

fn make_service() -> Resource {
    let mut r = base(ResourceType::Service);
    r.state = Some("running".to_string());
    r.name = Some("nginx".to_string());
    r.enabled = Some(true);
    r
}

fn make_mount() -> Resource {
    let mut r = base(ResourceType::Mount);
    r.path = Some("/mnt/data".to_string());
    r.source = Some("192.168.1.1:/data".to_string());
    r.fs_type = Some("nfs".to_string());
    r.options = Some("ro,hard".to_string());
    r
}

fn make_apt_resource(packages: &[&str]) -> Resource {
    let mut r = base(ResourceType::Package);
    r.provider = Some("apt".to_string());
    r.packages = packages.iter().map(|s| s.to_string()).collect();
    r
}

// ---- dispatcher ----

#[test]
fn test_fj005_check_dispatches_package() {
    let r = make_package();
    let script = forjar::codegen::check_script(&r).unwrap();
    assert!(script.contains("dpkg"));
}

#[test]
fn test_fj005_check_dispatches_file() {
    let r = make_file();
    let script = forjar::codegen::check_script(&r).unwrap();
    assert!(script.contains("test -f"));
}

#[test]
fn test_fj005_check_dispatches_service() {
    let r = make_service();
    let script = forjar::codegen::check_script(&r).unwrap();
    assert!(script.contains("systemctl"));
}

#[test]
fn test_fj005_check_dispatches_mount() {
    let r = make_mount();
    let script = forjar::codegen::check_script(&r).unwrap();
    assert!(script.contains("mountpoint"));
}

#[test]
fn test_fj005_apply_dispatches_package() {
    let r = make_package();
    let script = forjar::codegen::apply_script(&r).unwrap();
    assert!(script.contains("apt-get install"));
}

#[test]
fn test_fj005_apply_dispatches_file() {
    let r = make_file();
    let script = forjar::codegen::apply_script(&r).unwrap();
    assert!(script.contains("cat >"));
    assert!(script.contains("FORJAR_EOF"));
}

#[test]
fn test_fj005_apply_dispatches_service() {
    let r = make_service();
    let script = forjar::codegen::apply_script(&r).unwrap();
    assert!(script.contains("systemctl start"));
}

#[test]
fn test_fj005_apply_dispatches_mount() {
    let r = make_mount();
    let script = forjar::codegen::apply_script(&r).unwrap();
    assert!(script.contains("mount -t 'nfs'"));
}

#[test]
fn test_fj005_state_query_dispatches() {
    let r = make_package();
    let script = forjar::codegen::state_query_script(&r).unwrap();
    assert!(script.contains("dpkg-query"));
}

#[test]
fn test_fj005_state_query_file() {
    let mut r = make_package();
    r.resource_type = ResourceType::File;
    r.path = Some("/etc/conf".to_string());
    let script = forjar::codegen::state_query_script(&r).unwrap();
    assert!(script.contains("stat") || script.contains("/etc/conf"));
}

#[test]
fn test_fj005_state_query_service() {
    let mut r = make_package();
    r.resource_type = ResourceType::Service;
    r.name = Some("nginx".to_string());
    let script = forjar::codegen::state_query_script(&r).unwrap();
    assert!(script.contains("nginx"));
}

#[test]
fn test_fj005_unsupported_type() {
    let mut r = make_package();
    r.resource_type = ResourceType::Docker;
    assert!(forjar::codegen::check_script(&r).is_err());
    assert!(forjar::codegen::apply_script(&r).is_err());
    assert!(forjar::codegen::state_query_script(&r).is_err());
}

// ---- packages ----

#[test]
fn test_fj006_check_apt() {
    let r = make_apt_resource(&["curl", "wget"]);
    let script = forjar::resources::package::check_script(&r);
    assert!(script.contains("dpkg -l 'curl'"));
    assert!(script.contains("dpkg -l 'wget'"));
}

#[test]
fn test_fj006_apply_apt_present() {
    let r = make_apt_resource(&["curl"]);
    let script = forjar::resources::package::apply_script(&r);
    assert!(script.contains("apt-get install"));
    assert!(script.contains("'curl'"));
    assert!(script.contains("set -euo pipefail"));
    assert!(script.contains("DEBIAN_FRONTEND=noninteractive"));
}

#[test]
fn test_fj006_apply_apt_absent() {
    let mut r = make_apt_resource(&["curl"]);
    r.state = Some("absent".to_string());
    let script = forjar::resources::package::apply_script(&r);
    assert!(script.contains("apt-get remove"));
}

#[test]
fn test_fj006_cargo_check() {
    let mut r = make_apt_resource(&["batuta"]);
    r.provider = Some("cargo".to_string());
    let script = forjar::resources::package::check_script(&r);
    assert!(script.contains("command -v 'batuta'"));
}

#[test]
fn test_fj006_cargo_install() {
    let mut r = make_apt_resource(&["batuta"]);
    r.provider = Some("cargo".to_string());
    let script = forjar::resources::package::apply_script(&r);
    assert!(script.contains("cargo install 'batuta'"));
}

#[test]
fn test_fj006_state_query_apt() {
    let r = make_apt_resource(&["curl"]);
    let script = forjar::resources::package::state_query_script(&r);
    assert!(script.contains("dpkg-query"));
}

#[test]
fn test_fj006_quoted_packages() {
    let r = make_apt_resource(&["curl", "lib; rm -rf /"]);
    let script = forjar::resources::package::apply_script(&r);
    assert!(script.contains("'lib; rm -rf /'"));
}

#[test]
fn test_fj006_state_query_cargo() {
    let mut r = make_apt_resource(&["batuta", "renacer"]);
    r.provider = Some("cargo".to_string());
    let script = forjar::resources::package::state_query_script(&r);
    assert!(script.contains("command -v 'batuta'"));
    assert!(script.contains("command -v 'renacer'"));
    assert!(script.contains("installed"));
}

#[test]
fn test_fj006_state_query_unknown_provider() {
    let mut r = make_apt_resource(&["tool"]);
    r.provider = Some("pip".to_string());
    let script = forjar::resources::package::state_query_script(&r);
    assert!(script.contains("unknown"));
}

#[test]
fn test_fj006_check_unsupported_provider() {
    let mut r = make_apt_resource(&["foo"]);
    r.provider = Some("brew".to_string());
    let script = forjar::resources::package::check_script(&r);
    assert!(script.contains("unsupported provider"));
}

#[test]
fn test_fj006_apply_unsupported_combo() {
    let mut r = make_apt_resource(&["foo"]);
    r.provider = Some("pip".to_string());
    r.state = Some("present".to_string());
    let script = forjar::resources::package::apply_script(&r);
    assert!(script.contains("unsupported"));
}

#[test]
fn test_fj006_cargo_check_output_format() {
    let mut r = make_apt_resource(&["ripgrep"]);
    r.provider = Some("cargo".to_string());
    let script = forjar::resources::package::check_script(&r);
    assert!(script.contains("echo 'installed:ripgrep'"));
    assert!(script.contains("echo 'missing:ripgrep'"));
}

#[test]
fn test_fj006_apt_check_output_format() {
    let r = make_apt_resource(&["curl"]);
    let script = forjar::resources::package::check_script(&r);
    assert!(script.contains("echo 'installed:curl'"));
    assert!(script.contains("echo 'missing:curl'"));
}

#[test]
fn test_fj006_state_query_cargo_output_format() {
    let mut r = make_apt_resource(&["pmat"]);
    r.provider = Some("cargo".to_string());
    let script = forjar::resources::package::state_query_script(&r);
    assert!(script.contains("echo 'pmat=installed'"));
    assert!(script.contains("echo 'pmat=MISSING'"));
}

#[test]
fn test_fj006_state_query_apt_output_format() {
    let r = make_apt_resource(&["vim"]);
    let script = forjar::resources::package::state_query_script(&r);
    assert!(script.contains("vim"));
    assert!(script.contains("vim=MISSING"));
    assert!(script.contains("dpkg-query -W"));
}

#[test]
fn test_fj006_multi_package_check_preserves_all() {
    let r = make_apt_resource(&["a", "b", "c"]);
    let script = forjar::resources::package::check_script(&r);
    assert!(script.contains("dpkg -l 'a'"));
    assert!(script.contains("dpkg -l 'b'"));
    assert!(script.contains("dpkg -l 'c'"));
    assert_eq!(script.matches('\n').count(), 2);
}

#[test]
fn test_fj006_cargo_install_conditional() {
    let mut r = make_apt_resource(&["tool"]);
    r.provider = Some("cargo".to_string());
    let script = forjar::resources::package::apply_script(&r);
    assert!(script.contains("if ! command -v 'tool'"));
    assert!(script.contains("cargo install 'tool'"));
}

// ---- files ----

fn make_file_resource(path: &str, content: Option<&str>) -> Resource {
    let mut r = base(ResourceType::File);
    r.path = Some(path.to_string());
    r.content = content.map(|s| s.to_string());
    r.owner = Some("root".to_string());
    r.group = Some("root".to_string());
    r.mode = Some("0644".to_string());
    r
}

#[test]
fn test_fj007_check_file() {
    let r = make_file_resource("/etc/test.conf", None);
    let script = forjar::resources::file::check_script(&r);
    assert!(script.contains("test -f '/etc/test.conf'"));
}

#[test]
fn test_fj007_apply_file_with_content() {
    let r = make_file_resource("/etc/exports", Some("/data 192.168.1.0/24(ro)"));
    let script = forjar::resources::file::apply_script(&r);
    assert!(script.contains("cat > '/etc/exports'"));
    assert!(script.contains("FORJAR_EOF"));
    assert!(script.contains("/data 192.168.1.0/24(ro)"));
    assert!(script.contains("chown 'root:root'"));
    assert!(script.contains("chmod '0644'"));
}

#[test]
fn test_fj007_apply_directory() {
    let mut r = make_file_resource("/data/transcripts", None);
    r.state = Some("directory".to_string());
    r.owner = Some("noah".to_string());
    r.group = None;
    r.mode = Some("0755".to_string());
    let script = forjar::resources::file::apply_script(&r);
    assert!(script.contains("mkdir -p '/data/transcripts'"));
    assert!(script.contains("chown 'noah'"));
    assert!(script.contains("chmod '0755'"));
}

#[test]
fn test_fj007_apply_absent() {
    let mut r = make_file_resource("/tmp/garbage", None);
    r.state = Some("absent".to_string());
    let script = forjar::resources::file::apply_script(&r);
    assert!(script.contains("rm -rf '/tmp/garbage'"));
}

#[test]
fn test_fj007_apply_symlink() {
    let mut r = make_file_resource("/usr/local/bin/tool", None);
    r.state = Some("symlink".to_string());
    r.target = Some("/opt/tool/bin/tool".to_string());
    let script = forjar::resources::file::apply_script(&r);
    assert!(script.contains("ln -sfn '/opt/tool/bin/tool' '/usr/local/bin/tool'"));
}

#[test]
fn test_fj007_heredoc_safe() {
    let r = make_file_resource("/etc/test", Some("key=\"value\"\n$HOME/path"));
    let script = forjar::resources::file::apply_script(&r);
    assert!(script.contains("FORJAR_EOF"));
    assert!(script.contains("<<'FORJAR_EOF'"));
}

#[test]
fn test_fj007_check_script_directory() {
    let mut r = make_file_resource("/data/dir", None);
    r.state = Some("directory".to_string());
    let script = forjar::resources::file::check_script(&r);
    assert!(script.contains("test -d '/data/dir'"));
    assert!(script.contains("exists:directory"));
}

#[test]
fn test_fj007_check_script_absent() {
    let mut r = make_file_resource("/tmp/gone", None);
    r.state = Some("absent".to_string());
    let script = forjar::resources::file::check_script(&r);
    assert!(script.contains("test -e '/tmp/gone'"));
    assert!(script.contains("exists:present"));
}

#[test]
fn test_fj007_check_script_symlink() {
    let mut r = make_file_resource("/usr/bin/tool", None);
    r.state = Some("symlink".to_string());
    let script = forjar::resources::file::check_script(&r);
    assert!(script.contains("test -L '/usr/bin/tool'"));
    assert!(script.contains("exists:symlink"));
}

#[test]
fn test_fj007_state_query_script() {
    let r = make_file_resource("/etc/config", None);
    let script = forjar::resources::file::state_query_script(&r);
    assert!(script.contains("/etc/config"));
    assert!(script.contains("stat"));
    assert!(script.contains("MISSING"));
}

#[test]
fn test_fj007_apply_file_owner_no_group() {
    let mut r = make_file_resource("/etc/test.conf", Some("data"));
    r.group = None;
    let script = forjar::resources::file::apply_script(&r);
    assert!(script.contains("chown 'root' '/etc/test.conf'"));
    assert!(!script.contains("chown 'root:"));
}

#[test]
fn test_fj007_apply_directory_owner_and_group() {
    let mut r = make_file_resource("/data/exports", None);
    r.state = Some("directory".to_string());
    r.owner = Some("nfs".to_string());
    r.group = Some("nfs".to_string());
    r.mode = None;
    let script = forjar::resources::file::apply_script(&r);
    assert!(script.contains("mkdir -p '/data/exports'"));
    assert!(script.contains("chown 'nfs:nfs' '/data/exports'"));
}

#[test]
fn test_fj007_apply_file_at_root_no_mkdir() {
    let mut r = make_file_resource("/init", Some("boot script"));
    r.owner = None;
    let script = forjar::resources::file::apply_script(&r);
    assert!(script.contains("cat > '/init'"));
    assert!(!script.contains("mkdir -p '/'"));
}

// ---- mounts ----

#[test]
fn test_fj009_check_mount() {
    let mut r = make_mount();
    r.path = Some("/mnt/lambda-raid".to_string());
    let script = forjar::resources::mount::check_script(&r);
    assert!(script.contains("mountpoint -q '/mnt/lambda-raid'"));
}

#[test]
fn test_fj009_apply_mount() {
    let mut r = make_mount();
    r.path = Some("/mnt/lambda-raid".to_string());
    r.source = Some("192.168.50.50:/mnt/nvme-raid0".to_string());
    r.options = Some("ro,hard,intr".to_string());
    let script = forjar::resources::mount::apply_script(&r);
    assert!(script.contains("mkdir -p '/mnt/lambda-raid'"));
    assert!(script.contains("mount -t 'nfs' -o 'ro,hard,intr'"));
    assert!(script.contains("192.168.50.50:/mnt/nvme-raid0"));
    assert!(script.contains("/etc/fstab"));
}

#[test]
fn test_fj009_unmount() {
    let mut r = make_mount();
    r.path = Some("/mnt/lambda-raid".to_string());
    r.state = Some("unmounted".to_string());
    let script = forjar::resources::mount::apply_script(&r);
    assert!(script.contains("umount '/mnt/lambda-raid'"));
}

#[test]
fn test_fj009_absent() {
    let mut r = make_mount();
    r.state = Some("absent".to_string());
    let script = forjar::resources::mount::apply_script(&r);
    assert!(script.contains("umount"));
    assert!(script.contains("sed"));
    assert!(script.contains("fstab"));
}

// ---- services ----

fn make_service_resource(name: &str, state: &str) -> Resource {
    let mut r = base(ResourceType::Service);
    r.state = Some(state.to_string());
    r.name = Some(name.to_string());
    r.enabled = Some(true);
    r
}

#[test]
fn test_fj008_check_service() {
    let r = make_service_resource("nfs-kernel-server", "running");
    let script = forjar::resources::service::check_script(&r);
    assert!(script.contains("systemctl is-active 'nfs-kernel-server'"));
    assert!(script.contains("systemctl is-enabled 'nfs-kernel-server'"));
}

#[test]
fn test_fj008_apply_start() {
    let r = make_service_resource("nfs-kernel-server", "running");
    let script = forjar::resources::service::apply_script(&r);
    assert!(script.contains("systemctl start"));
    assert!(script.contains("systemctl enable"));
}

#[test]
fn test_fj008_apply_stop() {
    let r = make_service_resource("nfs-kernel-server", "stopped");
    let script = forjar::resources::service::apply_script(&r);
    assert!(script.contains("systemctl stop"));
}

#[test]
fn test_fj008_disable() {
    let mut r = make_service_resource("svc", "running");
    r.enabled = Some(false);
    let script = forjar::resources::service::apply_script(&r);
    assert!(script.contains("systemctl disable"));
}

#[test]
fn test_fj008_restart_on() {
    let mut r = make_service_resource("svc", "running");
    r.restart_on = vec!["config-file".to_string()];
    let script = forjar::resources::service::apply_script(&r);
    assert!(script.contains("systemctl reload-or-restart"));
}
