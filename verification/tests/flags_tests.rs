use nest::flags::{
    archive_platform, config_path_arg, detect_platform, first_command_index, global_action, libc_from_ldd,
    release_url, version_line, GlobalAction,
};

fn args(v: &[&str]) -> Vec<String> {
    v.iter().map(|s| s.to_string()).collect()
}

#[test]
fn flags_before_the_command_decide() {
    assert_eq!(global_action(&args(&["nest", "--version"])), GlobalAction::Version);
    assert_eq!(global_action(&args(&["nest", "-V"])), GlobalAction::Version);
    assert_eq!(global_action(&args(&["nest", "build", "--version"])), GlobalAction::Run);
    assert_eq!(global_action(&args(&["nest", "--config", "f", "--init", "-f"])), GlobalAction::Init { force: true });
    assert_eq!(global_action(&args(&["nest", "--init"])), GlobalAction::Init { force: false });
    assert_eq!(global_action(&args(&["nest", "--update", "--recreate"])), GlobalAction::Update { recreate: true });
    assert_eq!(global_action(&args(&["nest", "--example"])), GlobalAction::Example);
    assert_eq!(global_action(&args(&["nest"])), GlobalAction::Run);
}

#[test]
fn command_position_skips_the_config_value() {
    assert_eq!(first_command_index(&args(&["nest", "-c", "x", "build"])), 3);
    assert_eq!(first_command_index(&args(&["nest", "--config"])), 2);
    assert_eq!(first_command_index(&args(&["nest", "-n", "deploy", "v1"])), 2);
    assert_eq!(first_command_index(&args(&["nest"])), 1);
}

#[test]
fn config_path_only_before_the_command() {
    assert_eq!(config_path_arg(&args(&["nest", "--config", "p", "build"])), Some("p".to_string()));
    assert_eq!(config_path_arg(&args(&["nest", "-c", "q"])), Some("q".to_string()));
    assert_eq!(config_path_arg(&args(&["nest", "build", "--config", "p"])), None);
    assert_eq!(config_path_arg(&args(&["nest", "--config"])), None);
}

#[test]
fn platform_and_architecture() {
    assert_eq!(detect_platform("Linux", "arm64"), Ok(("linux".to_string(), "aarch64".to_string())));
    assert_eq!(detect_platform("Darwin", "x86_64"), Ok(("macos".to_string(), "x86_64".to_string())));
    assert_eq!(
        detect_platform("Windows_NT", "x86_64"),
        Err("Unsupported OS: Windows_NT. Update command currently supports Linux and macOS only.".to_string())
    );
    assert_eq!(detect_platform("Linux", "riscv64"), Err("Unsupported architecture: riscv64".to_string()));
}

#[test]
fn libc_from_ldd_output() {
    assert_eq!(libc_from_ldd("\tlibc.so.6 => /lib/libc.so.6", ""), "glibc");
    assert_eq!(libc_from_ldd("\t/lib/ld-musl-x86_64.so.1", ""), "musl");
    assert_eq!(libc_from_ldd("", "\tnot a dynamic executable"), "musl");
    assert_eq!(libc_from_ldd("", ""), "glibc");
}

#[test]
fn archive_names_and_url() {
    assert_eq!(archive_platform("linux", "x86_64", "MUSL"), ("linux-musl".to_string(), false));
    assert_eq!(archive_platform("linux", "x86_64", ""), ("linux".to_string(), false));
    assert_eq!(archive_platform("linux", "x86_64", "foo"), ("linux".to_string(), true));
    assert_eq!(archive_platform("macos", "aarch64", "musl"), ("macos".to_string(), false));
    assert_eq!(
        release_url("quonaro/nest", "linux", "x86_64"),
        "https://github.com/quonaro/nest/releases/latest/download/nest-linux-x86_64.tar.gz"
    );
}

#[test]
fn version_line_names_the_library() {
    assert_eq!(version_line("1.2.3", "MUSL"), "nest 1.2.3 (musl)");
    assert_eq!(version_line("1.2.3", "glibc"), "nest 1.2.3 (glibc)");
    assert_eq!(version_line("0.1", "other"), "nest 0.1 (glibc)");
}
