use runme::sandbox::{DockerSandbox, HostSandbox, WasmSandbox};

#[test]
fn docker_sandbox_prefers_cli_image_over_env() {
    let from_env = DockerSandbox::new(
        ".".to_string(),
        None,
        Some("env:image".to_string()),
        Vec::new(),
    );
    assert_eq!(from_env.image(), "env:image");

    let from_cli = DockerSandbox::new(
        ".".to_string(),
        Some("cli:image".to_string()),
        Some("env:image".to_string()),
        vec!["--cpus=1".to_string()],
    );
    assert_eq!(from_cli.image(), "cli:image");
    assert_eq!(from_cli.extra_args(), &vec!["--cpus=1".to_string()]);
}

#[test]
fn docker_image_defaults_when_nothing_is_given() {
    let sandbox = DockerSandbox::new(".".to_string(), None, None, Vec::new());
    assert_eq!(sandbox.image(), "ubuntu:22.04");
}

#[test]
fn docker_command_wraps_argv() {
    let sandbox = DockerSandbox::new(
        "/tmp/work".to_string(),
        Some("alpine:3.19".to_string()),
        None,
        vec!["--cpus=1".to_string()],
    );
    let argv = vec!["echo".to_string(), "hi".to_string()];
    let full = sandbox.command_argv(&argv);
    assert_eq!(
        full,
        vec![
            "run".to_string(),
            "--rm".to_string(),
            "--network=none".to_string(),
            "-v".to_string(),
            "/tmp/work:/workspace".to_string(),
            "-w".to_string(),
            "/workspace".to_string(),
            "--cpus=1".to_string(),
            "alpine:3.19".to_string(),
            "echo".to_string(),
            "hi".to_string(),
        ]
    );
}

#[test]
fn backend_labels_are_fixed() {
    assert_eq!(HostSandbox::new(".".to_string()).label(), "host");
    assert_eq!(DockerSandbox::new(".".to_string(), None, None, Vec::new()).label(), "docker");
    assert_eq!(WasmSandbox::new(".".to_string()).label(), "wasm(host-fallback)");
}
