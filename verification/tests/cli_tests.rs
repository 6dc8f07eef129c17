use runme::cli::{Cli, CliError, Command, ReportFormat};
use runme::sandbox::{instantiate_sandbox, DockerConfig, SandboxChoice};

#[test]
fn sandbox_flag_defaults_to_host() {
    let cli = Cli::try_parse_from(vec!["runme", "list"]).expect("parse default");
    assert_eq!(cli.sandbox, SandboxChoice::Host);
}

#[test]
fn sandbox_flag_accepts_explicit_variants() {
    let docker =
        Cli::try_parse_from(vec!["runme", "--sandbox", "docker", "list"]).expect("parse docker");
    assert_eq!(docker.sandbox, SandboxChoice::Docker);

    let wasm = Cli::try_parse_from(vec!["runme", "--sandbox", "wasm", "list"]).expect("parse wasm");
    assert_eq!(wasm.sandbox, SandboxChoice::Wasm);
}

#[test]
fn docker_cli_flags_capture_configuration() {
    let cli = Cli::try_parse_from(vec![
        "runme",
        "--sandbox",
        "docker",
        "--docker-image",
        "custom:tag",
        "--docker-arg=--env=FOO=bar",
        "--docker-arg=--cpus=1",
        "list",
    ])
    .expect("parse docker options");
    assert_eq!(cli.docker_image.as_deref(), Some("custom:tag"));
    assert_eq!(
        cli.docker_args,
        vec!["--env=FOO=bar".to_string(), "--cpus=1".to_string()]
    );
}

#[test]
fn run_args_parse_without_run_subcommand() {
    let cli =
        Cli::try_parse_from(vec!["runme", "--block", "block-123"]).expect("parse implicit run options");
    assert!(cli.command.is_none());
    assert_eq!(cli.run.block.as_deref(), Some("block-123"));
}

#[test]
fn instantiate_builds_all_backends() {
    let docker_cfg = DockerConfig {
        image: Some("alpine:3.19".to_string()),
        extra_args: vec!["--cpus=1".to_string()],
    };
    let host = instantiate_sandbox(".".to_string(), SandboxChoice::Host, &docker_cfg, None);
    assert_eq!(host.label(), "host");

    let docker = instantiate_sandbox(".".to_string(), SandboxChoice::Docker, &docker_cfg.clone(), None);
    assert_eq!(docker.label(), "docker");

    let wasm = instantiate_sandbox(".".to_string(), SandboxChoice::Wasm, &docker_cfg, None);
    assert_eq!(wasm.label(), "wasm(host-fallback)");
}

#[test]
fn target_defaults_to_readme() {
    let cli = Cli::try_parse_from(vec!["runme"]).expect("parse empty");
    assert_eq!(cli.target, "README.md");
    assert!(cli.command.is_none());
    assert!(matches!(cli.run.format, ReportFormat::Human));
}

#[test]
fn positional_target_is_captured() {
    let cli = Cli::try_parse_from(vec!["runme", "docs/guide.md", "list"]).expect("parse target");
    assert_eq!(cli.target, "docs/guide.md");
    assert!(matches!(cli.command, Some(Command::List)));
}

#[test]
fn equals_form_flags_are_accepted() {
    let cli = Cli::try_parse_from(vec!["runme", "--sandbox=docker", "--format=json"]).expect("parse");
    assert_eq!(cli.sandbox, SandboxChoice::Docker);
    assert!(matches!(cli.run.format, ReportFormat::Json));
}

#[test]
fn run_subcommand_takes_its_own_options() {
    let cli =
        Cli::try_parse_from(vec!["runme", "run", "--block", "block-002"]).expect("parse run");
    match cli.command {
        Some(Command::Run(ref ra)) => {
            assert_eq!(ra.block.as_deref(), Some("block-002"));
            assert!(matches!(ra.format, ReportFormat::Human));
        }
        _ => panic!("expected the run subcommand"),
    }
}

#[test]
fn unknown_flag_is_rejected() {
    match Cli::try_parse_from(vec!["runme", "--bogus"]) {
        Err(CliError::UnknownFlag(f)) => assert_eq!(f, "--bogus"),
        _ => panic!("expected an unknown flag error"),
    }
}

#[test]
fn missing_value_is_rejected() {
    match Cli::try_parse_from(vec!["runme", "--sandbox"]) {
        Err(CliError::MissingValue(f)) => assert_eq!(f, "--sandbox"),
        _ => panic!("expected a missing value error"),
    }
}

#[test]
fn invalid_sandbox_value_is_rejected() {
    match Cli::try_parse_from(vec!["runme", "--sandbox", "qemu"]) {
        Err(CliError::InvalidValue(v)) => assert_eq!(v, "qemu"),
        _ => panic!("expected an invalid value error"),
    }
}

#[test]
fn arguments_after_list_are_rejected() {
    match Cli::try_parse_from(vec!["runme", "list", "extra"]) {
        Err(CliError::UnexpectedArg(a)) => assert_eq!(a, "extra"),
        _ => panic!("expected an unexpected argument error"),
    }
}

#[test]
fn last_flag_occurrence_wins() {
    let cli = Cli::try_parse_from(vec![
        "runme",
        "--sandbox",
        "docker",
        "--sandbox",
        "host",
    ])
    .expect("parse");
    assert_eq!(cli.sandbox, SandboxChoice::Host);
}
