use runme::markdown::{extract_blocks, CodeBlock};
use runme::runner::{
    execute, BlockStatus, CommandOutcome, CommandTranscript, EngineError, Sandbox, SpawnError,
};

/// Helper to craft a shell-ready block while keeping headings/context realistic.
fn shell_block(script: &str) -> CodeBlock {
    CodeBlock {
        id: "block-test".to_string(),
        name: None,
        headings: vec!["Tests".to_string()],
        language: Some("bash".to_string()),
        content: script.trim().to_string(),
        skip_reason: None,
    }
}

/// A deterministic scripted backend: it understands `echo` (prints its
/// arguments), `errcho` (prints to stderr), `false` (fails with exit code
/// 1), `missing` (cannot be spawned), and treats anything else as a quiet
/// success. It records every argv it was asked to run.
struct ScriptedSandbox {
    label: String,
    log: Vec<Vec<String>>,
}

impl ScriptedSandbox {
    fn new(label: &str) -> Self {
        ScriptedSandbox { label: label.to_string(), log: Vec::new() }
    }
}

impl Sandbox for ScriptedSandbox {
    fn label(&self) -> &str {
        self.label.as_str()
    }

    fn run(&mut self, argv: &Vec<String>) -> Result<CommandOutcome, SpawnError> {
        self.log.push(argv.clone());
        let program = argv[0].as_str();
        match program {
            "echo" => Ok(CommandOutcome {
                stdout: argv[1..].join(" "),
                stderr: String::new(),
                exit_code: Some(0),
                success: true,
                duration_ms: 3,
            }),
            "errcho" => Ok(CommandOutcome {
                stdout: String::new(),
                stderr: argv[1..].join(" "),
                exit_code: Some(0),
                success: true,
                duration_ms: 2,
            }),
            "false" => Ok(CommandOutcome {
                stdout: String::new(),
                stderr: String::new(),
                exit_code: Some(1),
                success: false,
                duration_ms: 1,
            }),
            "missing" => Err(SpawnError {
                label: self.label.clone(),
                binary: program.to_string(),
                message: "no such file or directory".to_string(),
            }),
            _ => Ok(CommandOutcome {
                stdout: String::new(),
                stderr: String::new(),
                exit_code: Some(0),
                success: true,
                duration_ms: 1,
            }),
        }
    }
}

fn host_sandbox() -> ScriptedSandbox {
    ScriptedSandbox::new("host")
}

#[test]
fn runner_respects_explicit_skip_metadata() {
    // Skipped blocks should never spawn processes, returning the stored reason verbatim.
    let mut block = shell_block("echo never runs");
    block.skip_reason = Some("user opted out".to_string());

    let mut sandbox = host_sandbox();
    let report = execute(&block, &mut sandbox).expect("skip handling should succeed without IO");

    assert!(matches!(report.status, BlockStatus::Skipped));
    assert_eq!(report.skip_reason.as_deref(), Some("user opted out"));
    assert!(sandbox.log.is_empty());
}

#[test]
fn runner_skips_unknown_languages() {
    // Unsupported languages should produce a skip report instead of running garbage commands.
    let block = CodeBlock {
        language: Some("python".to_string()),
        ..shell_block("print('hi')")
    };

    let mut sandbox = host_sandbox();
    let report =
        execute(&block, &mut sandbox).expect("unsupported languages still yield clean reports");

    assert!(matches!(report.status, BlockStatus::Skipped));
    assert!(report.skip_reason.as_deref().unwrap().contains("unsupported"));
}

#[test]
fn runner_records_successful_output() {
    // A simple echo proves we capture stdout and mark the block as passed.
    let block = shell_block("echo runner-ok");

    let mut sandbox = host_sandbox();
    let report = execute(&block, &mut sandbox).expect("echo should succeed on every platform");

    assert!(matches!(report.status, BlockStatus::Passed));
    let stdout = report.stdout.expect("stdout is captured");
    assert!(stdout.contains("runner-ok"));
    assert!(stdout.starts_with("$ echo"));
    assert_eq!(report.sandbox.as_deref(), Some("host"));
}

#[test]
fn runner_fails_fast_on_command_error() {
    // Once a command exits non-zero, we should surface the exit code and stop.
    let block = shell_block("false\necho never");

    let mut sandbox = host_sandbox();
    let report = execute(&block, &mut sandbox).expect("erroring commands still return a report");

    match report.status {
        BlockStatus::Failed { exit_code } => {
            assert_eq!(exit_code, Some(1));
        }
        other => panic!("unexpected status: {other:?}"),
    }
    assert!(report.stdout.is_none(), "execution stops before later lines");
    assert_eq!(report.sandbox.as_deref(), Some("host"));
    assert_eq!(sandbox.log.len(), 1, "the second line never runs");
}

#[test]
fn runner_skips_blocks_with_only_comments() {
    // Comment-only snippets should be treated as documentation, not runnable commands.
    let block = shell_block("# this is documentation");

    let mut sandbox = host_sandbox();
    let report = execute(&block, &mut sandbox).expect("comment-only block is a valid skip case");

    assert!(matches!(report.status, BlockStatus::Skipped));
    assert_eq!(
        report.skip_reason.as_deref(),
        Some("Block only had comments/blank lines")
    );
}

#[test]
fn mod_respects_explicit_skip_metadata() {
    let mut block = shell_block("echo never runs");
    block.skip_reason = Some("user opted out".to_string());

    let mut sandbox = host_sandbox();
    let report = execute(&block, &mut sandbox).expect("skip handling should succeed without IO");

    assert!(matches!(report.status, BlockStatus::Skipped));
    assert_eq!(report.skip_reason.as_deref(), Some("user opted out"));
}

#[test]
fn mod_skips_unknown_languages() {
    let block = CodeBlock {
        language: Some("python".to_string()),
        ..shell_block("print('hi')")
    };

    let mut sandbox = host_sandbox();
    let report =
        execute(&block, &mut sandbox).expect("unsupported languages still yield clean reports");

    assert!(matches!(report.status, BlockStatus::Skipped));
    assert!(report.skip_reason.as_deref().unwrap().contains("unsupported"));
}

#[test]
fn mod_records_successful_output() {
    let block = shell_block("echo runner-ok");

    let mut sandbox = host_sandbox();
    let report = execute(&block, &mut sandbox).expect("echo should succeed on every platform");

    assert!(matches!(report.status, BlockStatus::Passed));
    let stdout = report.stdout.expect("stdout is captured");
    assert!(stdout.contains("runner-ok"));
    assert!(stdout.starts_with("$ echo"));
    assert_eq!(report.sandbox.as_deref(), Some("host"));
}

#[test]
fn mod_fails_fast_on_command_error() {
    let block = shell_block("false\necho never");

    let mut sandbox = host_sandbox();
    let report = execute(&block, &mut sandbox).expect("erroring commands still return a report");

    match report.status {
        BlockStatus::Failed { exit_code } => {
            assert_eq!(exit_code, Some(1));
        }
        other => panic!("unexpected status: {other:?}"),
    }
    assert!(report.stdout.is_none(), "execution stops before later lines");
    assert_eq!(report.sandbox.as_deref(), Some("host"));
}

#[test]
fn mod_skips_blocks_with_only_comments() {
    let block = shell_block("# this is documentation");

    let mut sandbox = host_sandbox();
    let report = execute(&block, &mut sandbox).expect("comment-only block is a valid skip case");

    assert!(matches!(report.status, BlockStatus::Skipped));
    assert_eq!(
        report.skip_reason.as_deref(),
        Some("Block only had comments/blank lines")
    );
}

#[test]
fn unsupported_language_message_is_exact() {
    let block = CodeBlock {
        language: Some("python".to_string()),
        ..shell_block("print('hi')")
    };
    let mut sandbox = host_sandbox();
    let report = execute(&block, &mut sandbox).expect("skip");
    assert_eq!(
        report.skip_reason.as_deref(),
        Some("Language 'python' unsupported yet; add a plugin")
    );
}

#[test]
fn explicit_skip_beats_unsupported_language() {
    // Skip precedence: the directive wins even over an unsupported language.
    let mut block = CodeBlock {
        language: Some("python".to_string()),
        ..shell_block("")
    };
    block.skip_reason = Some("told to skip".to_string());
    let mut sandbox = host_sandbox();
    let report = execute(&block, &mut sandbox).expect("skip");
    assert_eq!(report.skip_reason.as_deref(), Some("told to skip"));
}

#[test]
fn unsupported_language_beats_empty_content() {
    let block = CodeBlock {
        language: Some("python".to_string()),
        ..shell_block("")
    };
    let mut sandbox = host_sandbox();
    let report = execute(&block, &mut sandbox).expect("skip");
    assert_eq!(
        report.skip_reason.as_deref(),
        Some("Language 'python' unsupported yet; add a plugin")
    );
}

#[test]
fn empty_content_beats_comment_only() {
    let block = shell_block("   \n  ");
    let mut sandbox = host_sandbox();
    let report = execute(&block, &mut sandbox).expect("skip");
    assert_eq!(
        report.skip_reason.as_deref(),
        Some("Block empty; nothing to execute")
    );
}

#[test]
fn scenario_untagged_make_test_runs() {
    let doc = "\n```\nmake test\n```\n";
    let blocks = extract_blocks(doc).expect("parse");
    assert_eq!(blocks.len(), 1);
    let mut sandbox = host_sandbox();
    let report = execute(&blocks[0], &mut sandbox).expect("run");
    assert!(matches!(report.status, BlockStatus::Passed));
    assert_eq!(sandbox.log, vec![vec!["make".to_string(), "test".to_string()]]);
}

#[test]
fn scenario_ignored_block_never_runs() {
    let doc = "\n```bash runme:name=setup runme:ignore\necho hi\n```\n";
    let blocks = extract_blocks(doc).expect("parse");
    let mut sandbox = host_sandbox();
    let report = execute(&blocks[0], &mut sandbox).expect("skip");
    assert!(matches!(report.status, BlockStatus::Skipped));
    assert!(sandbox.log.is_empty());
}

#[test]
fn scenario_failing_block_on_another_backend() {
    // `false` then `echo never` fails with exit code 1 on any backend.
    let block = shell_block("false\necho never");
    let mut sandbox = ScriptedSandbox::new("docker");
    let report = execute(&block, &mut sandbox).expect("report");
    match report.status {
        BlockStatus::Failed { exit_code } => assert_eq!(exit_code, Some(1)),
        other => panic!("unexpected status: {other:?}"),
    }
    assert!(report.stdout.is_none());
    assert!(report.stderr.is_none());
    assert_eq!(report.sandbox.as_deref(), Some("docker"));
}

#[test]
fn transcript_has_one_segment_per_printing_command() {
    // Round trip: splitting the stdout transcript at the `$ ` prompts
    // recovers exactly one segment per executed command with output.
    let block = shell_block("echo one\nquiet\necho two");
    let mut sandbox = host_sandbox();
    let report = execute(&block, &mut sandbox).expect("run");
    assert!(matches!(report.status, BlockStatus::Passed));
    let stdout = report.stdout.expect("stdout");
    assert_eq!(stdout, "$ echo one\none\n$ echo two\ntwo");
    assert_eq!(stdout.matches("$ ").count(), 2);
    assert_eq!(sandbox.log.len(), 3);
}

#[test]
fn stderr_is_collected_separately() {
    let block = shell_block("errcho oops");
    let mut sandbox = host_sandbox();
    let report = execute(&block, &mut sandbox).expect("run");
    assert!(matches!(report.status, BlockStatus::Passed));
    assert!(report.stdout.is_none());
    assert_eq!(report.stderr.as_deref(), Some("$ errcho oops\noops"));
}

#[test]
fn durations_accumulate() {
    let block = shell_block("echo a\nerrcho b");
    let mut sandbox = host_sandbox();
    let report = execute(&block, &mut sandbox).expect("run");
    assert_eq!(report.duration_ms, 5);
}

#[test]
fn unbalanced_quoting_is_a_hard_error() {
    let block = shell_block("echo \"unclosed");
    let mut sandbox = host_sandbox();
    match execute(&block, &mut sandbox) {
        Err(EngineError::Parse { line }) => assert_eq!(line, 1),
        _ => panic!("expected a parse error"),
    }
}

#[test]
fn parse_error_reports_the_offending_line() {
    let block = shell_block("echo fine\necho 'bad");
    let mut sandbox = host_sandbox();
    match execute(&block, &mut sandbox) {
        Err(EngineError::Parse { line }) => assert_eq!(line, 2),
        _ => panic!("expected a parse error"),
    }
}

#[test]
fn spawn_failure_aborts_with_context() {
    let block = shell_block("missing binary");
    let mut sandbox = host_sandbox();
    match execute(&block, &mut sandbox) {
        Err(EngineError::Spawn { line, error }) => {
            assert_eq!(line, 1);
            assert_eq!(error.binary, "missing");
            assert_eq!(error.label, "host");
        }
        _ => panic!("expected a spawn error"),
    }
}

#[test]
fn quoted_arguments_are_split_by_shell_rules() {
    // Would fail if word splitting ignored quoting.
    let block = shell_block("echo \"a b\" c");
    let mut sandbox = host_sandbox();
    let report = execute(&block, &mut sandbox).expect("run");
    assert!(matches!(report.status, BlockStatus::Passed));
    assert_eq!(
        sandbox.log,
        vec![vec!["echo".to_string(), "a b".to_string(), "c".to_string()]]
    );
}

#[test]
fn transcript_builder_prefixes_first_chunk() {
    let mut t = CommandTranscript::new("echo hi");
    assert!(t.stdout.is_none());
    let first = t.append_stdout("hi");
    assert!(first);
    assert_eq!(t.stdout.as_deref(), Some("$ echo hi\nhi\n"));
    let again = t.append_stdout("more");
    assert!(!again);
    assert_eq!(t.stdout.as_deref(), Some("$ echo hi\nhi\nmore\n"));
    assert!(!t.append_stdout(""));
    assert_eq!(t.stdout.as_deref(), Some("$ echo hi\nhi\nmore\n"));
    assert!(t.stderr.is_none());
    let err_first = t.append_stderr("oops");
    assert!(err_first);
    assert_eq!(t.stderr.as_deref(), Some("$ echo hi\noops\n"));
}

#[test]
fn find_block_by_id_and_name() {
    let doc = "\
```bash runme:name=setup
echo a
```

```bash
echo b
```
";
    let blocks = extract_blocks(doc).expect("parse");
    assert_eq!(runme::runner::find_block(&blocks, "block-002"), Some(1));
    assert_eq!(runme::runner::find_block(&blocks, "setup"), Some(0));
    assert_eq!(runme::runner::find_block(&blocks, "absent"), None);
}

#[test]
fn display_label_shows_name() {
    assert_eq!(
        runme::runner::display_label("block-001", &Some("setup".to_string())),
        "block-001 (setup)"
    );
    assert_eq!(runme::runner::display_label("block-002", &None), "block-002");
}

#[test]
fn with_duration_replaces_only_the_duration() {
    let s = runme::runner::CommandStatus {
        exit_code: Some(0),
        success: true,
        duration_ms: 1,
    };
    let s2 = s.with_duration(42);
    assert_eq!(s2.duration_ms, 42);
    assert_eq!(s2.exit_code, Some(0));
    assert!(s2.success);
}
