//! Block execution: turns a parsed code block and a sandbox backend into a
//! pass/fail/skip report.
//!
//! The engine itself is verified: skip decisions, line classification,
//! transcript assembly and fail-fast truncation are all specified by a pure
//! model (`run_model`) over the block and the sequence of command outcomes
//! the backend returned. Only the backend's `run` is outside the model: its
//! outcome depends on the world, so the engine's contract holds for every
//! outcome sequence.

use crate::markdown::os;
use crate::markdown::strings_abs;
use crate::markdown::BlockAbs;
use crate::markdown::CodeBlock;
use crate::text::chars_to_string;
use crate::text::lines_chars;
use crate::text::lines_spec;
use crate::text::starts_with_spec;
use crate::text::str_to_chars;
use crate::text::trim_chars;
use crate::text::trim_spec;
use vstd::prelude::*;

verus! {

/// Terminal status of one block.
#[derive(Clone, Debug)]
pub enum BlockStatus {
    Passed,
    Failed { exit_code: Option<i32> },
    Skipped,
}

/// Execution result of a single command, as a sandbox backend reports it.
#[derive(Clone, Debug)]
pub struct CommandOutcome {
    /// Normalized standard output text.
    pub stdout: String,
    /// Normalized standard error text.
    pub stderr: String,
    /// The process exit code, when the platform reports one.
    pub exit_code: Option<i32>,
    /// Whether the process exited successfully.
    pub success: bool,
    /// Wall-clock duration of the command in milliseconds.
    pub duration_ms: u64,
}

/// The spec-level counterpart of `CommandOutcome`.
pub struct OutcomeAbs {
    pub stdout: Seq<char>,
    pub stderr: Seq<char>,
    pub exit_code: Option<i32>,
    pub success: bool,
    pub duration_ms: u64,
}

impl View for CommandOutcome {
    type V = OutcomeAbs;

    open spec fn view(&self) -> OutcomeAbs {
        OutcomeAbs {
            stdout: self.stdout@,
            stderr: self.stderr@,
            exit_code: self.exit_code,
            success: self.success,
            duration_ms: self.duration_ms,
        }
    }
}

/// Minimal status metadata returned after a sandboxed command exits.
#[derive(Clone, Debug)]
pub struct CommandStatus {
    pub exit_code: Option<i32>,
    pub success: bool,
    pub duration_ms: u64,
}

impl CommandStatus {
    /// The same status with the duration replaced by a caller-side
    /// measurement.
    pub fn with_duration(self, duration_ms: u64) -> (r: CommandStatus)
        ensures
            r.exit_code == self.exit_code,
            r.success == self.success,
            r.duration_ms == duration_ms,
    {
        CommandStatus { duration_ms, ..self }
    }
}

/// Why a command could not be started.
#[derive(Clone, Debug)]
pub struct SpawnError {
    /// The label of the backend that attempted the spawn.
    pub label: String,
    /// The program that could not be started.
    pub binary: String,
    /// The underlying error text.
    pub message: String,
}

/// A hard failure while executing a block; these abort the whole run.
#[derive(Clone, Debug)]
pub enum EngineError {
    /// A content line could not be word-split (1-based line number).
    Parse { line: usize },
    /// The backend could not start the command at the given 1-based line.
    Spawn { line: usize, error: SpawnError },
}

/// Low-level hook that sandboxes use to stream stdout/stderr chunks back to
/// the runner as they arrive.
pub trait OutputSink {
    fn on_stdout(&mut self, chunk: &str);

    fn on_stderr(&mut self, chunk: &str);
}

/// Trait implemented by every sandbox backend (host, container, wasm, ...).
/// Nothing is promised of `run`'s outcome: it depends on the world, and the
/// engine's contract therefore holds for every outcome the backend returns.
pub trait Sandbox {
    /// Short label surfaced in reports, e.g. `host` or `docker`.
    fn label(&self) -> &str;

    /// Run a parsed argv vector inside the sandbox environment.
    fn run(&mut self, argv: &Vec<String>) -> Result<CommandOutcome, SpawnError>;
}

/// Report of one block's execution.
#[derive(Clone, Debug)]
pub struct BlockReport {
    pub id: String,
    pub name: Option<String>,
    pub headings: Vec<String>,
    pub language: Option<String>,
    pub sandbox: Option<String>,
    pub duration_ms: u128,
    pub status: BlockStatus,
    pub skip_reason: Option<String>,
    pub stdout: Option<String>,
    pub stderr: Option<String>,
}

/// The spec-level counterpart of `BlockReport`.
pub struct ReportAbs {
    pub id: Seq<char>,
    pub name: Option<Seq<char>>,
    pub headings: Seq<Seq<char>>,
    pub language: Option<Seq<char>>,
    pub sandbox: Option<Seq<char>>,
    pub duration_ms: nat,
    pub status: BlockStatus,
    pub skip_reason: Option<Seq<char>>,
    pub stdout: Option<Seq<char>>,
    pub stderr: Option<Seq<char>>,
}

impl View for BlockReport {
    type V = ReportAbs;

    open spec fn view(&self) -> ReportAbs {
        ReportAbs {
            id: self.id@,
            name: os(self.name),
            headings: strings_abs(self.headings@),
            language: os(self.language),
            sandbox: os(self.sandbox),
            duration_ms: self.duration_ms as nat,
            status: self.status,
            skip_reason: os(self.skip_reason),
            stdout: os(self.stdout),
            stderr: os(self.stderr),
        }
    }
}

/// The report of a block that is skipped before any execution.
pub open spec fn skip_report_abs(b: BlockAbs, reason: Seq<char>) -> ReportAbs {
    ReportAbs {
        id: b.id,
        name: b.name,
        headings: b.headings,
        language: b.language,
        sandbox: None,
        duration_ms: 0,
        status: BlockStatus::Skipped,
        skip_reason: Some(reason),
        stdout: None,
        stderr: None,
    }
}

fn clone_opt_string(o: &Option<String>) -> (r: Option<String>)
    ensures
        os(r) == os(*o),
{
    match o {
        None => None,
        Some(s) => Some(s.clone()),
    }
}

fn clone_strings(v: &Vec<String>) -> (r: Vec<String>)
    ensures
        strings_abs(r@) == strings_abs(v@),
{
    let mut r: Vec<String> = Vec::new();
    let mut i: usize = 0;
    while i < v.len()
        invariant
            0 <= i <= v@.len(),
            strings_abs(r@) =~= strings_abs(v@.take(i as int)),
        decreases v@.len() - i,
    {
        let ghost pre = strings_abs(r@);
        r.push(v[i].clone());
        assert(strings_abs(r@) =~= pre.push(v@[i as int]@));
        assert(strings_abs(v@.take(i + 1)) =~= pre.push(v@[i as int]@));
        i += 1;
    }
    assert(v@.take(v@.len() as int) =~= v@);
    assert(strings_abs(r@) =~= strings_abs(v@));
    r
}

impl BlockReport {
    /// The skip report for `block`, per `skip_report_abs`.
    pub fn from_skip(block: &CodeBlock, reason: String) -> (r: BlockReport)
        ensures
            r@ == skip_report_abs(block@, reason@),
    {
        BlockReport {
            id: block.id.clone(),
            name: clone_opt_string(&block.name),
            headings: clone_strings(&block.headings),
            language: clone_opt_string(&block.language),
            sandbox: None,
            duration_ms: 0,
            status: BlockStatus::Skipped,
            skip_reason: Some(reason),
            stdout: None,
            stderr: None,
        }
    }
}

/// The word splitting that POSIX-shell-style parsing assigns to a command
/// line — quoting and escaping, not full shell semantics — or `None` when
/// the line cannot be split; a function of the line alone.
pub uninterp spec fn shell_words(line: Seq<char>) -> Option<Seq<Seq<char>>>;

/// Relies on `shlex::split`: splits a command line into words under shell
/// quoting/escaping rules, returning `None` exactly on erroneous input (an
/// unterminated quotation, or a trailing unescaped backslash).
#[verifier::external_body]
fn shlex_split(line: &str) -> (r: Option<Vec<String>>)
    ensures
        match r {
            Some(v) => shell_words(line@) == Some(strings_abs(v@)),
            None => shell_words(line@) is None,
        },
{
    shlex::split(line)
}

/// What the engine finds at one content line: nothing runnable (blank,
/// `#`-comment, or splits to zero words), a command, or a word-split
/// failure.
pub enum LineAction {
    Inert,
    Cmd(Seq<char>, Seq<Seq<char>>),
    Bad,
}

pub open spec fn line_action(line: Seq<char>) -> LineAction {
    let t = trim_spec(line);
    if t.len() == 0 || t[0] == '#' {
        LineAction::Inert
    } else {
        match shell_words(t) {
            None => LineAction::Bad,
            Some(args) => if args.len() == 0 {
                LineAction::Inert
            } else {
                LineAction::Cmd(t, args)
            },
        }
    }
}

/// One command's transcript chunk: the source line under a `$ ` prompt,
/// then the command's output text.
pub open spec fn chunk_of(t: Seq<char>, text: Seq<char>) -> Seq<char> {
    "$ "@ + t + "\n"@ + text
}

/// The engine's running accumulator: how many commands were executed, the
/// per-command transcript chunks, the summed duration, and the status so
/// far.
pub struct EngineAcc {
    pub executed: int,
    pub stdout_chunks: Seq<Seq<char>>,
    pub stderr_chunks: Seq<Seq<char>>,
    pub total_ms: nat,
    pub status: BlockStatus,
}

pub open spec fn acc_init() -> EngineAcc {
    EngineAcc {
        executed: 0,
        stdout_chunks: Seq::empty(),
        stderr_chunks: Seq::empty(),
        total_ms: 0,
        status: BlockStatus::Passed,
    }
}

/// How one executed command extends the accumulator: a transcript chunk per
/// non-empty stream, the duration added, and a failure recorded from the
/// outcome's exit code.
pub open spec fn acc_step(acc: EngineAcc, t: Seq<char>, o: OutcomeAbs) -> EngineAcc {
    EngineAcc {
        executed: acc.executed + 1,
        stdout_chunks: if o.stdout.len() > 0 {
            acc.stdout_chunks.push(chunk_of(t, o.stdout))
        } else {
            acc.stdout_chunks
        },
        stderr_chunks: if o.stderr.len() > 0 {
            acc.stderr_chunks.push(chunk_of(t, o.stderr))
        } else {
            acc.stderr_chunks
        },
        total_ms: (acc.total_ms + o.duration_ms) as nat,
        status: if o.success {
            acc.status
        } else {
            BlockStatus::Failed { exit_code: o.exit_code }
        },
    }
}

/// Where a run of the engine's line loop can end: all lines processed or a
/// failure stopped it (`Done`), a word-split failure at a 1-based line
/// (`Bad`), or more commands than supplied outcomes (`Pending`, carrying
/// the 1-based line of the first command the outcomes do not cover).
pub enum RunEnd {
    Done(EngineAcc),
    Bad(int),
    Pending(int, EngineAcc),
}

/// The engine's line loop: lines are classified in order; inert lines are
/// passed over; a bad line aborts with its 1-based number; each command
/// consumes the next outcome, and a failing outcome ends the block at once
/// — later lines are never reached.
pub open spec fn run_lines(
    lines: Seq<Seq<char>>,
    i: int,
    outs: Seq<OutcomeAbs>,
    acc: EngineAcc,
) -> RunEnd
    decreases lines.len() - i when 0 <= i <= lines.len()
{
    if i >= lines.len() {
        RunEnd::Done(acc)
    } else {
        match line_action(lines[i]) {
            LineAction::Inert => run_lines(lines, i + 1, outs, acc),
            LineAction::Bad => RunEnd::Bad(i + 1),
            LineAction::Cmd(t, args) => {
                if acc.executed < 0 || acc.executed >= outs.len() {
                    RunEnd::Pending(i + 1, acc)
                } else {
                    let o = outs[acc.executed];
                    let acc2 = acc_step(acc, t, o);
                    if o.success {
                        run_lines(lines, i + 1, outs, acc2)
                    } else {
                        RunEnd::Done(acc2)
                    }
                }
            },
        }
    }
}

/// The transcript chunks joined with single newlines.
pub open spec fn join_chunks(chunks: Seq<Seq<char>>) -> Seq<char>
    decreases chunks.len(),
{
    if chunks.len() == 0 {
        Seq::empty()
    } else if chunks.len() == 1 {
        chunks[0]
    } else {
        join_chunks(chunks.drop_last()) + "\n"@ + chunks.last()
    }
}

/// A transcript is reported only when it has at least one chunk.
pub open spec fn opt_text(chunks: Seq<Seq<char>>) -> Option<Seq<char>> {
    if chunks.len() == 0 {
        None
    } else {
        Some(join_chunks(chunks))
    }
}

/// The skip reason for a block whose language is not executed.
pub open spec fn unsupported_reason(language: Option<Seq<char>>) -> Seq<char> {
    "Language '"@ + (match language {
        Some(l) => l,
        None => "shell"@,
    }) + "' unsupported yet; add a plugin"@
}

/// The skip decision taken before any execution, checked in this order: an
/// explicit skip directive, then an unsupported language, then empty
/// content.
pub open spec fn skip_decision(b: BlockAbs) -> Option<Seq<char>> {
    if b.skip_reason is Some {
        b.skip_reason
    } else if !crate::markdown::is_shell_abs(b) {
        Some(unsupported_reason(b.language))
    } else if trim_spec(b.content).len() == 0 {
        Some("Block empty; nothing to execute"@)
    } else {
        None
    }
}

/// What executing a block yields, as a function of the block, the backend's
/// label, and the outcomes the backend returned.
pub enum ModelResult {
    Report(ReportAbs),
    ParseFail(int),
    Pending,
}

/// The whole engine model: a pre-execution skip when one applies; otherwise
/// the line loop runs, and a block whose every line was inert is skipped,
/// while an executed block reports its accumulated status, duration and
/// transcripts under the backend's label.
pub open spec fn run_model(b: BlockAbs, label: Seq<char>, outs: Seq<OutcomeAbs>) -> ModelResult {
    match skip_decision(b) {
        Some(reason) => ModelResult::Report(skip_report_abs(b, reason)),
        None => match run_lines(lines_spec(b.content), 0, outs, acc_init()) {
            RunEnd::Bad(line) => ModelResult::ParseFail(line),
            RunEnd::Pending(_, _) => ModelResult::Pending,
            RunEnd::Done(acc) => ModelResult::Report(
                if acc.executed == 0 {
                    skip_report_abs(b, "Block only had comments/blank lines"@)
                } else {
                    ReportAbs {
                        id: b.id,
                        name: b.name,
                        headings: b.headings,
                        language: b.language,
                        sandbox: Some(label),
                        duration_ms: acc.total_ms,
                        status: acc.status,
                        skip_reason: None,
                        stdout: opt_text(acc.stdout_chunks),
                        stderr: opt_text(acc.stderr_chunks),
                    }
                },
            ),
        },
    }
}

/// Whether the engine, handed exactly these outcomes, stops at 1-based
/// `line` awaiting the next command's outcome: `line` holds the first
/// command the supplied outcomes do not cover. A backend spawn failure can
/// only be reported at such a line.
pub open spec fn stops_pending_at(b: BlockAbs, outs: Seq<OutcomeAbs>, line: int) -> bool {
    match run_lines(lines_spec(b.content), 0, outs, acc_init()) {
        RunEnd::Pending(l, _) => l == line,
        _ => false,
    }
}

/// Whether some outcome sequence makes the engine's line loop stop at
/// 1-based `line`, awaiting that command's outcome: `line` is a reachable
/// command line of the block.
pub open spec fn some_run_stops_at(b: BlockAbs, line: int) -> bool {
    exists|outs: Seq<OutcomeAbs>| stops_pending_at(b, outs, line)
}

/// The engine's promise about a backend spawn failure: it can only be
/// reported with the 1-based line of a command the engine actually reached.
/// A block with no reachable command line (comment-only content, or a
/// word-split failure on an earlier line) can therefore never yield one.
pub open spec fn spawn_error_reaches_line(b: BlockAbs, r: Result<BlockReport, EngineError>) -> bool {
    match r {
        Err(EngineError::Spawn { line, .. }) => skip_decision(b) is None && some_run_stops_at(
            b,
            line as int,
        ),
        _ => true,
    }
}

/// A `String` holding exactly the characters of `s`.
pub fn lit_string(s: &str) -> (r: String)
    ensures
        r@ == s@,
{
    chars_to_string(&str_to_chars(s))
}

/// The views of a vector of character vectors.
pub open spec fn chars_vs(v: Seq<Vec<char>>) -> Seq<Seq<char>> {
    v.map_values(|c: Vec<char>| c@)
}

fn join_chunks_exec(chunks: &Vec<Vec<char>>) -> (r: Vec<char>)
    requires
        chunks@.len() > 0,
    ensures
        r@ == join_chunks(chars_vs(chunks@)),
{
    proof {
        reveal_strlit("\n");
    }
    let mut r = crate::text::clone_chars(&chunks[0]);
    assert(chars_vs(chunks@.take(1))[0] == chunks@[0]@);
    assert(r@ == join_chunks(chars_vs(chunks@.take(1))));
    let mut i: usize = 1;
    while i < chunks.len()
        invariant
            1 <= i <= chunks@.len(),
            r@ == join_chunks(chars_vs(chunks@.take(i as int))),
        decreases chunks@.len() - i,
    {
        proof {
            reveal_strlit("\n");
        }
        r.push('\n');
        crate::text::append_chars(&mut r, &chunks[i]);
        proof {
            let cv = chars_vs(chunks@.take(i + 1));
            assert(cv.drop_last() =~= chars_vs(chunks@.take(i as int)));
            assert(cv.last() == chunks@[i as int]@);
            assert(r@ =~= join_chunks(cv));
        }
        i += 1;
    }
    assert(chunks@.take(chunks@.len() as int) =~= chunks@);
    r
}

/// Executes a parsed code block against a sandbox backend.
///
/// Every result is pinned by `run_model` over the outcome sequence the
/// backend produced: skip decisions are exact and involve no execution;
/// otherwise the content lines run in order, fail-fast, and the report
/// carries the accumulated status, duration and transcripts under the
/// backend's label. A spawn failure aborts with the failing line, and only
/// at a command line the engine can actually reach
/// (`spawn_error_reaches_line`) — so a block without a reachable command
/// (comment-only content) is always reported `Ok` with its skip report, and
/// a block whose first runnable line cannot be word-split always aborts
/// with that parse error.
pub fn execute<S: Sandbox>(block: &CodeBlock, sandbox: &mut S) -> (r: Result<
    BlockReport,
    EngineError,
>)
    ensures
        (match skip_decision(block@) {
            Some(reason) => r matches Ok(rep) && rep@ == skip_report_abs(block@, reason),
            None => true,
        }),
        r matches Ok(rep) ==> exists|label: Seq<char>, outs: Seq<OutcomeAbs>|
            run_model(block@, label, outs) == ModelResult::Report(rep@),
        r matches Err(EngineError::Parse { line }) ==> skip_decision(block@) is None && exists|
            label: Seq<char>,
            outs: Seq<OutcomeAbs>,
        | run_model(block@, label, outs) == ModelResult::ParseFail(line as int),
        spawn_error_reaches_line(block@, r),
{
    if let Some(reason) = &block.skip_reason {
        let rep = BlockReport::from_skip(block, reason.clone());
        proof {
            let w: Seq<char> = Seq::empty();
            let wo: Seq<OutcomeAbs> = Seq::empty();
            assert(run_model(block@, w, wo) == ModelResult::Report(rep@));
        }
        return Ok(rep);
    }
    if !block.is_shell() {
        let mut msg = str_to_chars("Language '");
        let lang_part = match &block.language {
            Some(l) => str_to_chars(l.as_str()),
            None => str_to_chars("shell"),
        };
        crate::text::append_chars(&mut msg, &lang_part);
        crate::text::append_chars(&mut msg, &str_to_chars("' unsupported yet; add a plugin"));
        assert(msg@ == unsupported_reason(block@.language));
        let rep = BlockReport::from_skip(block, chars_to_string(&msg));
        proof {
            let w: Seq<char> = Seq::empty();
            let wo: Seq<OutcomeAbs> = Seq::empty();
            assert(run_model(block@, w, wo) == ModelResult::Report(rep@));
        }
        return Ok(rep);
    }
    let content = str_to_chars(block.content.as_str());
    let trimmed = trim_chars(&content);
    if trimmed.len() == 0 {
        let rep = BlockReport::from_skip(block, lit_string("Block empty; nothing to execute"));
        proof {
            let w: Seq<char> = Seq::empty();
            let wo: Seq<OutcomeAbs> = Seq::empty();
            assert(run_model(block@, w, wo) == ModelResult::Report(rep@));
        }
        return Ok(rep);
    }
    let label = lit_string(sandbox.label());
    let ghost label_s: Seq<char> = label@;
    let lines = lines_chars(&content);
    let ghost lines_abs: Seq<Seq<char>> = lines_spec(block@.content);
    proof {
        assert(lines.deep_view() == lines_abs);
    }
    let n = lines.len();
    let mut out_chunks: Vec<Vec<char>> = Vec::new();
    let mut err_chunks: Vec<Vec<char>> = Vec::new();
    let mut total: u128 = 0;
    let mut executed: usize = 0;
    let mut status = BlockStatus::Passed;
    let mut failed = false;
    let ghost mut outs_g: Seq<OutcomeAbs> = Seq::empty();
    let ghost mut acc_g: EngineAcc = acc_init();
    let mut li: usize = 0;
    proof {
        assert(chars_vs(out_chunks@) =~= Seq::<Seq<char>>::empty());
        assert(chars_vs(err_chunks@) =~= Seq::<Seq<char>>::empty());
    }
    while li < n && !failed
        invariant
            0 <= li <= n,
            n == lines@.len(),
            skip_decision(block@) is None,
            lines_abs == lines_spec(block@.content),
            label_s == label@,
            lines.deep_view() == lines_abs,
            executed <= li,
            acc_g.executed == executed as int,
            acc_g.executed == outs_g.len(),
            acc_g.stdout_chunks == chars_vs(out_chunks@),
            acc_g.stderr_chunks == chars_vs(err_chunks@),
            acc_g.total_ms == total as nat,
            acc_g.status == status,
            acc_g.total_ms <= acc_g.executed * 0xffff_ffff_ffff_ffffu64,
            !failed ==> status is Passed,
            failed ==> status is Failed,
            !failed ==> forall|rest: Seq<OutcomeAbs>|
                #[trigger] run_lines(lines_abs, li as int, outs_g + rest, acc_g) == run_lines(
                    lines_abs,
                    0,
                    outs_g + rest,
                    acc_init(),
                ),
            failed ==> forall|rest: Seq<OutcomeAbs>|
                #[trigger] run_lines(lines_abs, 0, outs_g + rest, acc_init()) == RunEnd::Done(
                    acc_g,
                ),
        decreases n - li,
    {
        let ghost line_s: Seq<char> = lines_abs[li as int];
        proof {
            assert(lines.deep_view()[li as int] == lines@[li as int].deep_view());
            assert(lines@[li as int].deep_view() =~= lines@[li as int]@);
        }
        let line = &lines[li];
        assert(line@ == line_s);
        let t = trim_chars(line);
        if t.len() == 0 || t[0] == '#' {
            assert(line_action(line_s) is Inert);
            assert forall|rest: Seq<OutcomeAbs>|
                #[trigger] run_lines(lines_abs, li + 1, outs_g + rest, acc_g) == run_lines(
                    lines_abs,
                    0,
                    outs_g + rest,
                    acc_init(),
                ) by {
                assert(run_lines(lines_abs, li as int, outs_g + rest, acc_g) == run_lines(
                    lines_abs,
                    li + 1,
                    outs_g + rest,
                    acc_g,
                ));
            }
            li += 1;
        } else {
            let t_str = chars_to_string(&t);
            match shlex_split(t_str.as_str()) {
                None => {
                    assert(line_action(line_s) is Bad);
                    proof {
                        let empty_rest: Seq<OutcomeAbs> = Seq::empty();
                        assert(outs_g + empty_rest =~= outs_g);
                        assert(run_lines(lines_abs, li as int, outs_g, acc_g) == RunEnd::Bad(
                            li + 1,
                        ));
                        assert(run_model(block@, label_s, outs_g) == ModelResult::ParseFail(
                            li + 1,
                        ));
                    }
                    return Err(EngineError::Parse { line: li + 1 });
                },
                Some(args) => {
                    if args.len() == 0 {
                        assert(line_action(line_s) is Inert);
                        assert forall|rest: Seq<OutcomeAbs>|
                            #[trigger] run_lines(lines_abs, li + 1, outs_g + rest, acc_g)
                                == run_lines(lines_abs, 0, outs_g + rest, acc_init()) by {
                            assert(run_lines(lines_abs, li as int, outs_g + rest, acc_g)
                                == run_lines(lines_abs, li + 1, outs_g + rest, acc_g));
                        }
                        li += 1;
                    } else {
                        assert(line_action(line_s) == LineAction::Cmd(t@, strings_abs(args@)));
                        let outcome = match sandbox.run(&args) {
                            Ok(o) => o,
                            Err(e) => {
                                let next_line = li + 1;
                                proof {
                                    let empty_rest: Seq<OutcomeAbs> = Seq::empty();
                                    assert(outs_g + empty_rest =~= outs_g);
                                    assert(run_lines(lines_abs, li as int, outs_g + empty_rest, acc_g)
                                        == run_lines(lines_abs, 0, outs_g + empty_rest, acc_init()));
                                    assert(run_lines(lines_abs, li as int, outs_g, acc_g)
                                        == RunEnd::Pending(li as int + 1, acc_g));
                                    assert(stops_pending_at(block@, outs_g, next_line as int));
                                    assert(some_run_stops_at(block@, next_line as int));
                                }
                                return Err(EngineError::Spawn { line: next_line, error: e });
                            },
                        };
                        proof {
                            reveal_strlit("\n");
                        }
                        if !outcome.stdout.as_str().is_empty() {
                            let mut chunk = str_to_chars("$ ");
                            crate::text::append_chars(&mut chunk, &t);
                            chunk.push('\n');
                            crate::text::append_chars(
                                &mut chunk,
                                &str_to_chars(outcome.stdout.as_str()),
                            );
                            assert(chunk@ =~= chunk_of(t@, outcome@.stdout));
                            let ghost pre = chars_vs(out_chunks@);
                            out_chunks.push(chunk);
                            assert(chars_vs(out_chunks@) =~= pre.push(chunk_of(
                                t@,
                                outcome@.stdout,
                            )));
                        }
                        if !outcome.stderr.as_str().is_empty() {
                            let mut chunk = str_to_chars("$ ");
                            crate::text::append_chars(&mut chunk, &t);
                            chunk.push('\n');
                            crate::text::append_chars(
                                &mut chunk,
                                &str_to_chars(outcome.stderr.as_str()),
                            );
                            assert(chunk@ =~= chunk_of(t@, outcome@.stderr));
                            let ghost pre = chars_vs(err_chunks@);
                            err_chunks.push(chunk);
                            assert(chars_vs(err_chunks@) =~= pre.push(chunk_of(
                                t@,
                                outcome@.stderr,
                            )));
                        }
                        proof {
                            assert(executed as int * 0xffff_ffff_ffff_ffffu64 + 0xffff_ffff_ffff_ffffu64
                                == (executed as int + 1) * 0xffff_ffff_ffff_ffffu64) by (nonlinear_arith);
                            assert((executed as int + 1) <= 0x1_0000_0000_0000_0000);
                            assert((executed as int + 1) * 0xffff_ffff_ffff_ffffu64
                                <= 0x1_0000_0000_0000_0000 * 0xffff_ffff_ffff_ffffu64) by (nonlinear_arith);
                        }
                        total = total + (outcome.duration_ms as u128);
                        executed = executed + 1;
                        let ghost old_outs = outs_g;
                        let ghost old_acc = acc_g;
                        proof {
                            outs_g = outs_g.push(outcome@);
                            acc_g = acc_step(old_acc, t@, outcome@);
                        }
                        if !outcome.success {
                            status = BlockStatus::Failed { exit_code: outcome.exit_code };
                            failed = true;
                            assert forall|rest: Seq<OutcomeAbs>|
                                #[trigger] run_lines(lines_abs, 0, outs_g + rest, acc_init())
                                    == RunEnd::Done(acc_g) by {
                                let ext = seq![outcome@] + rest;
                                assert(old_outs + ext =~= outs_g + rest);
                                assert(run_lines(lines_abs, li as int, old_outs + ext, old_acc)
                                    == run_lines(lines_abs, 0, old_outs + ext, acc_init()));
                                assert((old_outs + ext)[old_acc.executed] == outcome@);
                                assert(run_lines(lines_abs, li as int, outs_g + rest, old_acc)
                                    == RunEnd::Done(acc_g));
                            }
                        } else {
                            assert forall|rest: Seq<OutcomeAbs>|
                                #[trigger] run_lines(lines_abs, li + 1, outs_g + rest, acc_g)
                                    == run_lines(lines_abs, 0, outs_g + rest, acc_init()) by {
                                let ext = seq![outcome@] + rest;
                                assert(old_outs + ext =~= outs_g + rest);
                                assert(run_lines(lines_abs, li as int, old_outs + ext, old_acc)
                                    == run_lines(lines_abs, 0, old_outs + ext, acc_init()));
                                assert((old_outs + ext)[old_acc.executed] == outcome@);
                                assert(run_lines(lines_abs, li as int, outs_g + rest, old_acc)
                                    == run_lines(lines_abs, li + 1, outs_g + rest, acc_g));
                            }
                        }
                        li += 1;
                    }
                },
            }
        }
    }
    proof {
        let empty_rest: Seq<OutcomeAbs> = Seq::empty();
        assert(outs_g + empty_rest =~= outs_g);
        if !failed {
            assert(run_lines(lines_abs, li as int, outs_g, acc_g) == run_lines(
                lines_abs,
                0,
                outs_g,
                acc_init(),
            ));
            assert(run_lines(lines_abs, li as int, outs_g, acc_g) == RunEnd::Done(acc_g));
        }
        assert(run_lines(lines_abs, 0, outs_g, acc_init()) == RunEnd::Done(acc_g));
    }
    if executed == 0 {
        let rep = BlockReport::from_skip(
            block,
            lit_string("Block only had comments/blank lines"),
        );
        proof {
            assert(run_model(block@, label_s, outs_g) == ModelResult::Report(rep@));
        }
        return Ok(rep);
    }
    let stdout_s: Option<String> = if out_chunks.len() == 0 {
        None
    } else {
        Some(chars_to_string(&join_chunks_exec(&out_chunks)))
    };
    let stderr_s: Option<String> = if err_chunks.len() == 0 {
        None
    } else {
        Some(chars_to_string(&join_chunks_exec(&err_chunks)))
    };
    let report = BlockReport {
        id: block.id.clone(),
        name: clone_opt_string(&block.name),
        headings: clone_strings(&block.headings),
        language: clone_opt_string(&block.language),
        sandbox: Some(label),
        duration_ms: total,
        status,
        skip_reason: None,
        stdout: stdout_s,
        stderr: stderr_s,
    };
    proof {
        assert(run_model(block@, label_s, outs_g) == ModelResult::Report(report@));
    }
    Ok(report)
}

/// Whether `key` selects a block: it equals the block's id or its name.
pub open spec fn matches_key(b: BlockAbs, key: Seq<char>) -> bool {
    b.id == key || b.name == Some(key)
}

/// The index of the first block whose id or name equals `key`, if any.
pub fn find_block(blocks: &Vec<CodeBlock>, key: &str) -> (r: Option<usize>)
    ensures
        match r {
            Some(i) => 0 <= i < blocks@.len() && matches_key(blocks@[i as int]@, key@) && forall|
                j: int,
            | 0 <= j < i ==> !matches_key(#[trigger] blocks@[j]@, key@),
            None => forall|j: int|
                0 <= j < blocks@.len() ==> !matches_key(#[trigger] blocks@[j]@, key@),
        },
{
    let kc = str_to_chars(key);
    let mut i: usize = 0;
    while i < blocks.len()
        invariant
            0 <= i <= blocks@.len(),
            kc@ == key@,
            forall|j: int| 0 <= j < i ==> !matches_key(#[trigger] blocks@[j]@, key@),
        decreases blocks@.len() - i,
    {
        let b = &blocks[i];
        let idc = str_to_chars(b.id.as_str());
        let hit = crate::text::eq_chars(&idc, &kc) || (match &b.name {
            Some(n) => crate::text::eq_chars(&str_to_chars(n.as_str()), &kc),
            None => false,
        });
        if hit {
            return Some(i);
        }
        i += 1;
    }
    None
}

/// The ids of the blocks named `n`, in discovery order.
pub open spec fn ids_named(bs: Seq<BlockAbs>, n: Seq<char>) -> Seq<Seq<char>> {
    bs.filter(|b: BlockAbs| b.name == Some(n)).map_values(|b: BlockAbs| b.id)
}

proof fn lemma_named_take_step(bs: Seq<BlockAbs>, i: int, n: Seq<char>)
    requires
        0 <= i < bs.len(),
    ensures
        ids_named(bs.take(i + 1), n) == if bs[i].name == Some(n) {
            ids_named(bs.take(i), n).push(bs[i].id)
        } else {
            ids_named(bs.take(i), n)
        },
{
    reveal_with_fuel(Seq::filter, 2);
    assert(bs.take(i + 1).drop_last() =~= bs.take(i));
    assert(bs.take(i + 1).last() == bs[i]);
    if bs[i].name == Some(n) {
        assert(bs.take(i + 1).filter(|b: BlockAbs| b.name == Some(n)) == bs.take(i).filter(
            |b: BlockAbs| b.name == Some(n),
        ).push(bs[i]));
        assert(ids_named(bs.take(i + 1), n) =~= ids_named(bs.take(i), n).push(bs[i].id));
    }
}

proof fn lemma_named_nonempty_exists(bs: Seq<BlockAbs>, n: Seq<char>)
    requires
        ids_named(bs, n).len() > 0,
    ensures
        exists|j: int| 0 <= j < bs.len() && (#[trigger] bs[j]).name == Some(n),
    decreases bs.len(),
{
    reveal_with_fuel(Seq::filter, 2);
    if bs.len() > 0 {
        if bs.last().name == Some(n) {
            assert(bs[bs.len() - 1].name == Some(n));
        } else {
            assert(bs.drop_last().filter(|b: BlockAbs| b.name == Some(n)) == bs.filter(
                |b: BlockAbs| b.name == Some(n),
            ));
            lemma_named_nonempty_exists(bs.drop_last(), n);
            let j = choose|j: int|
                0 <= j < bs.drop_last().len() && (#[trigger] bs.drop_last()[j]).name == Some(n);
            assert(bs[j].name == Some(n));
        }
    }
}

/// The ids of every block named `name`, in discovery order; at least two
/// entries mean the name is ambiguous.
pub fn blocks_named(blocks: &Vec<CodeBlock>, name: &str) -> (r: Vec<String>)
    ensures
        strings_abs(r@) == ids_named(crate::markdown::blocks_abs(blocks@), name@),
{
    let ghost bs = crate::markdown::blocks_abs(blocks@);
    let nc = str_to_chars(name);
    let mut r: Vec<String> = Vec::new();
    let mut i: usize = 0;
    proof {
        reveal_with_fuel(Seq::filter, 1);
        assert(bs.take(0) =~= Seq::<BlockAbs>::empty());
        assert(strings_abs(r@) =~= ids_named(bs.take(0), name@));
    }
    while i < blocks.len()
        invariant
            0 <= i <= blocks@.len(),
            nc@ == name@,
            bs == crate::markdown::blocks_abs(blocks@),
            bs.len() == blocks@.len(),
            strings_abs(r@) == ids_named(bs.take(i as int), name@),
        decreases blocks@.len() - i,
    {
        proof {
            lemma_named_take_step(bs, i as int, name@);
        }
        let b = &blocks[i];
        let is_named = match &b.name {
            Some(bn) => crate::text::eq_chars(&str_to_chars(bn.as_str()), &nc),
            None => false,
        };
        assert(is_named == (bs[i as int].name == Some(name@)));
        if is_named {
            let ghost pre = strings_abs(r@);
            r.push(b.id.clone());
            assert(strings_abs(r@) =~= pre.push(bs[i as int].id));
        }
        i += 1;
    }
    proof {
        assert(bs.take(bs.len() as int) =~= bs);
    }
    r
}

/// Whether index `fi` holds the first block named `n`.
pub open spec fn first_named(bs: Seq<BlockAbs>, n: Seq<char>, fi: int) -> bool {
    &&& 0 <= fi < bs.len()
    &&& bs[fi].name == Some(n)
    &&& forall|j: int| 0 <= j < fi ==> (#[trigger] bs[j]).name != Some(n)
}

/// Whether some index below `i` holds the first block named `n`.
pub open spec fn named_before(bs: Seq<BlockAbs>, n: Seq<char>, i: int) -> bool {
    exists|fi: int| fi < i && #[trigger] first_named(bs, n, fi)
}

proof fn lemma_named_before_mono(bs: Seq<BlockAbs>, n: Seq<char>, i: int, j: int)
    requires
        named_before(bs, n, i),
        i <= j,
    ensures
        named_before(bs, n, j),
{
    let fi = choose|fi: int| fi < i && #[trigger] first_named(bs, n, fi);
    assert(fi < j && first_named(bs, n, fi));
}

/// Every name carried by two or more blocks, in order of first appearance,
/// each with the full id list of the blocks that carry it. Detecting and
/// reporting such collisions is the caller's concern; this makes it
/// possible from the extracted blocks alone.
pub fn duplicate_names(blocks: &Vec<CodeBlock>) -> (r: Vec<(String, Vec<String>)>)
    ensures
        forall|k: int|
            0 <= k < r@.len() ==> strings_abs((#[trigger] r@[k]).1@) == ids_named(
                crate::markdown::blocks_abs(blocks@),
                r@[k].0@,
            ) && r@[k].1@.len() >= 2,
        forall|k1: int, k2: int|
            0 <= k1 < k2 < r@.len() ==> (#[trigger] r@[k1]).0@ != (#[trigger] r@[k2]).0@,
        forall|n: Seq<char>|
            ids_named(crate::markdown::blocks_abs(blocks@), n).len() >= 2 ==> exists|k: int|
                0 <= k < r@.len() && (#[trigger] r@[k]).0@ == n,
{
    let ghost bs = crate::markdown::blocks_abs(blocks@);
    let mut r: Vec<(String, Vec<String>)> = Vec::new();
    let mut i: usize = 0;
    while i < blocks.len()
        invariant
            0 <= i <= blocks@.len(),
            bs == crate::markdown::blocks_abs(blocks@),
            bs.len() == blocks@.len(),
            forall|k: int|
                0 <= k < r@.len() ==> strings_abs((#[trigger] r@[k]).1@) == ids_named(
                    bs,
                    r@[k].0@,
                ) && r@[k].1@.len() >= 2,
            forall|k: int| 0 <= k < r@.len() ==> named_before(bs, (#[trigger] r@[k]).0@, i as int),
            forall|k1: int, k2: int|
                0 <= k1 < k2 < r@.len() ==> (#[trigger] r@[k1]).0@ != (#[trigger] r@[k2]).0@,
            forall|n: Seq<char>, fi: int|
                first_named(bs, n, fi) && fi < i && ids_named(bs, n).len() >= 2 ==> exists|k: int|
                    0 <= k < r@.len() && (#[trigger] r@[k]).0@ == n,
        decreases blocks@.len() - i,
    {
        assert(bs[i as int] == blocks@[i as int]@);
        let b = &blocks[i];
        let ghost pre_iter = r@;
        if let Some(n) = &b.name {
            let nc = str_to_chars(n.as_str());
            assert(bs[i as int].name == Some(nc@));
            let mut seen_before = false;
            let mut j: usize = 0;
            while j < i
                invariant
                    0 <= j <= i < blocks@.len(),
                    bs == crate::markdown::blocks_abs(blocks@),
                    bs.len() == blocks@.len(),
                    bs[i as int].name == Some(nc@),
                    seen_before == exists|q: int|
                        0 <= q < j && (#[trigger] bs[q]).name == Some(nc@),
                decreases i - j,
            {
                assert(bs[j as int] == blocks@[j as int]@);
                let hit = match &blocks[j].name {
                    Some(pn) => crate::text::eq_chars(&str_to_chars(pn.as_str()), &nc),
                    None => false,
                };
                assert(hit == (bs[j as int].name == Some(nc@)));
                if hit {
                    seen_before = true;
                    assert(exists|q: int| 0 <= q < j + 1 && (#[trigger] bs[q]).name == Some(nc@));
                }
                j += 1;
            }
            if !seen_before {
                assert(first_named(bs, nc@, i as int));
                let ids = blocks_named(blocks, n.as_str());
                assert(ids@.len() == ids_named(bs, nc@).len());
                if ids.len() >= 2 {
                    let ghost pre = r@;
                    r.push((crate::runner::lit_string(n.as_str()), ids));
                    assert(r@[pre.len() as int].0@ == nc@);
                    assert(r@[pre.len() as int].1 == ids);
                    assert forall|k: int| 0 <= k < r@.len() implies strings_abs(
                        (#[trigger] r@[k]).1@,
                    ) == ids_named(bs, r@[k].0@) && r@[k].1@.len() >= 2 by {
                        if k < pre.len() {
                            assert(r@[k] == pre[k]);
                        } else {
                            assert(r@[k].1 == ids);
                        }
                    }
                    assert(named_before(bs, nc@, i + 1));
                    assert forall|k1: int, k2: int| 0 <= k1 < k2 < r@.len() implies (
                    #[trigger] r@[k1]).0@ != (#[trigger] r@[k2]).0@ by {
                        if k2 == pre.len() {
                            assert(r@[k1] == pre[k1]);
                            assert(named_before(bs, pre[k1].0@, i as int));
                            let fi = choose|fi: int|
                                fi < i && #[trigger] first_named(bs, pre[k1].0@, fi);
                            if pre[k1].0@ == nc@ {
                                assert(bs[fi].name == Some(nc@));
                                assert(false);
                            }
                        } else {
                            assert(r@[k1] == pre[k1] && r@[k2] == pre[k2]);
                        }
                    }
                }
            }
        }
        proof {
            assert forall|k: int| 0 <= k < r@.len() implies named_before(
                bs,
                (#[trigger] r@[k]).0@,
                i + 1,
            ) by {
                if k < pre_iter.len() {
                    assert(r@[k] == pre_iter[k]);
                    lemma_named_before_mono(bs, r@[k].0@, i as int, i + 1);
                }
            }
            assert forall|n2: Seq<char>, fi: int|
                first_named(bs, n2, fi) && fi < i + 1 && ids_named(bs, n2).len() >= 2 implies exists|
                k: int,
            | 0 <= k < r@.len() && (#[trigger] r@[k]).0@ == n2 by {
                if fi < i {
                    assert(exists|k: int|
                        0 <= k < pre_iter.len() && (#[trigger] pre_iter[k]).0@ == n2);
                    let k0 = choose|k: int|
                        0 <= k < pre_iter.len() && (#[trigger] pre_iter[k]).0@ == n2;
                    assert(r@[k0].0@ == n2);
                } else {
                    assert(fi == i);
                    assert(bs[i as int].name == Some(n2));
                }
            }
        }
        i += 1;
    }
    proof {
        assert forall|n: Seq<char>| ids_named(bs, n).len() >= 2 implies exists|k: int|
            0 <= k < r@.len() && (#[trigger] r@[k]).0@ == n by {
            lemma_named_nonempty_exists(bs, n);
            let j0 = choose|j: int| 0 <= j < bs.len() && (#[trigger] bs[j]).name == Some(n);
            let fi = first_index_named(bs, n, j0);
            assert(first_named(bs, n, fi));
        }
    }
    r
}

/// The least index `<= j0` holding a block named `n`, given one at `j0`.
proof fn first_index_named(bs: Seq<BlockAbs>, n: Seq<char>, j0: int) -> (fi: int)
    requires
        0 <= j0 < bs.len(),
        bs[j0].name == Some(n),
    ensures
        first_named(bs, n, fi),
    decreases j0,
{
    if exists|j: int| 0 <= j < j0 && (#[trigger] bs[j]).name == Some(n) {
        let j1 = choose|j: int| 0 <= j < j0 && (#[trigger] bs[j]).name == Some(n);
        first_index_named(bs, n, j1)
    } else {
        j0
    }
}

/// How a block or report is labelled for human output: the id, with the
/// name in parentheses when one is set.
pub open spec fn display_label_spec(id: Seq<char>, name: Option<Seq<char>>) -> Seq<char> {
    match name {
        Some(n) => id + " ("@ + n + ")"@,
        None => id,
    }
}

/// The display label, per `display_label_spec`.
pub fn display_label(id: &str, name: &Option<String>) -> (r: String)
    ensures
        r@ == display_label_spec(id@, os(*name)),
{
    match name {
        None => lit_string(id),
        Some(n) => {
            let mut out = str_to_chars(id);
            crate::text::append_chars(&mut out, &str_to_chars(" ("));
            crate::text::append_chars(&mut out, &str_to_chars(n.as_str()));
            crate::text::append_chars(&mut out, &str_to_chars(")"));
            chars_to_string(&out)
        },
    }
}

/// Accumulates one command's streamed output into per-stream transcripts.
/// The first chunk of each stream opens the transcript with the command
/// line under a `$ ` prompt; every chunk is appended with a final newline.
pub struct CommandTranscript {
    pub command: String,
    pub stdout: Option<String>,
    pub stderr: Option<String>,
}

/// How a streamed chunk extends one stream's transcript: an empty chunk
/// changes nothing; otherwise the chunk and a newline are appended, after
/// the `$ `-prefixed command line when the stream had no text yet.
pub open spec fn transcript_append(
    cur: Option<Seq<char>>,
    command: Seq<char>,
    chunk: Seq<char>,
) -> Option<Seq<char>> {
    if chunk.len() == 0 {
        cur
    } else {
        Some(
            (match cur {
                None => "$ "@ + command + "\n"@,
                Some(s) => s,
            }) + chunk + "\n"@,
        )
    }
}

impl CommandTranscript {
    pub fn new(command: &str) -> (r: CommandTranscript)
        ensures
            r.command@ == command@,
            r.stdout is None,
            r.stderr is None,
    {
        CommandTranscript { command: lit_string(command), stdout: None, stderr: None }
    }

    /// Appends a stdout chunk, per `transcript_append`; true exactly when
    /// this chunk opened the stream's transcript.
    pub fn append_stdout(&mut self, chunk: &str) -> (first: bool)
        ensures
            final(self).command == old(self).command,
            final(self).stderr == old(self).stderr,
            os(final(self).stdout) == transcript_append(
                os(old(self).stdout),
                old(self).command@,
                chunk@,
            ),
            first == (chunk@.len() > 0 && old(self).stdout is None),
    {
        if chunk.is_empty() {
            return false;
        }
        proof {
            reveal_strlit("\n");
        }
        let first = self.stdout.is_none();
        let mut buf: Vec<char> = match &self.stdout {
            None => {
                let mut b = str_to_chars("$ ");
                crate::text::append_chars(&mut b, &str_to_chars(self.command.as_str()));
                b.push('\n');
                b
            },
            Some(s) => str_to_chars(s.as_str()),
        };
        crate::text::append_chars(&mut buf, &str_to_chars(chunk));
        buf.push('\n');
        assert(Some(buf@) =~~= transcript_append(os(old(self).stdout), old(self).command@, chunk@));
        self.stdout = Some(chars_to_string(&buf));
        first
    }

    /// Appends a stderr chunk, per `transcript_append`; true exactly when
    /// this chunk opened the stream's transcript.
    pub fn append_stderr(&mut self, chunk: &str) -> (first: bool)
        ensures
            final(self).command == old(self).command,
            final(self).stdout == old(self).stdout,
            os(final(self).stderr) == transcript_append(
                os(old(self).stderr),
                old(self).command@,
                chunk@,
            ),
            first == (chunk@.len() > 0 && old(self).stderr is None),
    {
        if chunk.is_empty() {
            return false;
        }
        proof {
            reveal_strlit("\n");
        }
        let first = self.stderr.is_none();
        let mut buf: Vec<char> = match &self.stderr {
            None => {
                let mut b = str_to_chars("$ ");
                crate::text::append_chars(&mut b, &str_to_chars(self.command.as_str()));
                b.push('\n');
                b
            },
            Some(s) => str_to_chars(s.as_str()),
        };
        crate::text::append_chars(&mut buf, &str_to_chars(chunk));
        buf.push('\n');
        assert(Some(buf@) =~~= transcript_append(os(old(self).stderr), old(self).command@, chunk@));
        self.stderr = Some(chars_to_string(&buf));
        first
    }
}

impl OutputSink for CommandTranscript {
    fn on_stdout(&mut self, chunk: &str) {
        let _ = self.append_stdout(chunk);
    }

    fn on_stderr(&mut self, chunk: &str) {
        let _ = self.append_stderr(chunk);
    }
}

proof fn lemma_run_lines_inert_range(
    lines: Seq<Seq<char>>,
    i: int,
    j: int,
    outs: Seq<OutcomeAbs>,
    acc: EngineAcc,
)
    requires
        0 <= i <= j <= lines.len(),
        forall|k: int| i <= k < j ==> line_action(#[trigger] lines[k]) is Inert,
    ensures
        run_lines(lines, i, outs, acc) == run_lines(lines, j, outs, acc),
    decreases j - i,
{
    if i < j {
        lemma_run_lines_inert_range(lines, i + 1, j, outs, acc);
    }
}

/// Skip precedence: an explicit skip directive is honored first and
/// verbatim, whatever the language or content; otherwise an unsupported
/// language is reported, even for empty content; otherwise empty content;
/// otherwise a block whose lines are all blank or `#`-comments is skipped
/// as comment-only.
pub proof fn lemma_skip_precedence(b: BlockAbs, label: Seq<char>, outs: Seq<OutcomeAbs>)
    ensures
        b.skip_reason is Some ==> run_model(b, label, outs) == ModelResult::Report(
            skip_report_abs(b, b.skip_reason->Some_0),
        ),
        b.skip_reason is None && !crate::markdown::is_shell_abs(b) ==> run_model(b, label, outs)
            == ModelResult::Report(skip_report_abs(b, unsupported_reason(b.language))),
        b.skip_reason is None && crate::markdown::is_shell_abs(b) && trim_spec(b.content).len()
            == 0 ==> run_model(b, label, outs) == ModelResult::Report(
            skip_report_abs(b, "Block empty; nothing to execute"@),
        ),
        (b.skip_reason is None && crate::markdown::is_shell_abs(b) && trim_spec(b.content).len()
            > 0 && (forall|k: int|
            0 <= k < lines_spec(b.content).len() ==> line_action(
                #[trigger] lines_spec(b.content)[k],
            ) is Inert)) ==> run_model(b, label, outs) == ModelResult::Report(
            skip_report_abs(b, "Block only had comments/blank lines"@),
        ),
{
    let lines = lines_spec(b.content);
    if b.skip_reason is None && crate::markdown::is_shell_abs(b) && trim_spec(b.content).len() > 0
        && (forall|k: int| 0 <= k < lines.len() ==> line_action(#[trigger] lines[k]) is Inert) {
        lemma_run_lines_inert_range(lines, 0, lines.len() as int, outs, acc_init());
    }
}

/// Fail-fast: when the first command of a block fails, the report carries
/// `Failed` with exactly that command's exit code, its duration, and
/// transcripts holding only that command's output — the lines after it are
/// never reached and leave no trace in the report.
pub proof fn lemma_fail_fast(b: BlockAbs, label: Seq<char>, outs: Seq<OutcomeAbs>, i1: int)
    requires
        skip_decision(b) is None,
        0 <= i1 < lines_spec(b.content).len(),
        forall|k: int| 0 <= k < i1 ==> line_action(#[trigger] lines_spec(b.content)[k]) is Inert,
        line_action(lines_spec(b.content)[i1]) is Cmd,
        outs.len() >= 1,
        !outs[0].success,
    ensures
        ({
            let t = line_action(lines_spec(b.content)[i1])->Cmd_0;
            run_model(b, label, outs) == ModelResult::Report(
                ReportAbs {
                    id: b.id,
                    name: b.name,
                    headings: b.headings,
                    language: b.language,
                    sandbox: Some(label),
                    duration_ms: outs[0].duration_ms as nat,
                    status: BlockStatus::Failed { exit_code: outs[0].exit_code },
                    skip_reason: None,
                    stdout: if outs[0].stdout.len() > 0 {
                        Some(chunk_of(t, outs[0].stdout))
                    } else {
                        None
                    },
                    stderr: if outs[0].stderr.len() > 0 {
                        Some(chunk_of(t, outs[0].stderr))
                    } else {
                        None
                    },
                },
            )
        }),
{
    let lines = lines_spec(b.content);
    let t = line_action(lines[i1])->Cmd_0;
    lemma_run_lines_inert_range(lines, 0, i1, outs, acc_init());
    let acc1 = acc_step(acc_init(), t, outs[0]);
    assert(run_lines(lines, i1, outs, acc_init()) == RunEnd::Done(acc1));
    if outs[0].stdout.len() > 0 {
        assert(acc1.stdout_chunks =~= seq![chunk_of(t, outs[0].stdout)]);
    }
    if outs[0].stderr.len() > 0 {
        assert(acc1.stderr_chunks =~= seq![chunk_of(t, outs[0].stderr)]);
    }
}

/// How many of the first `n` outcomes produced stdout text.
pub open spec fn count_nonempty_stdout(outs: Seq<OutcomeAbs>, n: int) -> int
    decreases n,
{
    if n <= 0 {
        0
    } else {
        count_nonempty_stdout(outs, n - 1) + if 0 <= n - 1 < outs.len() && outs[n - 1].stdout.len()
            > 0 {
            1int
        } else {
            0int
        }
    }
}

spec fn chunks_wf(acc: EngineAcc, outs: Seq<OutcomeAbs>) -> bool {
    &&& 0 <= acc.executed
    &&& acc.stdout_chunks.len() == count_nonempty_stdout(outs, acc.executed)
    &&& forall|k: int|
        0 <= k < acc.stdout_chunks.len() ==> starts_with_spec(
            #[trigger] acc.stdout_chunks[k],
            "$ "@,
        )
}

proof fn lemma_chunk_prefix(t: Seq<char>, text: Seq<char>)
    ensures
        starts_with_spec(chunk_of(t, text), "$ "@),
{
    assert(chunk_of(t, text).subrange(0, "$ "@.len() as int) =~= "$ "@);
}

proof fn lemma_run_lines_chunks(lines: Seq<Seq<char>>, i: int, outs: Seq<OutcomeAbs>, acc: EngineAcc)
    requires
        0 <= i <= lines.len(),
        chunks_wf(acc, outs),
    ensures
        match run_lines(lines, i, outs, acc) {
            RunEnd::Done(a) => chunks_wf(a, outs),
            RunEnd::Pending(_, a) => chunks_wf(a, outs),
            RunEnd::Bad(_) => true,
        },
    decreases lines.len() - i,
{
    if i < lines.len() {
        match line_action(lines[i]) {
            LineAction::Inert => {
                lemma_run_lines_chunks(lines, i + 1, outs, acc);
            },
            LineAction::Bad => {},
            LineAction::Cmd(t, _args) => {
                if 0 <= acc.executed < outs.len() {
                    let o = outs[acc.executed];
                    let acc2 = acc_step(acc, t, o);
                    lemma_chunk_prefix(t, o.stdout);
                    assert(chunks_wf(acc2, outs));
                    if o.success {
                        lemma_run_lines_chunks(lines, i + 1, outs, acc2);
                    }
                }
            },
        }
    }
}

/// Round trip: however a block's run ends, its stdout transcript is the
/// newline-joined concatenation of exactly one `$ `-prefixed segment per
/// executed command that produced stdout text, in execution order; the
/// report's `stdout` is exactly that concatenation (absent when no command
/// printed). Splitting the transcript at the segment starts therefore
/// recovers one segment per such command.
pub proof fn lemma_round_trip(b: BlockAbs, label: Seq<char>, outs: Seq<OutcomeAbs>)
    ensures
        match run_lines(lines_spec(b.content), 0, outs, acc_init()) {
            RunEnd::Done(acc) => {
                &&& acc.stdout_chunks.len() == count_nonempty_stdout(outs, acc.executed)
                &&& forall|k: int|
                    0 <= k < acc.stdout_chunks.len() ==> starts_with_spec(
                        #[trigger] acc.stdout_chunks[k],
                        "$ "@,
                    )
            },
            RunEnd::Pending(_, acc) => acc.stdout_chunks.len() == count_nonempty_stdout(
                outs,
                acc.executed,
            ),
            RunEnd::Bad(_) => true,
        },
{
    lemma_run_lines_chunks(lines_spec(b.content), 0, outs, acc_init());
}

} // verus!
