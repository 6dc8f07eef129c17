//! Command-line argument parsing for the block runner: a target document,
//! a sandbox selection with container options, an optional block filter and
//! report format, and the `list` / `run` subcommands.
//!
//! The parser is a verified left-to-right scan of the argument vector,
//! specified by `parse_args`; `--flag value` and `--flag=value` are both
//! accepted, and later occurrences of a flag win.

use crate::markdown::os;
use crate::runner::lit_string;
use crate::sandbox::SandboxChoice;
use crate::text::find_char_spec;
use crate::text::split_once_eq;
use crate::text::starts_with_chars;
use crate::text::starts_with_spec;
use crate::text::str_to_chars;
use crate::text::eq_chars;
use vstd::prelude::*;

verus! {

/// Output format for reports.
#[derive(Clone, Copy, Debug, PartialEq, Eq, Structural)]
pub enum ReportFormat {
    Human,
    Json,
}

/// Options of an actual run (given with or without the `run` subcommand).
#[derive(Clone, Debug)]
pub struct RunArgs {
    /// Block identifier (e.g. `block-002`) or custom name to execute.
    pub block: Option<String>,
    /// Output format for reports.
    pub format: ReportFormat,
}

impl Default for RunArgs {
    fn default() -> (r: RunArgs)
        ensures
            r.block is None,
            r.format == ReportFormat::Human,
    {
        RunArgs { block: None, format: ReportFormat::Human }
    }
}

/// The subcommand given on the command line.
#[derive(Clone, Debug)]
pub enum Command {
    /// List discovered blocks with metadata but do not execute them.
    List,
    /// Execute runnable blocks, optionally targeting a subset.
    Run(RunArgs),
}

/// The whole parsed command line.
#[derive(Clone, Debug)]
pub struct Cli {
    /// Path to the primary markdown file.
    pub target: String,
    /// Sandbox runtime to execute code blocks with.
    pub sandbox: SandboxChoice,
    /// Container image override.
    pub docker_image: Option<String>,
    /// Repeatable extra arguments forwarded to the container engine.
    pub docker_args: Vec<String>,
    /// Run options given before any subcommand.
    pub run: RunArgs,
    /// The subcommand, when one was given.
    pub command: Option<Command>,
}

/// Why a command line was rejected.
#[derive(Clone, Debug)]
pub enum CliError {
    UnknownFlag(String),
    MissingValue(String),
    InvalidValue(String),
    UnexpectedArg(String),
}

/// The spec-level counterpart of `CliError`.
pub enum CliErrAbs {
    UnknownFlag(Seq<char>),
    MissingValue(Seq<char>),
    InvalidValue(Seq<char>),
    UnexpectedArg(Seq<char>),
}

impl View for CliError {
    type V = CliErrAbs;

    open spec fn view(&self) -> CliErrAbs {
        match self {
            CliError::UnknownFlag(a) => CliErrAbs::UnknownFlag(a@),
            CliError::MissingValue(a) => CliErrAbs::MissingValue(a@),
            CliError::InvalidValue(a) => CliErrAbs::InvalidValue(a@),
            CliError::UnexpectedArg(a) => CliErrAbs::UnexpectedArg(a@),
        }
    }
}

/// The spec-level counterpart of `Command`.
pub enum CmdAbs {
    NoCommand,
    ListCmd,
    RunCmd(Option<Seq<char>>, ReportFormat),
}

/// The spec-level counterpart of `Cli`.
pub struct CliAbs {
    pub target: Seq<char>,
    pub sandbox: SandboxChoice,
    pub docker_image: Option<Seq<char>>,
    pub docker_args: Seq<Seq<char>>,
    pub run_block: Option<Seq<char>>,
    pub run_format: ReportFormat,
    pub command: CmdAbs,
}

impl View for Cli {
    type V = CliAbs;

    open spec fn view(&self) -> CliAbs {
        CliAbs {
            target: self.target@,
            sandbox: self.sandbox,
            docker_image: os(self.docker_image),
            docker_args: self.docker_args@.map_values(|s: String| s@),
            run_block: os(self.run.block),
            run_format: self.run.format,
            command: match &self.command {
                None => CmdAbs::NoCommand,
                Some(Command::List) => CmdAbs::ListCmd,
                Some(Command::Run(ra)) => CmdAbs::RunCmd(os(ra.block), ra.format),
            },
        }
    }
}

/// The views of an argument vector.
pub open spec fn strs_abs(v: Seq<&str>) -> Seq<Seq<char>> {
    v.map_values(|s: &str| s@)
}

/// The sandbox a `--sandbox` value selects, if any.
pub open spec fn sandbox_of(v: Seq<char>) -> Option<SandboxChoice> {
    if v == "host"@ {
        Some(SandboxChoice::Host)
    } else if v == "docker"@ {
        Some(SandboxChoice::Docker)
    } else if v == "wasm"@ {
        Some(SandboxChoice::Wasm)
    } else {
        None
    }
}

/// The format a `--format` value selects, if any.
pub open spec fn format_of(v: Seq<char>) -> Option<ReportFormat> {
    if v == "human"@ {
        Some(ReportFormat::Human)
    } else if v == "json"@ {
        Some(ReportFormat::Json)
    } else {
        None
    }
}

/// Where flags currently land: before any subcommand, after `list`, or
/// after `run` (with that run's own options).
pub enum SubSt {
    Top,
    InList,
    InRun(Option<Seq<char>>, Option<ReportFormat>),
}

/// The parser's accumulated state.
pub struct ParseSt {
    pub target: Option<Seq<char>>,
    pub sandbox: Option<SandboxChoice>,
    pub docker_image: Option<Seq<char>>,
    pub docker_args: Seq<Seq<char>>,
    pub block: Option<Seq<char>>,
    pub format: Option<ReportFormat>,
    pub sub: SubSt,
}

pub open spec fn parse_init() -> ParseSt {
    ParseSt {
        target: None,
        sandbox: None,
        docker_image: None,
        docker_args: Seq::empty(),
        block: None,
        format: None,
        sub: SubSt::Top,
    }
}

/// The value of a flag at `args[i]`: the text after `=` when the flag has
/// one (the next argument index follows it), else the next argument.
pub open spec fn flag_value_spec(args: Seq<Seq<char>>, i: int) -> Result<
    (Seq<char>, int),
    CliErrAbs,
> {
    let a = args[i];
    let eq = find_char_spec(a, '=');
    if eq < a.len() {
        Ok((a.subrange(eq + 1, a.len() as int), i + 1))
    } else if i + 1 < args.len() {
        Ok((args[i + 1], i + 2))
    } else {
        Err(CliErrAbs::MissingValue(a))
    }
}

/// The flag name at `args[i]`: the text before `=` when the flag has one.
pub open spec fn flag_name_spec(a: Seq<char>) -> Seq<char> {
    let eq = find_char_spec(a, '=');
    if eq < a.len() {
        a.subrange(0, eq)
    } else {
        a
    }
}

/// One verified left-to-right scan of the argument vector, starting after
/// the program name. Flags before a subcommand configure the run and the
/// sandbox; `list` accepts nothing further; `run` accepts its own `--block`
/// and `--format`; the first other free argument is the target document.
pub open spec fn parse_args(args: Seq<Seq<char>>, i: int, st: ParseSt) -> Result<
    ParseSt,
    CliErrAbs,
>
    decreases args.len() - i when 0 <= i
{
    if i >= args.len() {
        Ok(st)
    } else {
        let a = args[i];
        if st.sub is InList {
            Err(CliErrAbs::UnexpectedArg(a))
        } else if starts_with_spec(a, "--"@) {
            let name = flag_name_spec(a);
            if st.sub is InRun {
                if name == "--block"@ {
                    match flag_value_spec(args, i) {
                        Err(e) => Err(e),
                        Ok(vni) => parse_args(
                            args,
                            vni.1,
                            ParseSt { sub: run_with_block(st.sub, vni.0), ..st },
                        ),
                    }
                } else if name == "--format"@ {
                    match flag_value_spec(args, i) {
                        Err(e) => Err(e),
                        Ok(vni) => match format_of(vni.0) {
                            None => Err(CliErrAbs::InvalidValue(vni.0)),
                            Some(f) => parse_args(
                                args,
                                vni.1,
                                ParseSt { sub: run_with_format(st.sub, f), ..st },
                            ),
                        },
                    }
                } else {
                    Err(CliErrAbs::UnknownFlag(a))
                }
            } else {
                if name == "--sandbox"@ {
                    match flag_value_spec(args, i) {
                        Err(e) => Err(e),
                        Ok(vni) => match sandbox_of(vni.0) {
                            None => Err(CliErrAbs::InvalidValue(vni.0)),
                            Some(s) => parse_args(args, vni.1, ParseSt { sandbox: Some(s), ..st }),
                        },
                    }
                } else if name == "--docker-image"@ {
                    match flag_value_spec(args, i) {
                        Err(e) => Err(e),
                        Ok(vni) => parse_args(
                            args,
                            vni.1,
                            ParseSt { docker_image: Some(vni.0), ..st },
                        ),
                    }
                } else if name == "--docker-arg"@ {
                    match flag_value_spec(args, i) {
                        Err(e) => Err(e),
                        Ok(vni) => parse_args(
                            args,
                            vni.1,
                            ParseSt { docker_args: st.docker_args.push(vni.0), ..st },
                        ),
                    }
                } else if name == "--block"@ {
                    match flag_value_spec(args, i) {
                        Err(e) => Err(e),
                        Ok(vni) => parse_args(args, vni.1, ParseSt { block: Some(vni.0), ..st }),
                    }
                } else if name == "--format"@ {
                    match flag_value_spec(args, i) {
                        Err(e) => Err(e),
                        Ok(vni) => match format_of(vni.0) {
                            None => Err(CliErrAbs::InvalidValue(vni.0)),
                            Some(f) => parse_args(args, vni.1, ParseSt { format: Some(f), ..st }),
                        },
                    }
                } else {
                    Err(CliErrAbs::UnknownFlag(a))
                }
            }
        } else {
            if st.sub is Top {
                if a == "list"@ {
                    parse_args(args, i + 1, ParseSt { sub: SubSt::InList, ..st })
                } else if a == "run"@ {
                    parse_args(args, i + 1, ParseSt { sub: SubSt::InRun(None, None), ..st })
                } else if st.target is None {
                    parse_args(args, i + 1, ParseSt { target: Some(a), ..st })
                } else {
                    Err(CliErrAbs::UnexpectedArg(a))
                }
            } else {
                Err(CliErrAbs::UnexpectedArg(a))
            }
        }
    }
}

pub open spec fn run_with_block(sub: SubSt, v: Seq<char>) -> SubSt {
    match sub {
        SubSt::InRun(_, f) => SubSt::InRun(Some(v), f),
        _ => sub,
    }
}

pub open spec fn run_with_format(sub: SubSt, f: ReportFormat) -> SubSt {
    match sub {
        SubSt::InRun(b, _) => SubSt::InRun(b, Some(f)),
        _ => sub,
    }
}

/// The command line a finished scan denotes, with the documented defaults:
/// target `README.md`, host sandbox, human-readable reports.
pub open spec fn cli_from_state(st: ParseSt) -> CliAbs {
    CliAbs {
        target: match st.target {
            Some(t) => t,
            None => "README.md"@,
        },
        sandbox: match st.sandbox {
            Some(s) => s,
            None => SandboxChoice::Host,
        },
        docker_image: st.docker_image,
        docker_args: st.docker_args,
        run_block: st.block,
        run_format: match st.format {
            Some(f) => f,
            None => ReportFormat::Human,
        },
        command: match st.sub {
            SubSt::Top => CmdAbs::NoCommand,
            SubSt::InList => CmdAbs::ListCmd,
            SubSt::InRun(b, f) => CmdAbs::RunCmd(
                b,
                match f {
                    Some(f) => f,
                    None => ReportFormat::Human,
                },
            ),
        },
    }
}

fn flag_value(args: &Vec<&str>, i: usize, arg_chars: &Vec<char>) -> (r: Result<
    (String, usize),
    CliError,
>)
    requires
        i < args@.len(),
        arg_chars@ == strs_abs(args@)[i as int],
    ensures
        match r {
            Ok(vni) => flag_value_spec(strs_abs(args@), i as int) == Ok::<_, CliErrAbs>(
                (vni.0@, vni.1 as int),
            ) && i < vni.1 <= args@.len(),
            Err(e) => flag_value_spec(strs_abs(args@), i as int) == Err::<(Seq<char>, int), _>(e@),
        },
{
    let n = args.len();
    match split_once_eq(arg_chars) {
        Some((_key, val)) => {
            let v = crate::text::chars_to_string(&val);
            proof {
                crate::text::lemma_find_char_bounds(arg_chars@, '=');
            }
            Ok((v, i + 1))
        },
        None => {
            proof {
                crate::text::lemma_find_char_bounds(arg_chars@, '=');
            }
            if n - i > 1 {
                Ok((lit_string(args[i + 1]), i + 2))
            } else {
                Err(CliError::MissingValue(lit_string(args[i])))
            }
        },
    }
}

impl Cli {
    /// Parses a full argument vector (the program name first), per
    /// `parse_args` with the defaults of `cli_from_state`.
    #[verifier::rlimit(100)]
    pub fn try_parse_from(args: Vec<&str>) -> (r: Result<Cli, CliError>)
        ensures
            match r {
                Ok(c) => parse_args(strs_abs(args@), 1, parse_init()) matches Ok(st) && c@
                    == cli_from_state(st),
                Err(e) => parse_args(strs_abs(args@), 1, parse_init()) matches Err(ea) && e@ == ea,
            },
    {
        let ghost aseq = strs_abs(args@);
        let mut target: Option<String> = None;
        let mut sandbox_o: Option<SandboxChoice> = None;
        let mut docker_image: Option<String> = None;
        let mut docker_args: Vec<String> = Vec::new();
        let mut block: Option<String> = None;
        let mut format_o: Option<ReportFormat> = None;
        let mut in_list: bool = false;
        let mut in_run: bool = false;
        let mut run_block: Option<String> = None;
        let mut run_format: Option<ReportFormat> = None;
        let ghost mut st: ParseSt = parse_init();
        let mut i: usize = 1;
        let pat_flag = str_to_chars("--");
        let pat_sandbox = str_to_chars("--sandbox");
        let pat_image = str_to_chars("--docker-image");
        let pat_arg = str_to_chars("--docker-arg");
        let pat_block = str_to_chars("--block");
        let pat_format = str_to_chars("--format");
        proof {
            assert(docker_args@.map_values(|s: String| s@) =~= Seq::<Seq<char>>::empty());
        }
        while i < args.len()
            invariant
                1 <= i,
                aseq == strs_abs(args@),
                aseq.len() == args@.len(),
                pat_flag@ == "--"@,
                pat_sandbox@ == "--sandbox"@,
                pat_image@ == "--docker-image"@,
                pat_arg@ == "--docker-arg"@,
                pat_block@ == "--block"@,
                pat_format@ == "--format"@,
                parse_args(aseq, 1, parse_init()) == parse_args(aseq, i as int, st),
                st.target == os(target),
                st.sandbox == sandbox_o,
                st.docker_image == os(docker_image),
                st.docker_args == docker_args@.map_values(|s: String| s@),
                st.block == os(block),
                st.format == format_o,
                st.sub == (if in_list {
                    SubSt::InList
                } else if in_run {
                    SubSt::InRun(os(run_block), run_format)
                } else {
                    SubSt::Top
                }),
            decreases args@.len() - i,
        {
            let ac = str_to_chars(args[i]);
            assert(ac@ == aseq[i as int]);
            if in_list {
                return Err(CliError::UnexpectedArg(lit_string(args[i])));
            }
            if starts_with_chars(&ac, &pat_flag) {
                let name: Vec<char> = match split_once_eq(&ac) {
                    Some((key, _val)) => {
                        proof {
                            crate::text::lemma_find_char_bounds(ac@, '=');
                        }
                        key
                    },
                    None => {
                        proof {
                            crate::text::lemma_find_char_bounds(ac@, '=');
                        }
                        crate::text::clone_chars(&ac)
                    },
                };
                assert(name@ == flag_name_spec(aseq[i as int]));
                if in_run {
                    if eq_chars(&name, &pat_block) {
                        match flag_value(&args, i, &ac) {
                            Err(e) => {
                                return Err(e);
                            },
                            Ok((v, ni)) => {
                                proof {
                                    st = ParseSt { sub: run_with_block(st.sub, v@), ..st };
                                }
                                run_block = Some(v);
                                i = ni;
                            },
                        }
                    } else if eq_chars(&name, &pat_format) {
                        match flag_value(&args, i, &ac) {
                            Err(e) => {
                                return Err(e);
                            },
                            Ok((v, ni)) => {
                                let vc = str_to_chars(v.as_str());
                                let f = if eq_chars(&vc, &str_to_chars("human")) {
                                    ReportFormat::Human
                                } else if eq_chars(&vc, &str_to_chars("json")) {
                                    ReportFormat::Json
                                } else {
                                    return Err(CliError::InvalidValue(v));
                                };
                                proof {
                                    st = ParseSt { sub: run_with_format(st.sub, f), ..st };
                                }
                                run_format = Some(f);
                                i = ni;
                            },
                        }
                    } else {
                        return Err(CliError::UnknownFlag(lit_string(args[i])));
                    }
                } else {
                    if eq_chars(&name, &pat_sandbox) {
                        match flag_value(&args, i, &ac) {
                            Err(e) => {
                                return Err(e);
                            },
                            Ok((v, ni)) => {
                                let vc = str_to_chars(v.as_str());
                                let s = if eq_chars(&vc, &str_to_chars("host")) {
                                    SandboxChoice::Host
                                } else if eq_chars(&vc, &str_to_chars("docker")) {
                                    SandboxChoice::Docker
                                } else if eq_chars(&vc, &str_to_chars("wasm")) {
                                    SandboxChoice::Wasm
                                } else {
                                    return Err(CliError::InvalidValue(v));
                                };
                                proof {
                                    st = ParseSt { sandbox: Some(s), ..st };
                                }
                                sandbox_o = Some(s);
                                i = ni;
                            },
                        }
                    } else if eq_chars(&name, &pat_image) {
                        match flag_value(&args, i, &ac) {
                            Err(e) => {
                                return Err(e);
                            },
                            Ok((v, ni)) => {
                                proof {
                                    st = ParseSt { docker_image: Some(v@), ..st };
                                }
                                docker_image = Some(v);
                                i = ni;
                            },
                        }
                    } else if eq_chars(&name, &pat_arg) {
                        match flag_value(&args, i, &ac) {
                            Err(e) => {
                                return Err(e);
                            },
                            Ok((v, ni)) => {
                                proof {
                                    st = ParseSt { docker_args: st.docker_args.push(v@), ..st };
                                }
                                let ghost pre = docker_args@.map_values(|s: String| s@);
                                docker_args.push(v);
                                assert(docker_args@.map_values(|s: String| s@) =~= pre.push(
                                    docker_args@.last()@,
                                ));
                                i = ni;
                            },
                        }
                    } else if eq_chars(&name, &pat_block) {
                        match flag_value(&args, i, &ac) {
                            Err(e) => {
                                return Err(e);
                            },
                            Ok((v, ni)) => {
                                proof {
                                    st = ParseSt { block: Some(v@), ..st };
                                }
                                block = Some(v);
                                i = ni;
                            },
                        }
                    } else if eq_chars(&name, &pat_format) {
                        match flag_value(&args, i, &ac) {
                            Err(e) => {
                                return Err(e);
                            },
                            Ok((v, ni)) => {
                                let vc = str_to_chars(v.as_str());
                                let f = if eq_chars(&vc, &str_to_chars("human")) {
                                    ReportFormat::Human
                                } else if eq_chars(&vc, &str_to_chars("json")) {
                                    ReportFormat::Json
                                } else {
                                    return Err(CliError::InvalidValue(v));
                                };
                                proof {
                                    st = ParseSt { format: Some(f), ..st };
                                }
                                format_o = Some(f);
                                i = ni;
                            },
                        }
                    } else {
                        return Err(CliError::UnknownFlag(lit_string(args[i])));
                    }
                }
            } else {
                if in_run {
                    return Err(CliError::UnexpectedArg(lit_string(args[i])));
                }
                if eq_chars(&ac, &str_to_chars("list")) {
                    proof {
                        st = ParseSt { sub: SubSt::InList, ..st };
                    }
                    in_list = true;
                    i += 1;
                } else if eq_chars(&ac, &str_to_chars("run")) {
                    proof {
                        st = ParseSt { sub: SubSt::InRun(None, None), ..st };
                    }
                    in_run = true;
                    run_block = None;
                    run_format = None;
                    i += 1;
                } else if target.is_none() {
                    proof {
                        st = ParseSt { target: Some(ac@), ..st };
                    }
                    target = Some(lit_string(args[i]));
                    i += 1;
                } else {
                    return Err(CliError::UnexpectedArg(lit_string(args[i])));
                }
            }
        }
        let run = RunArgs {
            block,
            format: match format_o {
                Some(f) => f,
                None => ReportFormat::Human,
            },
        };
        let command: Option<Command> = if in_list {
            Some(Command::List)
        } else if in_run {
            Some(
                Command::Run(
                    RunArgs {
                        block: run_block,
                        format: match run_format {
                            Some(f) => f,
                            None => ReportFormat::Human,
                        },
                    },
                ),
            )
        } else {
            None
        };
        let cli = Cli {
            target: match target {
                Some(t) => t,
                None => lit_string("README.md"),
            },
            sandbox: match sandbox_o {
                Some(s) => s,
                None => SandboxChoice::Host,
            },
            docker_image,
            docker_args,
            run,
            command,
        };
        proof {
            assert(parse_args(aseq, i as int, st) == Ok::<ParseSt, CliErrAbs>(st));
            assert(cli@ == cli_from_state(st));
        }
        Ok(cli)
    }
}

} // verus!
