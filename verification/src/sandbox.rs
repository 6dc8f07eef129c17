//! Sandbox backends as configuration values.
//!
//! The decisions a backend makes — its label, the container image
//! resolution, and the exact argument vector handed to the container engine
//! — are verified here. Actually spawning a process is I/O and lives with
//! the embedding program, which drives the engine with these values.

use crate::markdown::os;
use crate::markdown::strings_abs;
use crate::runner::lit_string;
use crate::text::append_chars;
use crate::text::chars_to_string;
use crate::text::str_to_chars;
use vstd::prelude::*;

verus! {

/// Straightforward sandbox that runs commands directly on the host.
pub struct HostSandbox {
    /// The working directory every command runs in.
    pub workdir: String,
}

impl HostSandbox {
    pub fn new(workdir: String) -> (r: HostSandbox)
        ensures
            r.workdir@ == workdir@,
    {
        HostSandbox { workdir }
    }

    /// The label surfaced in reports.
    pub fn label(&self) -> (l: &str)
        ensures
            l@ == "host"@,
    {
        "host"
    }
}

/// The image a container sandbox uses: an explicit override first, else the
/// environment's value, else the fixed default.
pub open spec fn resolved_image(cli: Option<Seq<char>>, env: Option<Seq<char>>) -> Seq<char> {
    match cli {
        Some(i) => i,
        None => match env {
            Some(i) => i,
            None => "ubuntu:22.04"@,
        },
    }
}

/// The argument vector handed to the container engine for one command: a
/// disposable, network-less container with the working directory mounted at
/// `/workspace`, the caller's extra flags, the image, then the command.
pub open spec fn container_argv(
    mount: Seq<char>,
    image: Seq<char>,
    extra: Seq<Seq<char>>,
    argv: Seq<Seq<char>>,
) -> Seq<Seq<char>> {
    seq![
        "run"@,
        "--rm"@,
        "--network=none"@,
        "-v"@,
        mount + ":/workspace"@,
        "-w"@,
        "/workspace"@,
    ] + extra + seq![image] + argv
}

/// Container sandbox that runs each command inside a disposable container.
pub struct DockerSandbox {
    /// The directory mounted into the container at `/workspace`.
    pub mount_dir: String,
    /// The resolved container image.
    pub image: String,
    /// Extra flags forwarded to the container engine's `run`.
    pub extra_args: Vec<String>,
}

impl DockerSandbox {
    /// Builds the sandbox, resolving the image with the documented
    /// precedence: `image` (an explicit override) first, else `env_image`
    /// (the environment fallback, read by the caller), else `ubuntu:22.04`.
    pub fn new(
        workdir: String,
        image: Option<String>,
        env_image: Option<String>,
        extra_args: Vec<String>,
    ) -> (r: DockerSandbox)
        ensures
            r.mount_dir@ == workdir@,
            r.image@ == resolved_image(os(image), os(env_image)),
            r.extra_args == extra_args,
    {
        let resolved = match image {
            Some(i) => i,
            None => match env_image {
                Some(i) => i,
                None => lit_string("ubuntu:22.04"),
            },
        };
        DockerSandbox { mount_dir: workdir, image: resolved, extra_args }
    }

    /// The label surfaced in reports.
    pub fn label(&self) -> (l: &str)
        ensures
            l@ == "docker"@,
    {
        "docker"
    }

    /// The resolved container image.
    pub fn image(&self) -> (r: &str)
        ensures
            r@ == self.image@,
    {
        self.image.as_str()
    }

    /// The extra flags forwarded to the container engine.
    pub fn extra_args(&self) -> (r: &Vec<String>)
        ensures
            r == &self.extra_args,
    {
        &self.extra_args
    }

    /// The exact argument vector to hand the container engine for `argv`,
    /// per `container_argv`.
    pub fn command_argv(&self, argv: &Vec<String>) -> (r: Vec<String>)
        ensures
            strings_abs(r@) == container_argv(
                self.mount_dir@,
                self.image@,
                strings_abs(self.extra_args@),
                strings_abs(argv@),
            ),
    {
        let mut r: Vec<String> = Vec::new();
        r.push(lit_string("run"));
        r.push(lit_string("--rm"));
        r.push(lit_string("--network=none"));
        r.push(lit_string("-v"));
        let mut volume = str_to_chars(self.mount_dir.as_str());
        append_chars(&mut volume, &str_to_chars(":/workspace"));
        r.push(chars_to_string(&volume));
        r.push(lit_string("-w"));
        r.push(lit_string("/workspace"));
        let ghost head = strings_abs(r@);
        assert(head =~= seq![
            "run"@,
            "--rm"@,
            "--network=none"@,
            "-v"@,
            self.mount_dir@ + ":/workspace"@,
            "-w"@,
            "/workspace"@,
        ]);
        let mut i: usize = 0;
        while i < self.extra_args.len()
            invariant
                0 <= i <= self.extra_args@.len(),
                strings_abs(r@) =~= head + strings_abs(self.extra_args@.take(i as int)),
            decreases self.extra_args@.len() - i,
        {
            let ghost pre = strings_abs(r@);
            r.push(self.extra_args[i].clone());
            assert(strings_abs(r@) =~= pre.push(self.extra_args@[i as int]@));
            assert(head + strings_abs(self.extra_args@.take(i + 1)) =~= pre.push(
                self.extra_args@[i as int]@,
            ));
            i += 1;
        }
        proof {
            assert(self.extra_args@.take(self.extra_args@.len() as int) =~= self.extra_args@);
        }
        let ghost mid = strings_abs(r@);
        r.push(self.image.clone());
        let ghost mid2 = strings_abs(r@);
        assert(mid2 =~= mid.push(self.image@));
        let mut j: usize = 0;
        while j < argv.len()
            invariant
                0 <= j <= argv@.len(),
                strings_abs(r@) =~= mid2 + strings_abs(argv@.take(j as int)),
            decreases argv@.len() - j,
        {
            let ghost pre = strings_abs(r@);
            r.push(argv[j].clone());
            assert(strings_abs(r@) =~= pre.push(argv@[j as int]@));
            assert(mid2 + strings_abs(argv@.take(j + 1)) =~= pre.push(argv@[j as int]@));
            j += 1;
        }
        proof {
            assert(argv@.take(argv@.len() as int) =~= argv@);
            assert(strings_abs(r@) =~= container_argv(
                self.mount_dir@,
                self.image@,
                strings_abs(self.extra_args@),
                strings_abs(argv@),
            ));
        }
        r
    }
}

/// Placeholder isolated sandbox that falls back to host execution until a
/// real isolated runtime lands; its label makes the fallback visible rather
/// than silently claiming isolation.
pub struct WasmSandbox {
    pub host_fallback: HostSandbox,
}

impl WasmSandbox {
    pub fn new(workdir: String) -> (r: WasmSandbox)
        ensures
            r.host_fallback.workdir@ == workdir@,
    {
        WasmSandbox { host_fallback: HostSandbox::new(workdir) }
    }

    /// The label surfaced in reports; it encodes the degradation.
    pub fn label(&self) -> (l: &str)
        ensures
            l@ == "wasm(host-fallback)"@,
    {
        "wasm(host-fallback)"
    }
}

/// The sandbox runtime selected for a run.
#[derive(Clone, Copy, Debug, PartialEq, Eq, Structural)]
pub enum SandboxChoice {
    Host,
    Docker,
    Wasm,
}

/// Container options gathered from the command line.
#[derive(Clone, Debug)]
pub struct DockerConfig {
    /// Explicit image override.
    pub image: Option<String>,
    /// Repeatable extra arguments forwarded to the container engine.
    pub extra_args: Vec<String>,
}

impl Default for DockerConfig {
    fn default() -> (r: DockerConfig)
        ensures
            r.image is None,
            r.extra_args@.len() == 0,
    {
        DockerConfig { image: None, extra_args: Vec::new() }
    }
}

/// The configured backends as one tagged value.
pub enum AnySandbox {
    Host(HostSandbox),
    Docker(DockerSandbox),
    Wasm(WasmSandbox),
}

impl AnySandbox {
    /// The label of the selected backend.
    pub fn label(&self) -> (l: &str)
        ensures
            l@ == match self {
                AnySandbox::Host(_) => "host"@,
                AnySandbox::Docker(_) => "docker"@,
                AnySandbox::Wasm(_) => "wasm(host-fallback)"@,
            },
    {
        match self {
            AnySandbox::Host(h) => h.label(),
            AnySandbox::Docker(d) => d.label(),
            AnySandbox::Wasm(w) => w.label(),
        }
    }
}

fn clone_opt_string(o: &Option<String>) -> (r: Option<String>)
    ensures
        os(r) == os(*o),
{
    match o {
        None => None,
        Some(s) => Some(s.clone()),
    }
}

fn clone_strings(v: &Vec<String>) -> (r: Vec<String>)
    ensures
        strings_abs(r@) == strings_abs(v@),
{
    let mut r: Vec<String> = Vec::new();
    let mut i: usize = 0;
    while i < v.len()
        invariant
            0 <= i <= v@.len(),
            strings_abs(r@) =~= strings_abs(v@.take(i as int)),
        decreases v@.len() - i,
    {
        let ghost pre = strings_abs(r@);
        r.push(v[i].clone());
        assert(strings_abs(r@) =~= pre.push(v@[i as int]@));
        assert(strings_abs(v@.take(i + 1)) =~= pre.push(v@[i as int]@));
        i += 1;
    }
    assert(v@.take(v@.len() as int) =~= v@);
    assert(strings_abs(r@) =~= strings_abs(v@));
    r
}

/// Builds the backend the caller selected; `env_image` is the environment's
/// image fallback, consulted only for the container backend and only when
/// the configuration gives no explicit image.
pub fn instantiate_sandbox(
    workdir: String,
    kind: SandboxChoice,
    docker: &DockerConfig,
    env_image: Option<String>,
) -> (r: AnySandbox)
    ensures
        match kind {
            SandboxChoice::Host => r matches AnySandbox::Host(h) && h.workdir@ == workdir@,
            SandboxChoice::Docker => r matches AnySandbox::Docker(d) && d.mount_dir@ == workdir@
                && d.image@ == resolved_image(os(docker.image), os(env_image)) && strings_abs(
                d.extra_args@,
            ) == strings_abs(docker.extra_args@),
            SandboxChoice::Wasm => r matches AnySandbox::Wasm(w) && w.host_fallback.workdir@
                == workdir@,
        },
{
    match kind {
        SandboxChoice::Host => AnySandbox::Host(HostSandbox::new(workdir)),
        SandboxChoice::Docker => AnySandbox::Docker(
            DockerSandbox::new(
                workdir,
                clone_opt_string(&docker.image),
                env_image,
                clone_strings(&docker.extra_args),
            ),
        ),
        SandboxChoice::Wasm => AnySandbox::Wasm(WasmSandbox::new(workdir)),
    }
}

} // verus!
