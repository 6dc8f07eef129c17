//! Keeps documentation examples honest: extracts fenced code blocks from
//! markdown together with their heading context and `runme:` directives,
//! plans their execution as shell command lines, and turns the outcomes of
//! running those commands into per-block pass/fail/skip reports.

pub mod cli;
pub mod markdown;
pub mod runner;
pub mod sandbox;
pub mod text;
