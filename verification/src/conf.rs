//! Configuration data structures consumed by the core.
//!
//! The file format and its reader live outside the core; what arrives here are
//! plain values. Each field's default is a named function so that a reader of
//! the configuration surface can see the defaulting rules in one place:
//! `watch = true`, `read_bufsize = 2048`, `bus_bufsize = 0`, `must_be_up =
//! true`, `version = 1`.

use vstd::prelude::*;

verus! {

/// Command-line surface: the path of the configuration file.
#[derive(Debug, Clone)]
pub struct Cli {
    /// Path of the configuration file to load.
    pub config: String,
}

/// Which captured stream of which service a consumer reads.
#[derive(Debug, Clone)]
pub enum ProducerConf {
    /// The standard-output stream of the named service.
    StdOut(String),
    /// The standard-error stream of the named service.
    StdErr(String),
}

/// What a consumer does with the bytes it receives.
#[derive(Debug, Clone)]
pub enum ConsumerKind {
    /// Append to the file at this path.
    Log(String),
    /// Write to the supervisor's own standard output.
    StdOut,
    /// Write to the supervisor's own standard error.
    StdErr,
}

/// One consumer entry: a stream to read and a destination for its bytes.
#[derive(Debug, Clone)]
pub struct ConsumerConf {
    pub consumes: ProducerConf,
    pub kind: ConsumerKind,
}

/// Per-stream capture settings of a service.
#[derive(Debug, Clone)]
pub struct SourceConf {
    /// Whether the stream is captured at all; a stream that is not watched is
    /// discarded.
    pub watch: bool,
    /// Capacity of the read buffer that drains the stream's pipe.
    pub read_bufsize: usize,
    /// Capacity of the staging buffer of the stream's bus; zero means
    /// unbuffered delivery.
    pub bus_bufsize: usize,
}

/// One declared service: its name, how to start it, and its policy.
#[derive(Debug, Clone)]
pub struct ServiceConf {
    /// Unique identifier of the service.
    pub name: String,
    /// Capture settings for the child's standard output.
    pub stdout: SourceConf,
    /// Capture settings for the child's standard error.
    pub stderr: SourceConf,
    /// argv of the child; the first element is the program path.
    pub argv: Vec<String>,
    /// Environment entries appended to the inherited environment.
    pub env: Vec<String>,
    /// When true, abnormal exit of this service terminates the supervisor.
    pub must_be_up: bool,
}

/// The whole configuration: declared services and consumer wiring.
#[derive(Debug, Clone)]
pub struct Config {
    pub version: u32,
    pub service: Vec<ServiceConf>,
    pub consumer: Vec<ConsumerConf>,
}

/// Default capture settings of a stream: watched, 2048-byte read buffer,
/// unbuffered bus.
pub fn default_src_config() -> (c: SourceConf)
    ensures
        c.watch == true,
        c.read_bufsize == 2048,
        c.bus_bufsize == 0,
{
    SourceConf { watch: default_src_watch(), read_bufsize: default_read_bufsize(), bus_bufsize: default_bus_bufsize() }
}

/// Default configuration version.
pub fn default_cfg_ver() -> (v: u32)
    ensures
        v == 1,
{
    1
}

/// By default a service is critical: its abnormal exit ends the supervisor.
pub fn default_must_be_up() -> (b: bool)
    ensures
        b == true,
{
    true
}

/// By default each stream is captured.
pub fn default_src_watch() -> (b: bool)
    ensures
        b == true,
{
    true
}

/// Default capacity of the per-stream read buffer.
pub fn default_read_bufsize() -> (n: usize)
    ensures
        n == 2048,
{
    2048
}

/// By default the bus stages nothing: every batch goes straight to the sinks.
pub fn default_bus_bufsize() -> (n: usize)
    ensures
        n == 0,
{
    0
}

/// By default a service inherits the environment unchanged.
pub fn default_cfg_env() -> (e: Vec<String>)
    ensures
        e@ == Seq::<String>::empty(),
{
    Vec::new()
}

} // verus!
