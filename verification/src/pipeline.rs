//! The pipeline driver's decisions: the fixed stage order, the error
//! policy that separates fatal failures from recoverable ones, the host
//! platform gate, and the argument lists handed to the external build
//! tool.
//!
//! The driver itself — running the external tools, walking directories,
//! writing the binding file — is plain sequential glue around these
//! functions: it performs one stage's work, reports the outcome, and
//! lets `advance` pick the next stage.

use vstd::prelude::*;

use crate::version::EnvironmentError;

verus! {

/// The stages of one pipeline run, in their fixed linear order.  `Done`
/// and `Aborted` are terminal.
#[derive(Clone, Copy, Debug, PartialEq, Eq, Structural)]
pub enum Stage {
    Start,
    VersionGate,
    CloneRepo,
    Configure,
    Build,
    GatherLibraries,
    GatherHeaders,
    EmitBindings,
    Done,
    Aborted,
}

/// The error taxonomy of a run.
#[derive(Clone, Copy, Debug, PartialEq, Eq, Structural)]
pub enum PipelineError {
    /// Missing or old tool, unsupported host platform or toolchain
    /// generation: fatal before any mutation.
    Environment(EnvironmentError),
    /// Non-zero exit from the clone, configure or build tool: fatal.
    ExternalTool,
    /// A traversal or copy failure while gathering artifacts or headers:
    /// recoverable, the run continues on a best-effort basis.
    GatherIo,
    /// Failure to create or write the generated binding file, the run's
    /// deliverable: fatal.
    EmissionIo,
}

/// Only gather failures are recoverable; everything else aborts the run.
pub open spec fn spec_is_fatal(e: PipelineError) -> bool {
    !(e is GatherIo)
}

pub fn is_fatal(e: &PipelineError) -> (r: bool)
    ensures
        r == spec_is_fatal(*e),
{
    match e {
        PipelineError::GatherIo => false,
        _ => true,
    }
}

/// The stage that follows `s` when its work succeeds.
pub open spec fn spec_successor(s: Stage) -> Stage {
    match s {
        Stage::Start => Stage::VersionGate,
        Stage::VersionGate => Stage::CloneRepo,
        Stage::CloneRepo => Stage::Configure,
        Stage::Configure => Stage::Build,
        Stage::Build => Stage::GatherLibraries,
        Stage::GatherLibraries => Stage::GatherHeaders,
        Stage::GatherHeaders => Stage::EmitBindings,
        Stage::EmitBindings => Stage::Done,
        Stage::Done => Stage::Done,
        Stage::Aborted => Stage::Aborted,
    }
}

pub fn successor(s: &Stage) -> (n: Stage)
    ensures
        n == spec_successor(*s),
{
    match s {
        Stage::Start => Stage::VersionGate,
        Stage::VersionGate => Stage::CloneRepo,
        Stage::CloneRepo => Stage::Configure,
        Stage::Configure => Stage::Build,
        Stage::Build => Stage::GatherLibraries,
        Stage::GatherLibraries => Stage::GatherHeaders,
        Stage::GatherHeaders => Stage::EmitBindings,
        Stage::EmitBindings => Stage::Done,
        Stage::Done => Stage::Done,
        Stage::Aborted => Stage::Aborted,
    }
}

/// Where the run goes after one stage's work: on success, or on a
/// recoverable failure, to the next stage in order; on a fatal failure,
/// straight to `Aborted`.
pub open spec fn spec_advance(s: Stage, outcome: Option<PipelineError>) -> Stage {
    match outcome {
        Option::None => spec_successor(s),
        Option::Some(e) => if spec_is_fatal(e) {
            Stage::Aborted
        } else {
            spec_successor(s)
        },
    }
}

pub fn advance(s: &Stage, outcome: &Option<PipelineError>) -> (next: Stage)
    ensures
        next == spec_advance(*s, *outcome),
{
    match outcome {
        Option::None => successor(s),
        Option::Some(e) => {
            if is_fatal(e) {
                Stage::Aborted
            } else {
                successor(s)
            }
        },
    }
}

/// The position of a stage in the fixed order.
pub open spec fn stage_rank(s: Stage) -> int {
    match s {
        Stage::Start => 0,
        Stage::VersionGate => 1,
        Stage::CloneRepo => 2,
        Stage::Configure => 3,
        Stage::Build => 4,
        Stage::GatherLibraries => 5,
        Stage::GatherHeaders => 6,
        Stage::EmitBindings => 7,
        Stage::Done => 8,
        Stage::Aborted => 9,
    }
}

/// A run is strictly linear: from any non-terminal stage, one step
/// either aborts or moves exactly one stage forward — there are no
/// retries and no loops.
pub proof fn lemma_pipeline_progress(s: Stage, outcome: Option<PipelineError>)
    requires
        s != Stage::Done,
        s != Stage::Aborted,
    ensures
        spec_advance(s, outcome) == Stage::Aborted || stage_rank(spec_advance(s, outcome))
            == stage_rank(s) + 1,
{
}

/// A fatal failure aborts the run at once, whatever stage it struck.
pub proof fn lemma_fatal_failure_aborts(s: Stage, e: PipelineError)
    requires
        spec_is_fatal(e),
    ensures
        spec_advance(s, Some(e)) == Stage::Aborted,
{
}

/// The one supported host combination: a Windows target built with the
/// MSVC toolchain.
pub fn host_platform_supported(target_windows: bool, target_msvc: bool) -> (r: bool)
    ensures
        r == (target_windows && target_msvc),
{
    target_windows && target_msvc
}

/// Accepts exactly the supported host combination; any other is a fatal
/// environment condition, found before any tool is invoked.
pub fn validate_platform(target_windows: bool, target_msvc: bool) -> (r: Result<
    (),
    EnvironmentError,
>)
    ensures
        r is Ok <==> target_windows && target_msvc,
        r is Err ==> r->Err_0 == EnvironmentError::UnsupportedPlatform,
{
    if host_platform_supported(target_windows, target_msvc) {
        Ok(())
    } else {
        Err(EnvironmentError::UnsupportedPlatform)
    }
}

/// The configure-time arguments handed to the build tool, in their
/// exact order; some build tools are positional-argument sensitive, so
/// the order is part of the contract.
pub open spec fn spec_config_flags(debug_build: bool, msvc: bool) -> Seq<Seq<char>> {
    let base = seq![
        "-DABSL_USE_GOOGLETEST_HEAD=ON"@,
        "-DCMAKE_CXX_STANDARD_REQUIRED=ON"@,
        "-DCMAKE_CXX_STANDARD=20"@,
        if debug_build {
            "-DCMAKE_BUILD_TYPE=Debug"@
        } else {
            "-DCMAKE_BUILD_TYPE=Release"@
        },
    ];
    if msvc {
        base + seq!["-DABSL_MSVC_STATIC_RUNTIME=ON"@]
    } else {
        base
    }
}

pub fn cmake_config_flags(debug_build: bool, msvc: bool) -> (flags: Vec<String>)
    ensures
        flags.deep_view() == spec_config_flags(debug_build, msvc),
{
    let mut flags: Vec<String> = Vec::new();
    flags.push(String::from_str("-DABSL_USE_GOOGLETEST_HEAD=ON"));
    flags.push(String::from_str("-DCMAKE_CXX_STANDARD_REQUIRED=ON"));
    flags.push(String::from_str("-DCMAKE_CXX_STANDARD=20"));
    if debug_build {
        flags.push(String::from_str("-DCMAKE_BUILD_TYPE=Debug"));
    } else {
        flags.push(String::from_str("-DCMAKE_BUILD_TYPE=Release"));
    }
    if msvc {
        flags.push(String::from_str("-DABSL_MSVC_STATIC_RUNTIME=ON"));
    }
    proof {
        assert(flags.deep_view() =~= spec_config_flags(debug_build, msvc));
    }
    flags
}

/// The build-time arguments, in their exact order: the project is only
/// driven through the build tool on the MSVC toolchain; elsewhere the
/// list is empty.
pub open spec fn spec_compile_flags(debug_build: bool, msvc: bool) -> Seq<Seq<char>> {
    if msvc {
        seq![
            "--build"@,
            "."@,
            "--"@,
            "/p:Platform=x64"@,
            if debug_build {
                "/p:Configuration=Debug"@
            } else {
                "/p:Configuration=Release"@
            },
        ]
    } else {
        Seq::empty()
    }
}

pub fn cmake_compile_flags(debug_build: bool, msvc: bool) -> (flags: Vec<String>)
    ensures
        flags.deep_view() == spec_compile_flags(debug_build, msvc),
{
    let mut flags: Vec<String> = Vec::new();
    if msvc {
        flags.push(String::from_str("--build"));
        flags.push(String::from_str("."));
        flags.push(String::from_str("--"));
        flags.push(String::from_str("/p:Platform=x64"));
        if debug_build {
            flags.push(String::from_str("/p:Configuration=Debug"));
        } else {
            flags.push(String::from_str("/p:Configuration=Release"));
        }
    }
    proof {
        assert(flags.deep_view() =~= spec_compile_flags(debug_build, msvc));
    }
    flags
}

/// A short name for a stage, for diagnostics naming the failing stage.
pub open spec fn spec_stage_label(s: Stage) -> Seq<char> {
    match s {
        Stage::Start => "start"@,
        Stage::VersionGate => "version gate"@,
        Stage::CloneRepo => "clone"@,
        Stage::Configure => "configure"@,
        Stage::Build => "build"@,
        Stage::GatherLibraries => "gather libraries"@,
        Stage::GatherHeaders => "gather headers"@,
        Stage::EmitBindings => "emit bindings"@,
        Stage::Done => "done"@,
        Stage::Aborted => "aborted"@,
    }
}

pub fn stage_label(s: &Stage) -> (l: String)
    ensures
        l@ == spec_stage_label(*s),
{
    match s {
        Stage::Start => String::from_str("start"),
        Stage::VersionGate => String::from_str("version gate"),
        Stage::CloneRepo => String::from_str("clone"),
        Stage::Configure => String::from_str("configure"),
        Stage::Build => String::from_str("build"),
        Stage::GatherLibraries => String::from_str("gather libraries"),
        Stage::GatherHeaders => String::from_str("gather headers"),
        Stage::EmitBindings => String::from_str("emit bindings"),
        Stage::Done => String::from_str("done"),
        Stage::Aborted => String::from_str("aborted"),
    }
}

/// A short name for an error class, for diagnostics.
pub open spec fn spec_error_label(e: PipelineError) -> Seq<char> {
    match e {
        PipelineError::Environment(_) => "environment"@,
        PipelineError::ExternalTool => "external tool"@,
        PipelineError::GatherIo => "gather"@,
        PipelineError::EmissionIo => "emission"@,
    }
}

pub fn error_label(e: &PipelineError) -> (l: String)
    ensures
        l@ == spec_error_label(*e),
{
    match e {
        PipelineError::Environment(_) => String::from_str("environment"),
        PipelineError::ExternalTool => String::from_str("external tool"),
        PipelineError::GatherIo => String::from_str("gather"),
        PipelineError::EmissionIo => String::from_str("emission"),
    }
}

} // verus!
