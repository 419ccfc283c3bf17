//! Configuration and the top-level run of the analyses over a program.
use vstd::prelude::*;

use crate::context::{spec_copy_trait_ids, spec_copyable, CtxOwner};
use crate::paths::Catalog;
use crate::program::Program;
use crate::report::{Report, ReportLevel};
use crate::unsafe_dataflow::{
    discovered_paths, expected_reports, report_view, UnsafeDataflowChecker,
};

verus! {

/// Compiler arguments that the analyses want set by default.
pub const RUDRA_DEFAULT_ARGS: [&'static str; 3] = [
    "-Zalways-encode-mir",
    "-Zmir-opt-level=0",
    "--cfg=rudra",
];

/// How much the run logs.
#[derive(Clone, Copy, Debug, PartialEq, Eq, Structural)]
pub enum Verbosity {
    Normal,
    Verbose,
    Trace,
}

/// The command line: the file that holds the program.
#[derive(Clone, Debug, Default)]
pub struct CliOpts {
    pub bin: String,
}

/// The settings of a run: verbosity, report threshold, enabled analyses.
#[derive(Clone, Copy, Debug)]
pub struct RudraConfig {
    pub verbosity: Verbosity,
    pub report_level: ReportLevel,
    pub unsafe_destructor_enabled: bool,
    pub send_sync_variance_enabled: bool,
    pub unsafe_dataflow_enabled: bool,
}

impl Default for RudraConfig {
    fn default() -> (r: RudraConfig)
        ensures
            r.verbosity == Verbosity::Normal,
            r.report_level == ReportLevel::Info,
            !r.unsafe_destructor_enabled,
            r.send_sync_variance_enabled,
            r.unsafe_dataflow_enabled,
    {
        RudraConfig {
            verbosity: Verbosity::Normal,
            report_level: ReportLevel::Info,
            unsafe_destructor_enabled: false,
            send_sync_variance_enabled: true,
            unsafe_dataflow_enabled: true,
        }
    }
}

/// The build-time environment variables that locate the toolchain.
#[derive(Clone, Debug)]
pub struct BuildEnv {
    pub rustc_stage: Option<String>,
    pub rustup_home: Option<String>,
    pub multirust_home: Option<String>,
    pub rustup_toolchain: Option<String>,
    pub multirust_toolchain: Option<String>,
    pub rust_sysroot: Option<String>,
}

pub open spec fn or_else(a: Option<String>, b: Option<String>) -> Option<String> {
    if a is Some {
        a
    } else {
        b
    }
}

/// The default sysroot: none when built as part of the compiler, else
/// `<home>/toolchains/<toolchain>` from rustup's variables, else the
/// sysroot variable itself.
pub open spec fn spec_sysroot(env: BuildEnv) -> Option<Seq<char>> {
    let home = or_else(env.rustup_home, env.multirust_home);
    let toolchain = or_else(env.rustup_toolchain, env.multirust_toolchain);
    if env.rustc_stage is Some {
        None
    } else if home is Some && toolchain is Some {
        Some(home->0@ + "/toolchains/"@ + toolchain->0@)
    } else {
        Some(env.rust_sysroot->0@)
    }
}

/// Without rustup's variables, the sysroot variable has to be set.
pub open spec fn sysroot_known(env: BuildEnv) -> bool {
    env.rustc_stage is Some || (or_else(env.rustup_home, env.multirust_home) is Some && or_else(
        env.rustup_toolchain,
        env.multirust_toolchain,
    ) is Some) || env.rust_sysroot is Some
}

fn first_of<'b>(a: &'b Option<String>, b: &'b Option<String>) -> (r: &'b Option<String>)
    ensures
        *r == or_else(*a, *b),
{
    if a.is_some() {
        a
    } else {
        b
    }
}

/// The sysroot used when none is given on the command line.
pub fn compile_time_sysroot(env: &BuildEnv) -> (r: Option<String>)
    requires
        sysroot_known(*env),
    ensures
        match spec_sysroot(*env) {
            Some(s) => r matches Some(x) && x@ == s,
            None => r is None,
        },
{
    if env.rustc_stage.is_some() {
        return None;
    }
    let home = first_of(&env.rustup_home, &env.multirust_home);
    let toolchain = first_of(&env.rustup_toolchain, &env.multirust_toolchain);
    match (home, toolchain) {
        (Some(home), Some(toolchain)) => {
            let mut s = home.clone();
            s.append("/toolchains/");
            s.append(toolchain.as_str());
            Some(s)
        },
        _ => match &env.rust_sysroot {
            Some(s) => Some(s.clone()),
            None => None,
        },
    }
}

/// Runs one analysis.
pub fn run_analysis<F, R>(name: &str, f: F) -> (r: R) where F: FnOnce() -> R
    requires
        f.requires(()),
    ensures
        f.ensures((), r),
{
    f()
}

/// The reports of the enabled analyses on `crate_data`, which declares at
/// most one copy-marker trait, and the callees listed by its paths-discovery
/// functions.
pub fn analyze(crate_data: Program, config: RudraConfig, catalog: &Catalog) -> (r: (
    Vec<Report>,
    Vec<String>,
))
    requires
        spec_copy_trait_ids(crate_data).len() <= 1,
    ensures
        config.unsafe_dataflow_enabled ==> r.0@.map_values(|x: Report| report_view(x))
            == expected_reports(
            crate_data,
            spec_copyable(crate_data),
            config.report_level,
            *catalog,
            crate_data.fun_decls@,
        ),
        !config.unsafe_dataflow_enabled ==> r.0@.len() == 0,
        r.1@.map_values(|x: String| x@) == discovered_paths(
            crate_data,
            *catalog,
            crate_data.fun_decls@,
        ),
{
    let rcx = CtxOwner::new(crate_data, config.report_level);
    let rcx_ref = &rcx;
    let discovered = UnsafeDataflowChecker::new(rcx_ref, catalog).paths_discovery();
    if config.unsafe_dataflow_enabled {
        let run = (
        || -> (reports: Vec<Report>)
            ensures
                reports@.map_values(|x: Report| report_view(x)) == expected_reports(
                    rcx_ref.crate_data,
                    rcx_ref.copyable@,
                    rcx_ref.report_level,
                    *catalog,
                    rcx_ref.crate_data.fun_decls@,
                ),
            { UnsafeDataflowChecker::new(rcx_ref, catalog).analyze() });
        (run_analysis("UnsafeDataflow", run), discovered)
    } else {
        (Vec::new(), discovered)
    }
}

} // verus!
