//! What the command line asks to measure.
use vstd::prelude::*;

use crate::binary_size::{default_example, example_or_default, BinarySize};
use crate::compile_time::{default_compile_jobs, CompileTime};
use crate::crate_compile_time::CrateCompileTime;
use crate::{artifacts_view, compile_time, crate_compile_time, Metrics};

verus! {

/// A request of the command line.
pub enum Commands {
    /// Measure the size of an example's binary.
    BinarySize { example: String },
    /// Measure the build time of an example.
    CompileTime { example: String },
    /// Measure everything.
    All,
}

/// A measurement to run.
pub enum Metric {
    BinarySize(BinarySize),
    CompileTime(CompileTime),
    CrateCompileTime(CrateCompileTime),
}

/// Whether `m` measures the binary size of `example`.
pub open spec fn is_binary_size(m: Metric, example: Seq<char>) -> bool {
    m matches Metric::BinarySize(b) && b.example_name@ == example
}

/// Whether `m` measures the build time of `example` with `nb_jobs` jobs.
pub open spec fn is_compile_time(m: Metric, example: Seq<char>, nb_jobs: u32) -> bool {
    m matches Metric::CompileTime(c) && c.example_name@ == example && c.nb_jobs == nb_jobs
}

/// The measurements that `c` asks for, each as its own kind of request, or
/// none for a request of everything that is not taken apart (`recur` false).
pub open spec fn requested(c: Commands, recur: bool, ms: Seq<Metric>) -> bool {
    match c {
        Commands::BinarySize { example } => ms.len() == 1 && is_binary_size(
            ms[0],
            example_or_default(example@),
        ),
        Commands::CompileTime { example } => ms.len() == 1 && is_compile_time(
            ms[0],
            example_or_default(example@),
            default_compile_jobs(),
        ),
        Commands::All => if recur {
            ms.len() == 2 && is_binary_size(ms[0], default_example()) && is_compile_time(
                ms[1],
                default_example(),
                default_compile_jobs(),
            )
        } else {
            ms.len() == 0
        },
    }
}

/// Asking for everything asks for what a request of each other kind asks
/// for when its fields are left empty, in the order of the kinds.
pub proof fn lemma_everything_is_each_kind(
    e1: String,
    e2: String,
    ms1: Seq<Metric>,
    ms2: Seq<Metric>,
)
    requires
        e1@.len() == 0,
        e2@.len() == 0,
        requested(Commands::BinarySize { example: e1 }, false, ms1),
        requested(Commands::CompileTime { example: e2 }, false, ms2),
    ensures
        requested(Commands::All, true, ms1 + ms2),
{
    let ms = ms1 + ms2;
    assert(ms[0] == ms1[0]);
    assert(ms[1] == ms2[0]);
}

/// A request for one measurement asks for exactly that measurement, of the
/// example it names (of "breakout" where it names none), with 8 jobs for a
/// build time; whether everything may be taken apart does not matter.
pub proof fn lemma_single_request_keeps_example(example: String, recur: bool, ms: Seq<Metric>)
    ensures
        requested(Commands::BinarySize { example }, recur, ms) ==> {
            &&& ms.len() == 1
            &&& ms[0] matches Metric::BinarySize(b)
            &&& example@.len() > 0 ==> b.example_name@ == example@
            &&& example@.len() == 0 ==> b.example_name@ == "breakout"@
        },
        requested(Commands::CompileTime { example }, recur, ms) ==> {
            &&& ms.len() == 1
            &&& ms[0] matches Metric::CompileTime(c)
            &&& c.nb_jobs == 8
            &&& example@.len() > 0 ==> c.example_name@ == example@
            &&& example@.len() == 0 ==> c.example_name@ == "breakout"@
        },
{
}

/// Asking for everything asks for the size of "breakout" and its build time
/// with 8 jobs, in that order; not taken apart, it asks for nothing.
pub proof fn lemma_everything_requested(ms: Seq<Metric>)
    ensures
        requested(Commands::All, true, ms) ==> {
            &&& ms.len() == 2
            &&& ms[0] matches Metric::BinarySize(b) && b.example_name@ == "breakout"@
            &&& ms[1] matches Metric::CompileTime(c) && c.example_name@ == "breakout"@ && c.nb_jobs
                == 8
        },
        requested(Commands::All, false, ms) ==> ms.len() == 0,
{
}

impl Commands {
    /// Every kind of request, in order, with its fields left empty.
    pub fn all_kinds() -> (kinds: Vec<Commands>)
        ensures
            kinds@.len() == 3,
            kinds@[0] matches Commands::BinarySize { example } && example@.len() == 0,
            kinds@[1] matches Commands::CompileTime { example } && example@.len() == 0,
            kinds@[2] is All,
    {
        let mut kinds: Vec<Commands> = Vec::new();
        kinds.push(Commands::BinarySize { example: String::new() });
        kinds.push(Commands::CompileTime { example: String::new() });
        kinds.push(Commands::All);
        kinds
    }

    /// The measurements asked for. A request of everything asks for what each
    /// other kind of request asks for with its defaults, where `recur` is set,
    /// and for nothing otherwise.
    pub fn to_metrics(self, recur: bool) -> (metrics: Vec<Metric>)
        ensures
            requested(self, recur, metrics@),
            match self {
                Commands::CompileTime { example } => {
                    &&& metrics@.len() == 1
                    &&& metrics@[0] matches Metric::CompileTime(c) && c.nb_jobs == 8 && (
                    example@.len() > 0 ==> c.example_name@ == example@)
                },
                Commands::BinarySize { example } => {
                    &&& metrics@.len() == 1
                    &&& metrics@[0] matches Metric::BinarySize(b) && (example@.len() > 0
                        ==> b.example_name@ == example@)
                },
                Commands::All => true,
            },
        decreases (if recur {
            1int
        } else {
            0int
        }),
    {
        match self {
            Commands::BinarySize { example } => {
                let mut metrics: Vec<Metric> = Vec::new();
                metrics.push(Metric::BinarySize(BinarySize::on(example)));
                metrics
            },
            Commands::CompileTime { example } => {
                let mut metrics: Vec<Metric> = Vec::new();
                metrics.push(Metric::CompileTime(CompileTime::on(example, 0)));
                metrics
            },
            Commands::All => {
                let mut metrics: Vec<Metric> = Vec::new();
                if recur {
                    let mut kinds = Commands::all_kinds();
                    let third = kinds.pop();
                    let second = kinds.pop();
                    let first = kinds.pop();
                    match (first, second, third) {
                        (Some(a), Some(b), Some(c)) => {
                            let mut ma = a.to_metrics(false);
                            let mut mb = b.to_metrics(false);
                            let mut mc = c.to_metrics(false);
                            metrics.append(&mut ma);
                            metrics.append(&mut mb);
                            metrics.append(&mut mc);
                        },
                        _ => {},
                    }
                }
                metrics
            },
        }
    }
}

impl Metrics for Metric {
    /// The files that the measurement leaves behind.
    fn artifacts(&self) -> (files: Vec<(String, String)>)
        ensures
            match self {
                Metric::BinarySize(_) => files@.len() == 0,
                Metric::CompileTime(m) => artifacts_view(files@) == seq![
                    ("compile-time.stats"@, compile_time::export_file(m.nb_jobs)),
                ],
                Metric::CrateCompileTime(m) => artifacts_view(files@) == seq![
                    ("crate-compile-time.stats"@, crate_compile_time::stats_file(m.nb_jobs)),
                ],
            },
    {
        match self {
            Metric::BinarySize(m) => m.artifacts(),
            Metric::CompileTime(m) => m.artifacts(),
            Metric::CrateCompileTime(m) => m.artifacts(),
        }
    }
}

} // verus!
