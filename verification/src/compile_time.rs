//! Build time of an example, measured with `hyperfine`.
use vstd::prelude::*;

use crate::binary_size::{default_example_name, example_or_default};
use crate::text::{decimal, digit_values, digits_value, lemma_decimal_reads_back, push_decimal};
use crate::Metrics;
use crate::{artifacts_view, entries_view, texts};

verus! {

/// The number of parallel jobs used when none is given.
pub open spec fn default_compile_jobs() -> u32 {
    8
}

/// The number of jobs chosen for `nb_jobs`: the default where it is 0.
pub open spec fn jobs_or_default(nb_jobs: u32) -> u32 {
    if nb_jobs == 0 {
        default_compile_jobs()
    } else {
        nb_jobs
    }
}

/// Choosing the number of jobs again changes nothing.
pub proof fn lemma_jobs_choice_stable(nb_jobs: u32)
    ensures
        jobs_or_default(jobs_or_default(nb_jobs)) == jobs_or_default(nb_jobs),
        jobs_or_default(nb_jobs) != 0,
{
}

/// The text of a number of jobs.
pub open spec fn jobs_text(n: u32) -> Seq<char> {
    decimal(n as nat)
}

/// The `cargo` command line whose duration is measured.
pub open spec fn build_command(nb_jobs: u32, example: Seq<char>) -> Seq<char> {
    "cargo build --jobs "@ + jobs_text(nb_jobs) + " --release --example "@ + example
}

/// The file into which `hyperfine` exports its results.
pub open spec fn export_file(nb_jobs: u32) -> Seq<char> {
    "build-"@ + jobs_text(nb_jobs) + ".json"@
}

/// The command that `hyperfine` runs before each measured build.
pub open spec fn prepare_command() -> Seq<char> {
    "cargo clean; sleep 2"@
}

/// The arguments of `hyperfine` for one measurement.
pub open spec fn hyperfine_args(nb_jobs: u32, example: Seq<char>) -> Seq<Seq<char>> {
    seq![
        "--export-json"@,
        export_file(nb_jobs),
        "--prepare"@,
        prepare_command(),
        build_command(nb_jobs, example),
    ]
}

/// The common beginning of the names of this measurement's metrics.
pub open spec fn metric_key(family: Seq<char>, arch: Seq<char>, nb_jobs: u32) -> Seq<char> {
    "compile-time-"@ + family + "-"@ + arch + "-"@ + jobs_text(nb_jobs)
}

/// The metrics of one measurement, named after `key`.
pub open spec fn run_entries(key: Seq<char>, run: RunTimes) -> Seq<(Seq<char>, u64)> {
    seq![
        (key + ".mean"@, run.mean),
        (key + ".stddev"@, run.stddev),
        (key + ".median"@, run.median),
        (key + ".user"@, run.user),
        (key + ".system"@, run.system),
        (key + ".min"@, run.min),
        (key + ".max"@, run.max),
    ]
}

/// No number of jobs given means 8 jobs; any other number is kept.
pub proof fn lemma_jobs_chosen(nb_jobs: u32)
    ensures
        nb_jobs == 0 ==> jobs_or_default(nb_jobs) == 8,
        nb_jobs != 0 ==> jobs_or_default(nb_jobs) == nb_jobs,
{
}

/// The measured command is `cargo build` with `--jobs` and the decimal
/// number of jobs, in release mode, of the example; for every number of jobs.
pub proof fn lemma_build_command_text(nb_jobs: u32, example: Seq<char>)
    ensures
        build_command(nb_jobs, example) == "cargo build --jobs "@ + decimal(nb_jobs as nat)
            + " --release --example "@ + example,
{
}

/// The number written after `--jobs ` in the measured command reads back as
/// the number of jobs, whatever it is, and the example ends the command.
pub proof fn lemma_build_command_names_jobs(nb_jobs: u32, example: Seq<char>)
    ensures
        build_command(nb_jobs, example).take(19) == "cargo build --jobs "@,
        digits_value(
            digit_values(
                build_command(nb_jobs, example).subrange(19, 19 + decimal(nb_jobs as nat).len() as int),
            ),
        ) == nb_jobs,
        build_command(nb_jobs, example).skip(
            (build_command(nb_jobs, example).len() - example.len()) as int,
        ) == example,
{
    reveal_strlit("cargo build --jobs ");
    reveal_strlit(" --release --example ");
    let c = build_command(nb_jobs, example);
    let d = decimal(nb_jobs as nat);
    lemma_build_command_text(nb_jobs, example);
    assert(c.take(19) =~= "cargo build --jobs "@);
    assert(c.subrange(19, 19 + d.len() as int) =~= d);
    assert(c.skip((c.len() - example.len()) as int) =~= example);
    lemma_decimal_reads_back(nb_jobs as nat);
}

/// The exported file is named after the number of jobs, for every number.
pub proof fn lemma_export_file_text(nb_jobs: u32)
    ensures
        export_file(nb_jobs) == "build-"@ + decimal(nb_jobs as nat) + ".json"@,
{
}

/// `hyperfine` exports to the file named after the jobs, prepares each run
/// by cleaning and waiting, and measures the build command.
pub proof fn lemma_hyperfine_args_text(nb_jobs: u32, example: Seq<char>)
    ensures
        hyperfine_args(nb_jobs, example) == seq![
            "--export-json"@,
            "build-"@ + decimal(nb_jobs as nat) + ".json"@,
            "--prepare"@,
            "cargo clean; sleep 2"@,
            "cargo build --jobs "@ + decimal(nb_jobs as nat) + " --release --example "@ + example,
        ],
{
}

/// The metrics are named after the platform and the number of jobs.
pub proof fn lemma_metric_key_text(family: Seq<char>, arch: Seq<char>, nb_jobs: u32)
    ensures
        metric_key(family, arch, nb_jobs) == "compile-time-"@ + family + "-"@ + arch + "-"@
            + decimal(nb_jobs as nat),
{
}

/// Each metric of a measurement is named after the time it carries.
pub proof fn lemma_run_entries_named(key: Seq<char>, run: RunTimes)
    ensures
        run_entries(key, run).len() == 7,
        run_entries(key, run)[0] == (key + ".mean"@, run.mean),
        run_entries(key, run)[1] == (key + ".stddev"@, run.stddev),
        run_entries(key, run)[2] == (key + ".median"@, run.median),
        run_entries(key, run)[3] == (key + ".user"@, run.user),
        run_entries(key, run)[4] == (key + ".system"@, run.system),
        run_entries(key, run)[5] == (key + ".min"@, run.min),
        run_entries(key, run)[6] == (key + ".max"@, run.max),
{
}

/// The times reported by `hyperfine` for the first command it ran, in
/// whole milliseconds.
#[derive(Clone, Copy, Debug, PartialEq, Eq)]
pub struct RunTimes {
    pub mean: u64,
    pub stddev: u64,
    pub median: u64,
    pub user: u64,
    pub system: u64,
    pub min: u64,
    pub max: u64,
}

/// The time it takes to build one example with a given number of jobs.
pub struct CompileTime {
    pub example_name: String,
    pub nb_jobs: u32,
}

impl CompileTime {
    /// Measures `example_name` (the default example where it is empty) with
    /// `nb_jobs` jobs (8 where it is 0).
    pub fn on(example_name: String, nb_jobs: u32) -> (r: Self)
        ensures
            r.example_name@ == example_or_default(example_name@),
            r.nb_jobs == jobs_or_default(nb_jobs),
    {
        Self {
            example_name: if example_name.as_str().is_empty() {
                default_example_name()
            } else {
                example_name
            },
            nb_jobs: if nb_jobs == 0 {
                8
            } else {
                nb_jobs
            },
        }
    }

    /// The `cargo` command line whose duration is measured.
    pub fn build_command(&self) -> (s: String)
        ensures
            s@ == build_command(self.nb_jobs, self.example_name@),
    {
        let mut s = "cargo build --jobs ".to_owned();
        push_decimal(&mut s, self.nb_jobs as u64);
        s.append(" --release --example ");
        s.append(self.example_name.as_str());
        s
    }

    /// The file into which `hyperfine` exports its results.
    pub fn export_file(&self) -> (s: String)
        ensures
            s@ == export_file(self.nb_jobs),
    {
        let mut s = "build-".to_owned();
        push_decimal(&mut s, self.nb_jobs as u64);
        s.append(".json");
        s
    }

    /// The arguments of `hyperfine` for the measurement.
    pub fn hyperfine_args(&self) -> (args: Vec<String>)
        ensures
            texts(args@) == hyperfine_args(self.nb_jobs, self.example_name@),
    {
        let mut args: Vec<String> = Vec::new();
        args.push("--export-json".to_owned());
        args.push(self.export_file());
        args.push("--prepare".to_owned());
        args.push("cargo clean; sleep 2".to_owned());
        args.push(self.build_command());
        assert(texts(args@) =~= hyperfine_args(self.nb_jobs, self.example_name@));
        args
    }

    /// The common beginning of the names of the metrics, on the platform
    /// `family` and `arch`.
    pub fn metric_key(&self, family: &str, arch: &str) -> (s: String)
        ensures
            s@ == metric_key(family@, arch@, self.nb_jobs),
    {
        let mut s = "compile-time-".to_owned();
        s.append(family);
        s.append("-");
        s.append(arch);
        s.append("-");
        push_decimal(&mut s, self.nb_jobs as u64);
        s
    }

    /// The metrics of the measurement whose times are `run`, on the platform
    /// `family` and `arch`.
    pub fn collect_from(&self, family: &str, arch: &str, run: RunTimes) -> (entries: Vec<
        (String, u64),
    >)
        ensures
            entries_view(entries@) == run_entries(metric_key(family@, arch@, self.nb_jobs), run),
    {
        let key = self.metric_key(family, arch);
        let mut entries: Vec<(String, u64)> = Vec::new();
        entries.push((suffixed(&key, ".mean"), run.mean));
        entries.push((suffixed(&key, ".stddev"), run.stddev));
        entries.push((suffixed(&key, ".median"), run.median));
        entries.push((suffixed(&key, ".user"), run.user));
        entries.push((suffixed(&key, ".system"), run.system));
        entries.push((suffixed(&key, ".min"), run.min));
        entries.push((suffixed(&key, ".max"), run.max));
        assert(entries_view(entries@) =~= run_entries(
            metric_key(family@, arch@, self.nb_jobs),
            run,
        ));
        entries
    }
}

/// `key` followed by `suffix`.
pub(crate) fn suffixed(key: &String, suffix: &str) -> (s: String)
    ensures
        s@ == key@ + suffix@,
{
    let mut s = key.clone();
    s.append(suffix);
    s
}

impl Metrics for CompileTime {
    /// The file exported by `hyperfine`, kept as "compile-time.stats".
    fn artifacts(&self) -> (files: Vec<(String, String)>)
        ensures
            artifacts_view(files@) == seq![("compile-time.stats"@, export_file(self.nb_jobs))],
    {
        let mut files: Vec<(String, String)> = Vec::new();
        files.push(("compile-time.stats".to_owned(), self.export_file()));
        assert(artifacts_view(files@) =~= seq![
            ("compile-time.stats"@, export_file(self.nb_jobs)),
        ]);
        files
    }
}

} // verus!
