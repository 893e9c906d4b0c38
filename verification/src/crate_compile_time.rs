//! Build time of each crate of the workspace, from `cargo`'s JSON timings.
use vstd::prelude::*;

use crate::compile_time::suffixed;
use crate::extremes::{max_of, min_of, seq_max, seq_min};
use crate::text::{
    decimal, digit_values, digits_value, has_prefix, lemma_decimal_reads_back, push_decimal,
    starts_with,
};
use crate::Metrics;
use crate::{artifacts_view, entries_view, texts};

verus! {

/// How many clean builds are timed.
pub const MEASURED_BUILDS: usize = 10;

/// The number of parallel jobs used when none is given.
pub open spec fn default_crate_jobs() -> u32 {
    16
}

/// The number of jobs chosen for `nb_jobs`: the default where it is 0.
pub open spec fn crate_jobs_or_default(nb_jobs: u32) -> u32 {
    if nb_jobs == 0 {
        default_crate_jobs()
    } else {
        nb_jobs
    }
}

/// Choosing the number of jobs again changes nothing.
pub proof fn lemma_crate_jobs_choice_stable(nb_jobs: u32)
    ensures
        crate_jobs_or_default(crate_jobs_or_default(nb_jobs)) == crate_jobs_or_default(nb_jobs),
        crate_jobs_or_default(nb_jobs) != 0,
{
}

/// The arguments of `cargo` for a build that reports its timings as JSON.
pub open spec fn timed_build_args(nb_jobs: u32) -> Seq<Seq<char>> {
    seq![
        "+nightly"@,
        "build"@,
        "--jobs"@,
        decimal(nb_jobs as nat),
        "--release"@,
        "-Z"@,
        "unstable-options"@,
        "--timings=json"@,
    ]
}

/// The file where the timings of all crates are kept.
pub open spec fn stats_file(nb_jobs: u32) -> Seq<char> {
    "crate-stats-"@ + decimal(nb_jobs as nat) + ".json"@
}

/// The common beginning of the names of this measurement's metrics.
pub open spec fn metric_key(family: Seq<char>, arch: Seq<char>, nb_jobs: u32) -> Seq<char> {
    "crate-compile-time-"@ + family + "-"@ + arch + "-"@ + decimal(nb_jobs as nat)
}

/// Timings are kept for the packages whose id begins with this.
pub open spec fn local_package_prefix() -> Seq<char> {
    "path"@
}

/// The time it takes to build each crate of the workspace.
pub struct CrateCompileTime {
    pub nb_jobs: u32,
}

impl CrateCompileTime {
    /// Measures with `nb_jobs` jobs (16 where it is 0).
    pub fn on(nb_jobs: u32) -> (r: Self)
        ensures
            r.nb_jobs == crate_jobs_or_default(nb_jobs),
    {
        Self {
            nb_jobs: if nb_jobs == 0 {
                16
            } else {
                nb_jobs
            },
        }
    }

    /// The arguments of `cargo` for a build that reports its timings.
    pub fn timed_build_args(&self) -> (args: Vec<String>)
        ensures
            texts(args@) == timed_build_args(self.nb_jobs),
    {
        let mut jobs = String::new();
        push_decimal(&mut jobs, self.nb_jobs as u64);
        let mut args: Vec<String> = Vec::new();
        args.push("+nightly".to_owned());
        args.push("build".to_owned());
        args.push("--jobs".to_owned());
        args.push(jobs);
        args.push("--release".to_owned());
        args.push("-Z".to_owned());
        args.push("unstable-options".to_owned());
        args.push("--timings=json".to_owned());
        assert(texts(args@) =~= timed_build_args(self.nb_jobs));
        args
    }

    /// The file where the timings of all crates are kept.
    pub fn stats_file(&self) -> (s: String)
        ensures
            s@ == stats_file(self.nb_jobs),
    {
        let mut s = "crate-stats-".to_owned();
        push_decimal(&mut s, self.nb_jobs as u64);
        s.append(".json");
        s
    }

    /// The common beginning of the names of the metrics, on the platform
    /// `family` and `arch`.
    pub fn metric_key(&self, family: &str, arch: &str) -> (s: String)
        ensures
            s@ == metric_key(family@, arch@, self.nb_jobs),
    {
        let mut s = "crate-compile-time-".to_owned();
        s.append(family);
        s.append("-");
        s.append(arch);
        s.append("-");
        push_decimal(&mut s, self.nb_jobs as u64);
        s
    }

    /// The metrics of all `crates`, on the platform `family` and `arch`.
    pub fn collect_from(&self, family: &str, arch: &str, crates: &Vec<CrateSample>) -> (entries:
        Vec<(String, u64)>)
        requires
            forall|i: int| 0 <= i < crates.len() ==> (#[trigger] crates[i]).is_complete(),
        ensures
            entries_view(entries@) == all_crate_entries(
                metric_key(family@, arch@, self.nb_jobs),
                crates@,
            ),
    {
        let key = self.metric_key(family, arch);
        let mut entries: Vec<(String, u64)> = Vec::new();
        let mut i: usize = 0;
        while i < crates.len()
            invariant
                0 <= i <= crates.len(),
                key@ == metric_key(family@, arch@, self.nb_jobs),
                forall|j: int| 0 <= j < crates.len() ==> (#[trigger] crates[j]).is_complete(),
                entries_view(entries@) == all_crate_entries(key@, crates@.take(i as int)),
            decreases crates.len() - i,
        {
            let ghost before = entries@;
            let mut more = crates[i].entries(&key);
            let ghost added = more@;
            entries.append(&mut more);
            assert(crates@.take(i + 1).drop_last() =~= crates@.take(i as int));
            assert(entries_view(entries@) =~= entries_view(before) + entries_view(added));
            i = i + 1;
        }
        assert(crates@.take(crates.len() as int) =~= crates@);
        entries
    }
}

impl Metrics for CrateCompileTime {
    /// The file of all timings, kept as "crate-compile-time.stats".
    fn artifacts(&self) -> (files: Vec<(String, String)>)
        ensures
            artifacts_view(files@) == seq![
                ("crate-compile-time.stats"@, stats_file(self.nb_jobs)),
            ],
    {
        let mut files: Vec<(String, String)> = Vec::new();
        files.push(("crate-compile-time.stats".to_owned(), self.stats_file()));
        assert(artifacts_view(files@) =~= seq![
            ("crate-compile-time.stats"@, stats_file(self.nb_jobs)),
        ]);
        files
    }
}

/// Mean, median and standard deviation of some durations, in whole
/// milliseconds.
#[derive(Clone, Copy, Debug, PartialEq, Eq)]
pub struct TimeSummary {
    pub mean: u64,
    pub median: u64,
    pub std_dev: u64,
}

/// What was measured of one crate over all builds: the duration of each
/// build of the crate and the time until its metadata was ready, in whole
/// milliseconds, and their summaries.
pub struct CrateSample {
    pub name: String,
    pub durations: Vec<u64>,
    pub rmeta_times: Vec<u64>,
    pub duration_summary: TimeSummary,
    pub rmeta_summary: TimeSummary,
}

/// The metrics of one crate, named after `key`.
pub open spec fn crate_entries(key: Seq<char>, c: CrateSample) -> Seq<(Seq<char>, u64)> {
    let base = key + "."@ + c.name@;
    seq![
        (base + ".mean"@, c.duration_summary.mean),
        (base + ".median"@, c.duration_summary.median),
        (base + ".min"@, seq_min(c.durations@)),
        (base + ".max"@, seq_max(c.durations@)),
        (base + ".std_dev"@, c.duration_summary.std_dev),
        (base + ".rmeta-mean"@, c.rmeta_summary.mean),
        (base + ".rmeta-median"@, c.rmeta_summary.median),
        (base + ".rmeta-min"@, seq_min(c.rmeta_times@)),
        (base + ".rmeta-max"@, seq_max(c.rmeta_times@)),
        (base + ".rmeta-std_dev"@, c.rmeta_summary.std_dev),
    ]
}

/// The metrics of all crates, crate after crate.
pub open spec fn all_crate_entries(key: Seq<char>, cs: Seq<CrateSample>) -> Seq<(Seq<char>, u64)>
    decreases cs.len(),
{
    if cs.len() == 0 {
        Seq::empty()
    } else {
        all_crate_entries(key, cs.drop_last()) + crate_entries(key, cs.last())
    }
}

impl CrateSample {
    /// Whether at least one build was measured.
    pub open spec fn is_complete(&self) -> bool {
        self.durations.len() > 0 && self.rmeta_times.len() > 0
    }

    /// The metrics of this crate, named after `key`.
    pub fn entries(&self, key: &String) -> (entries: Vec<(String, u64)>)
        requires
            self.is_complete(),
        ensures
            entries_view(entries@) == crate_entries(key@, *self),
    {
        let mut base = key.clone();
        base.append(".");
        base.append(self.name.as_str());
        let mut entries: Vec<(String, u64)> = Vec::new();
        entries.push((suffixed(&base, ".mean"), self.duration_summary.mean));
        entries.push((suffixed(&base, ".median"), self.duration_summary.median));
        entries.push((suffixed(&base, ".min"), min_of(&self.durations)));
        entries.push((suffixed(&base, ".max"), max_of(&self.durations)));
        entries.push((suffixed(&base, ".std_dev"), self.duration_summary.std_dev));
        entries.push((suffixed(&base, ".rmeta-mean"), self.rmeta_summary.mean));
        entries.push((suffixed(&base, ".rmeta-median"), self.rmeta_summary.median));
        entries.push((suffixed(&base, ".rmeta-min"), min_of(&self.rmeta_times)));
        entries.push((suffixed(&base, ".rmeta-max"), max_of(&self.rmeta_times)));
        entries.push((suffixed(&base, ".rmeta-std_dev"), self.rmeta_summary.std_dev));
        assert(entries_view(entries@) =~= crate_entries(key@, *self));
        entries
    }
}

/// Whether no two groups have the same name.
pub open spec fn distinct_names<T>(groups: Seq<(Seq<char>, Seq<T>)>) -> bool {
    forall|i: int, j: int|
        0 <= i < groups.len() && 0 <= j < groups.len() && i != j ==> #[trigger] groups[i].0
            != #[trigger] groups[j].0
}

/// `after` is `before` with `t` added at the end of the group named `name`,
/// a new group at the end where there was none.
pub open spec fn added_to_group<T>(
    before: Seq<(Seq<char>, Seq<T>)>,
    after: Seq<(Seq<char>, Seq<T>)>,
    name: Seq<char>,
    t: T,
) -> bool {
    &&& forall|i: int|
        0 <= i < before.len() && #[trigger] before[i].0 == name ==> after == before.update(
            i,
            (name, before[i].1.push(t)),
        )
    &&& (forall|i: int| 0 <= i < before.len() ==> #[trigger] before[i].0 != name) ==> after
        == before.push((name, seq![t]))
}

/// How many timings the groups hold in all.
pub open spec fn timings_count<T>(groups: Seq<(Seq<char>, Seq<T>)>) -> nat
    decreases groups.len(),
{
    if groups.len() == 0 {
        0
    } else {
        timings_count(groups.drop_last()) + groups.last().1.len()
    }
}

/// Replacing one group changes the count by the difference of the sizes.
proof fn lemma_count_update<T>(groups: Seq<(Seq<char>, Seq<T>)>, i: int, g: (Seq<char>, Seq<T>))
    requires
        0 <= i < groups.len(),
    ensures
        timings_count(groups.update(i, g)) + groups[i].1.len() == timings_count(groups)
            + g.1.len(),
    decreases groups.len(),
{
    let n = groups.len() - 1;
    if i < n {
        lemma_count_update(groups.drop_last(), i, g);
        assert(groups.update(i, g).drop_last() =~= groups.drop_last().update(i, g));
    } else {
        assert(groups.update(i, g).drop_last() =~= groups.drop_last());
    }
}

/// Each timing that is kept adds exactly one timing to the groups: none is
/// lost and none is counted twice.
pub proof fn lemma_recording_adds_one<T>(
    before: Seq<(Seq<char>, Seq<T>)>,
    after: Seq<(Seq<char>, Seq<T>)>,
    name: Seq<char>,
    t: T,
)
    requires
        added_to_group(before, after, name, t),
    ensures
        timings_count(after) == timings_count(before) + 1,
{
    if exists|i: int| 0 <= i < before.len() && #[trigger] before[i].0 == name {
        let i = choose|i: int| 0 <= i < before.len() && #[trigger] before[i].0 == name;
        lemma_count_update(before, i, (name, before[i].1.push(t)));
    } else {
        assert(after == before.push((name, seq![t])));
        assert(after.drop_last() =~= before);
    }
}

/// No number of jobs given means 16 jobs; any other number is kept.
pub proof fn lemma_crate_jobs_chosen(nb_jobs: u32)
    ensures
        nb_jobs == 0 ==> crate_jobs_or_default(nb_jobs) == 16,
        nb_jobs != 0 ==> crate_jobs_or_default(nb_jobs) == nb_jobs,
{
}

/// The timed build runs nightly `cargo build` with the decimal number of
/// jobs, in release mode, reporting its timings as JSON.
pub proof fn lemma_timed_build_args_text(nb_jobs: u32)
    ensures
        timed_build_args(nb_jobs) == seq![
            "+nightly"@,
            "build"@,
            "--jobs"@,
            decimal(nb_jobs as nat),
            "--release"@,
            "-Z"@,
            "unstable-options"@,
            "--timings=json"@,
        ],
        digits_value(digit_values(timed_build_args(nb_jobs)[3])) == nb_jobs,
{
    lemma_decimal_reads_back(nb_jobs as nat);
}

/// The file of all timings and the metrics are named after the number of
/// jobs (and the platform), for every number of jobs.
pub proof fn lemma_crate_names_text(family: Seq<char>, arch: Seq<char>, nb_jobs: u32)
    ensures
        stats_file(nb_jobs) == "crate-stats-"@ + decimal(nb_jobs as nat) + ".json"@,
        metric_key(family, arch, nb_jobs) == "crate-compile-time-"@ + family + "-"@ + arch
            + "-"@ + decimal(nb_jobs as nat),
        local_package_prefix() == "path"@,
{
}

/// Each metric of a crate is named after the crate and the statistic it
/// carries, and carries that statistic of that crate.
pub proof fn lemma_crate_entries_named(key: Seq<char>, c: CrateSample)
    ensures
        crate_entries(key, c).len() == 10,
        crate_entries(key, c)[0] == (key + "."@ + c.name@ + ".mean"@, c.duration_summary.mean),
        crate_entries(key, c)[1] == (key + "."@ + c.name@ + ".median"@, c.duration_summary.median),
        crate_entries(key, c)[2] == (key + "."@ + c.name@ + ".min"@, seq_min(c.durations@)),
        crate_entries(key, c)[3] == (key + "."@ + c.name@ + ".max"@, seq_max(c.durations@)),
        crate_entries(key, c)[4] == (key + "."@ + c.name@ + ".std_dev"@, c.duration_summary.std_dev),
        crate_entries(key, c)[5] == (key + "."@ + c.name@ + ".rmeta-mean"@, c.rmeta_summary.mean),
        crate_entries(key, c)[6] == (key + "."@ + c.name@ + ".rmeta-median"@, c.rmeta_summary.median),
        crate_entries(key, c)[7] == (key + "."@ + c.name@ + ".rmeta-min"@, seq_min(c.rmeta_times@)),
        crate_entries(key, c)[8] == (key + "."@ + c.name@ + ".rmeta-max"@, seq_max(c.rmeta_times@)),
        crate_entries(key, c)[9] == (
            key + "."@ + c.name@ + ".rmeta-std_dev"@,
            c.rmeta_summary.std_dev,
        ),
{
}

/// Every crate contributes its ten metrics, crate after crate: the metrics
/// of crate `i` are the entries `10 * i` to `10 * i + 9`.
pub proof fn lemma_all_crates_reported(key: Seq<char>, cs: Seq<CrateSample>)
    ensures
        all_crate_entries(key, cs).len() == 10 * cs.len(),
        forall|i: int, j: int|
            0 <= i < cs.len() && 0 <= j < 10 ==> all_crate_entries(key, cs)[10 * i + j]
                == #[trigger] crate_entries(key, cs[i])[j],
    decreases cs.len(),
{
    if cs.len() > 0 {
        let init = cs.drop_last();
        lemma_all_crates_reported(key, init);
        lemma_crate_entries_named(key, cs.last());
        let all = all_crate_entries(key, cs);
        let n = init.len();
        assert forall|i: int, j: int| 0 <= i < cs.len() && 0 <= j < 10 implies all[10 * i + j]
            == #[trigger] crate_entries(key, cs[i])[j] by {
            if i < n {
                assert(init[i] == cs[i]);
                assert(10 * i + j < 10 * n) by (nonlinear_arith)
                    requires
                        i < n,
                        j < 10,
                ;
                assert(all_crate_entries(key, init)[10 * i + j] == crate_entries(key, init[i])[j]);
            } else {
                assert(i == n);
                assert(cs[i] == cs.last());
            }
        }
    }
}

/// The timing added to a group ends that group, which is named as asked.
pub proof fn lemma_added_timing_ends_its_group<T>(
    before: Seq<(Seq<char>, Seq<T>)>,
    after: Seq<(Seq<char>, Seq<T>)>,
    name: Seq<char>,
    t: T,
)
    requires
        added_to_group(before, after, name, t),
    ensures
        exists|i: int|
            0 <= i < after.len() && (#[trigger] after[i]).0 == name && after[i].1.len() > 0
                && after[i].1.last() == t,
        forall|i: int|
            0 <= i < before.len() && (#[trigger] before[i]).0 != name ==> after[i] == before[i],
{
    if exists|i: int| 0 <= i < before.len() && #[trigger] before[i].0 == name {
        let i = choose|i: int| 0 <= i < before.len() && #[trigger] before[i].0 == name;
        assert(after[i].0 == name);
    } else {
        let i = before.len() as int;
        assert(after[i].0 == name);
        assert forall|k: int|
            0 <= k < before.len() && (#[trigger] before[k]).0 != name implies after[k]
            == before[k] by {
            assert(after == before.push((name, seq![t])));
        }
    }
}

/// The timings of the workspace's own crates, grouped by crate name; the
/// groups keep the order in which their crates were first seen.
pub struct TimingGroups<T> {
    groups: Vec<(String, Vec<T>)>,
}

impl<T> View for TimingGroups<T> {
    type V = Seq<(Seq<char>, Seq<T>)>;

    closed spec fn view(&self) -> Seq<(Seq<char>, Seq<T>)> {
        self.groups@.map_values(|g: (String, Vec<T>)| (g.0@, g.1@))
    }
}

impl<T> TimingGroups<T> {
    #[verifier::type_invariant]
    spec fn names_are_distinct(self) -> bool {
        distinct_names(self@)
    }

    /// No timings yet.
    pub fn new() -> (r: Self)
        ensures
            r@ == Seq::<(Seq<char>, Seq<T>)>::empty(),
    {
        let r = TimingGroups { groups: Vec::new() };
        assert(r@ =~= Seq::<(Seq<char>, Seq<T>)>::empty());
        r
    }

    /// Records `timing` of the crate `target` of the package `package_id`:
    /// kept only for the workspace's own packages, at the end of the crate's
    /// group.
    pub fn record(&mut self, package_id: &str, target: String, timing: T)
        ensures
            distinct_names(final(self)@),
            has_prefix(package_id@, local_package_prefix()) ==> added_to_group(
                old(self)@,
                final(self)@,
                target@,
                timing,
            ),
            !has_prefix(package_id@, local_package_prefix()) ==> final(self)@ == old(self)@,
    {
        proof {
            use_type_invariant(&*self);
        }
        if !starts_with(package_id, "path") {
            return;
        }
        let ghost before = self@;
        let mut groups: Vec<(String, Vec<T>)> = Vec::new();
        std::mem::swap(&mut groups, &mut self.groups);
        let mut i: usize = 0;
        let mut found = false;
        while i < groups.len() && !found
            invariant
                0 <= i <= groups.len(),
                groups@.map_values(|g: (String, Vec<T>)| (g.0@, g.1@)) == before,
                forall|k: int| 0 <= k < i ==> (#[trigger] before[k]).0 != target@,
                found ==> i < groups.len() && before[i as int].0 == target@,
            decreases groups.len() - i + (if found { 0int } else { 1int }),
        {
            if groups[i].0 == target {
                found = true;
            } else {
                i = i + 1;
            }
        }
        if found {
            let (name, mut ts) = groups.remove(i);
            ts.push(timing);
            groups.insert(i, (name, ts));
            let ghost after = groups@.map_values(|g: (String, Vec<T>)| (g.0@, g.1@));
            assert(after =~= before.update(i as int, (target@, before[i as int].1.push(timing))));
            assert forall|k: int| 0 <= k < before.len() && #[trigger] before[k].0 == target@ implies k
                == i by {
                if k != i {
                    assert(before[k].0 != before[i as int].0);
                }
            }
            assert forall|a: int, b: int|
                0 <= a < after.len() && 0 <= b < after.len() && a != b implies #[trigger] after[a].0
                != #[trigger] after[b].0 by {
                assert(after[a].0 == before[a].0);
                assert(after[b].0 == before[b].0);
            }
        } else {
            let mut ts: Vec<T> = Vec::new();
            ts.push(timing);
            groups.push((target, ts));
            let ghost after = groups@.map_values(|g: (String, Vec<T>)| (g.0@, g.1@));
            assert(after =~= before.push((target@, seq![timing])));
            assert forall|a: int, b: int|
                0 <= a < after.len() && 0 <= b < after.len() && a != b implies #[trigger] after[a].0
                != #[trigger] after[b].0 by {
                if a < before.len() {
                    assert(after[a].0 == before[a].0);
                }
                if b < before.len() {
                    assert(after[b].0 == before[b].0);
                }
            }
        }
        self.groups = groups;
    }

    /// The groups, as (crate name, its timings in the order recorded).
    pub fn into_groups(self) -> (groups: Vec<(String, Vec<T>)>)
        ensures
            groups@.map_values(|g: (String, Vec<T>)| (g.0@, g.1@)) == self@,
            distinct_names(self@),
    {
        proof {
            use_type_invariant(&self);
        }
        self.groups
    }
}

} // verus!
