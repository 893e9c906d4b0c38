use twitcher::binary_size::BinarySize;
use twitcher::commands::{Commands, Metric};
use twitcher::compile_time::{CompileTime, RunTimes};
use twitcher::crate_compile_time::{CrateCompileTime, CrateSample, TimeSummary, TimingGroups};
use twitcher::Metrics;

fn strings(v: &[&str]) -> Vec<String> {
    v.iter().map(|s| s.to_string()).collect()
}

#[test]
fn binary_size_defaults_to_breakout() {
    assert_eq!(BinarySize::on(String::new()).example_name, "breakout");
    assert_eq!(BinarySize::on("3d_scene".to_string()).example_name, "3d_scene");
}

#[test]
fn binary_size_build_args() {
    let m = BinarySize::on("sprite".to_string());
    assert_eq!(m.build_args(), strings(&["build", "--release", "--example", "sprite"]));
}

#[test]
fn binary_size_metric_name() {
    let m = BinarySize::on(String::new());
    let entries = m.collect_from("unix", "x86_64", 123456);
    assert_eq!(entries, vec![("native-unix-x86_64.size".to_string(), 123456)]);
}

#[test]
fn binary_size_has_no_artifacts() {
    assert!(BinarySize::on(String::new()).artifacts().is_empty());
}

#[test]
fn compile_time_defaults() {
    let m = CompileTime::on(String::new(), 0);
    assert_eq!(m.example_name, "breakout");
    assert_eq!(m.nb_jobs, 8);
    let m = CompileTime::on("lighting".to_string(), 3);
    assert_eq!(m.example_name, "lighting");
    assert_eq!(m.nb_jobs, 3);
}

#[test]
fn compile_time_command_lines() {
    let m = CompileTime::on("breakout".to_string(), 12);
    assert_eq!(m.build_command(), "cargo build --jobs 12 --release --example breakout");
    assert_eq!(m.export_file(), "build-12.json");
    assert_eq!(
        m.hyperfine_args(),
        strings(&[
            "--export-json",
            "build-12.json",
            "--prepare",
            "cargo clean; sleep 2",
            "cargo build --jobs 12 --release --example breakout",
        ])
    );
}

#[test]
fn compile_time_artifacts() {
    let m = CompileTime::on(String::new(), 0);
    assert_eq!(
        m.artifacts(),
        vec![("compile-time.stats".to_string(), "build-8.json".to_string())]
    );
}

#[test]
fn compile_time_metrics() {
    let m = CompileTime::on(String::new(), 4);
    assert_eq!(m.metric_key("unix", "aarch64"), "compile-time-unix-aarch64-4");
    let run = RunTimes { mean: 10, stddev: 1, median: 9, user: 30, system: 4, min: 8, max: 13 };
    let entries = m.collect_from("unix", "aarch64", run);
    let expected: Vec<(String, u64)> = vec![
        ("compile-time-unix-aarch64-4.mean".to_string(), 10),
        ("compile-time-unix-aarch64-4.stddev".to_string(), 1),
        ("compile-time-unix-aarch64-4.median".to_string(), 9),
        ("compile-time-unix-aarch64-4.user".to_string(), 30),
        ("compile-time-unix-aarch64-4.system".to_string(), 4),
        ("compile-time-unix-aarch64-4.min".to_string(), 8),
        ("compile-time-unix-aarch64-4.max".to_string(), 13),
    ];
    assert_eq!(entries, expected);
}

#[test]
fn crate_compile_time_defaults() {
    assert_eq!(CrateCompileTime::on(0).nb_jobs, 16);
    assert_eq!(CrateCompileTime::on(2).nb_jobs, 2);
}

#[test]
fn crate_compile_time_command_lines() {
    let m = CrateCompileTime::on(0);
    assert_eq!(
        m.timed_build_args(),
        strings(&[
            "+nightly",
            "build",
            "--jobs",
            "16",
            "--release",
            "-Z",
            "unstable-options",
            "--timings=json",
        ])
    );
    assert_eq!(m.stats_file(), "crate-stats-16.json");
    assert_eq!(
        m.artifacts(),
        vec![("crate-compile-time.stats".to_string(), "crate-stats-16.json".to_string())]
    );
    assert_eq!(m.metric_key("windows", "x86"), "crate-compile-time-windows-x86-16");
}

#[test]
fn crate_timings_keep_only_own_packages() {
    let mut groups: TimingGroups<u32> = TimingGroups::new();
    groups.record("path+file:///work/bevy_ecs#0.1.0", "bevy_ecs".to_string(), 1);
    groups.record("registry+https://github.com/rust-lang/crates.io-index#serde@1.0.0", "serde".to_string(), 2);
    groups.record("path+file:///work/bevy_app#0.1.0", "bevy_app".to_string(), 3);
    groups.record("path+file:///work/bevy_ecs#0.1.0", "bevy_ecs".to_string(), 4);
    assert_eq!(
        groups.into_groups(),
        vec![("bevy_ecs".to_string(), vec![1, 4]), ("bevy_app".to_string(), vec![3])]
    );
}

#[test]
fn crate_timings_start_empty() {
    let groups: TimingGroups<u32> = TimingGroups::new();
    assert!(groups.into_groups().is_empty());
}

#[test]
fn crate_metrics_of_samples() {
    let m = CrateCompileTime::on(1);
    let sample = CrateSample {
        name: "bevy_ecs".to_string(),
        durations: vec![1500, 1200, 1800],
        rmeta_times: vec![700, 900, 600],
        duration_summary: TimeSummary { mean: 1500, median: 1500, std_dev: 300 },
        rmeta_summary: TimeSummary { mean: 733, median: 700, std_dev: 152 },
    };
    let entries = m.collect_from("unix", "x86_64", &vec![sample]);
    let k = "crate-compile-time-unix-x86_64-1.bevy_ecs";
    let expected: Vec<(String, u64)> = vec![
        (format!("{k}.mean"), 1500),
        (format!("{k}.median"), 1500),
        (format!("{k}.min"), 1200),
        (format!("{k}.max"), 1800),
        (format!("{k}.std_dev"), 300),
        (format!("{k}.rmeta-mean"), 733),
        (format!("{k}.rmeta-median"), 700),
        (format!("{k}.rmeta-min"), 600),
        (format!("{k}.rmeta-max"), 900),
        (format!("{k}.rmeta-std_dev"), 152),
    ];
    assert_eq!(entries, expected);
}

#[test]
fn crate_metrics_of_no_crate() {
    let m = CrateCompileTime::on(0);
    assert!(m.collect_from("unix", "x86_64", &Vec::new()).is_empty());
}

fn describe(m: &Metric) -> String {
    match m {
        Metric::BinarySize(b) => format!("size {}", b.example_name),
        Metric::CompileTime(c) => format!("time {} {}", c.example_name, c.nb_jobs),
        Metric::CrateCompileTime(c) => format!("crates {}", c.nb_jobs),
    }
}

#[test]
fn commands_ask_for_one_metric() {
    let ms = Commands::BinarySize { example: "sprite".to_string() }.to_metrics(true);
    assert_eq!(ms.iter().map(describe).collect::<Vec<_>>(), vec!["size sprite"]);
    let ms = Commands::CompileTime { example: String::new() }.to_metrics(false);
    assert_eq!(ms.iter().map(describe).collect::<Vec<_>>(), vec!["time breakout 8"]);
}

#[test]
fn command_all_asks_for_each_kind_once() {
    let ms = Commands::All.to_metrics(true);
    assert_eq!(
        ms.iter().map(describe).collect::<Vec<_>>(),
        vec!["size breakout", "time breakout 8"]
    );
    assert!(Commands::All.to_metrics(false).is_empty());
}

#[test]
fn every_kind_of_command() {
    let kinds = Commands::all_kinds();
    assert_eq!(kinds.len(), 3);
    assert!(matches!(&kinds[0], Commands::BinarySize { example } if example.is_empty()));
    assert!(matches!(&kinds[1], Commands::CompileTime { example } if example.is_empty()));
    assert!(matches!(&kinds[2], Commands::All));
}

#[test]
fn metric_artifacts_follow_their_kind() {
    assert!(Metric::BinarySize(BinarySize::on(String::new())).artifacts().is_empty());
    assert_eq!(
        Metric::CrateCompileTime(CrateCompileTime::on(4)).artifacts(),
        vec![("crate-compile-time.stats".to_string(), "crate-stats-4.json".to_string())]
    );
}

#[test]
fn choosing_defaults_again_changes_nothing() {
    let once = CompileTime::on(String::new(), 0);
    let twice = CompileTime::on(once.example_name.clone(), once.nb_jobs);
    assert_eq!((once.example_name, once.nb_jobs), (twice.example_name, twice.nb_jobs));
    let once = CrateCompileTime::on(0);
    assert_eq!(CrateCompileTime::on(once.nb_jobs).nb_jobs, once.nb_jobs);
    let once = BinarySize::on(String::new());
    assert_eq!(BinarySize::on(once.example_name.clone()).example_name, once.example_name);
}

#[test]
fn each_kept_timing_is_counted_once() {
    let mut groups: TimingGroups<u8> = TimingGroups::new();
    let ids = ["path+a", "registry+b", "path+c", "path+a", "git+d", "path+c"];
    let names = ["a", "b", "c", "a", "d", "c"];
    for (i, (id, name)) in ids.iter().zip(names.iter()).enumerate() {
        groups.record(id, name.to_string(), i as u8);
    }
    let groups = groups.into_groups();
    let total: usize = groups.iter().map(|(_, ts)| ts.len()).sum();
    assert_eq!(total, 4);
}
