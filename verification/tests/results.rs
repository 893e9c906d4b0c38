use twitcher::results::{commit_time_ms, result_folders};
use twitcher::stats::{
    merge_metrics, metric_names, metric_series, metric_value, set_metric, time_order, value_range,
    Host,
    Rust, SeriesPoint, Stats,
};

fn run(commit: &str, commit_timestamp: u128, metrics: &[(&str, u64)]) -> Stats {
    Stats {
        metrics: metrics.iter().map(|(k, v)| (k.to_string(), *v)).collect(),
        commit: commit.to_string(),
        timestamp: 0,
        commit_timestamp,
        rust: Rust { stable: "1.80.0".to_string(), nightly: "1.82.0-nightly".to_string() },
        host: Host { hostname: "bench".to_string(), os_version: "Linux 6.1".to_string() },
    }
}

fn entries(v: &[(&str, u64)]) -> Vec<(String, u64)> {
    v.iter().map(|(k, x)| (k.to_string(), *x)).collect()
}

#[test]
fn later_metrics_win_when_merged() {
    let merged = merge_metrics(vec![
        entries(&[("a", 1), ("b", 2)]),
        entries(&[("c", 3), ("a", 4)]),
    ]);
    assert_eq!(merged, entries(&[("a", 4), ("b", 2), ("c", 3)]));
}

#[test]
fn merging_nothing_gives_nothing() {
    assert!(merge_metrics(Vec::new()).is_empty());
}

#[test]
fn metric_value_takes_the_last_entry() {
    let e = entries(&[("a", 1), ("b", 2), ("a", 3)]);
    assert_eq!(metric_value(&e, "a"), Some(3));
    assert_eq!(metric_value(&e, "b"), Some(2));
    assert_eq!(metric_value(&e, "c"), None);
    assert_eq!(run("x", 0, &[("m", 5)]).metric("m"), Some(5));
}

#[test]
fn time_order_is_stable() {
    assert_eq!(time_order(&vec![30, 10, 20, 10]), vec![1, 3, 2, 0]);
    assert_eq!(time_order(&vec![]), Vec::<usize>::new());
    assert_eq!(time_order(&vec![5, 5, 5]), vec![0, 1, 2]);
}

#[test]
fn series_is_ordered_by_commit_time() {
    let stats = vec![
        run("c3", 3000, &[("size", 30)]),
        run("c1", 1000, &[("size", 10), ("time", 1)]),
        run("c2", 2000, &[("size", 25)]),
    ];
    let series = metric_series(&stats, "size").unwrap();
    let seen: Vec<(u128, String, u64)> =
        series.iter().map(|p| (p.timestamp, p.commit.clone(), p.value)).collect();
    assert_eq!(
        seen,
        vec![
            (1000, "c1".to_string(), 10),
            (2000, "c2".to_string(), 25),
            (3000, "c3".to_string(), 30)
        ]
    );
    assert_eq!(value_range(&series), (10, 30));
}

#[test]
fn series_needs_the_metric_in_every_run() {
    let stats = vec![run("c1", 1000, &[("size", 10), ("time", 1)]), run("c2", 2000, &[("size", 25)])];
    assert!(metric_series(&stats, "time").is_none());
    assert!(metric_series(&Vec::new(), "time").unwrap().is_empty());
}

#[test]
fn value_range_of_one_point() {
    let p = SeriesPoint { timestamp: 1, commit: "a".to_string(), value: 7 };
    assert_eq!(value_range(&vec![p]), (7, 7));
}

#[test]
fn metric_names_are_sorted_and_unique() {
    let stats = vec![
        run("c1", 1, &[("native-unix-x86_64.size", 1), ("compile-time-unix-x86_64-8.mean", 2)]),
        run("c2", 2, &[("compile-time-unix-x86_64-8.max", 3), ("native-unix-x86_64.size", 4)]),
    ];
    assert_eq!(
        metric_names(&stats),
        vec![
            "compile-time-unix-x86_64-8.max".to_string(),
            "compile-time-unix-x86_64-8.mean".to_string(),
            "native-unix-x86_64.size".to_string(),
        ]
    );
    assert!(metric_names(&Vec::new()).is_empty());
}

#[test]
fn results_go_under_the_first_two_characters() {
    assert_eq!(
        result_folders("results", "a1b2c3"),
        Some(vec![
            "results".to_string(),
            "a".to_string(),
            "1".to_string(),
            "a1b2c3".to_string()
        ])
    );
    assert_eq!(result_folders("results", "a"), None);
    assert_eq!(result_folders("results", ""), None);
}

#[test]
fn commit_time_is_read_in_milliseconds() {
    assert_eq!(commit_time_ms(&b"1700000000\n".to_vec()), Some(1_700_000_000_000));
    assert_eq!(commit_time_ms(&b"+42\n".to_vec()), Some(42_000));
    assert_eq!(commit_time_ms(&b"0\n".to_vec()), Some(0));
}

#[test]
fn commit_time_rejects_what_is_not_a_number() {
    assert_eq!(commit_time_ms(&b"".to_vec()), None);
    assert_eq!(commit_time_ms(&b"\n".to_vec()), None);
    assert_eq!(commit_time_ms(&b"+\n".to_vec()), None);
    assert_eq!(commit_time_ms(&b"-5\n".to_vec()), None);
    assert_eq!(commit_time_ms(&b"12a\n".to_vec()), None);
    assert_eq!(commit_time_ms(&b" 12\n".to_vec()), None);
}

#[test]
fn commit_time_rejects_what_does_not_fit() {
    let max = format!("{}\n", u128::MAX);
    assert_eq!(commit_time_ms(&max.into_bytes()), None);
    let too_long = format!("{}0\n", u128::MAX);
    assert_eq!(commit_time_ms(&too_long.into_bytes()), None);
    let fits = format!("{}\n", u128::MAX / 1000);
    assert_eq!(commit_time_ms(&fits.into_bytes()), Some(u128::MAX / 1000 * 1000));
}

#[test]
fn setting_a_metric_replaces_or_adds() {
    let mut e = entries(&[("a", 1), ("b", 2)]);
    set_metric(&mut e, "b".to_string(), 5);
    assert_eq!(e, entries(&[("a", 1), ("b", 5)]));
    set_metric(&mut e, "c".to_string(), 7);
    assert_eq!(e, entries(&[("a", 1), ("b", 5), ("c", 7)]));
}

#[test]
fn a_stable_order_is_the_only_one() {
    let ts = vec![2, 1, 2, 1, 0];
    let order = time_order(&ts);
    let mut by_std: Vec<usize> = (0..ts.len()).collect();
    by_std.sort_by_key(|i| ts[*i]);
    assert_eq!(order, by_std);
}
