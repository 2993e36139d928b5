use naive_matrix::codec::decode_matrix;
use naive_matrix::kernel::multiply;
use naive_matrix::samples::{build_row, memory_delta, SampleSet};
use naive_matrix::schedule::{should_pause, step, warm_up_size, Action, BenchConfig, Progress};
use naive_matrix::stats::Ratio;

#[test]
fn pause_cadence_twenty_by_five() {
    let pauses: Vec<usize> = (1..=20).filter(|&i| should_pause(i, 20, 5)).collect();
    assert_eq!(pauses, vec![5, 10, 15]);
}

#[test]
fn no_pause_when_period_exceeds_run() {
    assert!((1..=3).all(|i| !should_pause(i, 3, 20)));
}

#[test]
fn pause_count_matches_formula() {
    for (n, p) in [(20usize, 5usize), (100, 20), (10, 20), (21, 5), (1, 1)] {
        let count = (1..=n).filter(|&i| should_pause(i, n, p)).count();
        assert_eq!(count, (n - 1) / p);
    }
}

#[test]
fn warm_up_uses_largest_size() {
    assert_eq!(warm_up_size(&vec![10, 1000, 100]), Some(1000));
    assert_eq!(warm_up_size(&vec![]), None);
}

#[test]
fn memory_delta_signed() {
    assert_eq!(memory_delta(100, 164), Some(64));
    assert_eq!(memory_delta(164, 100), Some(-64));
    assert_eq!(memory_delta(0, u64::MAX), None);
}

#[test]
fn run_walks_every_phase() {
    let cfg = BenchConfig { sizes: vec![10, 100], iterations: 3, pause_every: 2, warm_up_runs: 2 };
    let mut p = Progress::Start;
    let mut actions = Vec::new();
    loop {
        let (a, next) = step(&cfg, 100, p);
        if a == Action::Stop {
            break;
        }
        actions.push(a);
        p = next;
    }
    assert_eq!(
        actions,
        vec![
            Action::LoadWarmUp { size: 100 },
            Action::WarmUpRun { run: 1 },
            Action::WarmUpRun { run: 2 },
            Action::LoadSize { index: 0, size: 10 },
            Action::Iterate { index: 0, iteration: 1, pause_after: false },
            Action::Iterate { index: 0, iteration: 2, pause_after: true },
            Action::Iterate { index: 0, iteration: 3, pause_after: false },
            Action::Summarize { index: 0 },
            Action::LoadSize { index: 1, size: 100 },
            Action::Iterate { index: 1, iteration: 1, pause_after: false },
            Action::Iterate { index: 1, iteration: 2, pause_after: true },
            Action::Iterate { index: 1, iteration: 3, pause_after: false },
            Action::Summarize { index: 1 },
            Action::WriteResults,
        ]
    );
    assert_eq!(p, Progress::Done);
}

#[test]
fn end_to_end_identity_run() {
    let cfg = BenchConfig { sizes: vec![2], iterations: 3, pause_every: 20, warm_up_runs: 0 };
    let mut bytes_a = Vec::new();
    for v in [1i32, 0, 0, 1] {
        bytes_a.extend_from_slice(&v.to_le_bytes());
    }
    let mut bytes_b = Vec::new();
    for v in [5i32, 6, 7, 8] {
        bytes_b.extend_from_slice(&v.to_le_bytes());
    }
    let warm = warm_up_size(&cfg.sizes).unwrap();
    let mut p = Progress::Start;
    let mut a = Vec::new();
    let mut b = Vec::new();
    let mut samples = SampleSet::new();
    let mut rows = Vec::new();
    let mut pauses = 0;
    loop {
        let (action, next) = step(&cfg, warm, p);
        match action {
            Action::LoadWarmUp { .. } | Action::WarmUpRun { .. } => {}
            Action::LoadSize { size, .. } => {
                a = decode_matrix(&bytes_a, size).unwrap();
                b = decode_matrix(&bytes_b, size).unwrap();
                samples = SampleSet::new();
            }
            Action::Iterate { iteration, pause_after, .. } => {
                let c = multiply(&a, &b, 2);
                assert_eq!(c, b);
                samples.record_time(1000 * iteration as i64);
                if pause_after {
                    pauses += 1;
                }
            }
            Action::Summarize { index } => {
                let row = build_row(
                    cfg.sizes[index],
                    "matrices/A_2.bin".to_string(),
                    "matrices/B_2.bin".to_string(),
                    &samples,
                    false,
                    "Rust".to_string(),
                )
                .unwrap();
                rows.push(row);
            }
            Action::WriteResults => {}
            Action::Stop => break,
        }
        p = next;
    }
    assert_eq!(pauses, 0);
    assert_eq!(rows.len(), 1);
    assert_eq!(rows[0].size, 2);
    assert_eq!(rows[0].time.mean, Ratio { num: 6000, den: 3 });
    assert_eq!(rows[0].time.median, Ratio { num: 2000, den: 1 });
    assert!(rows[0].time.variance.num >= 0);
    assert!(rows[0].cpu.is_none());
    assert_eq!(rows[0].language, "Rust");
}

#[test]
fn row_with_resources_and_empty_error() {
    let mut s = SampleSet::new();
    s.record_time(10);
    s.record_time(30);
    s.record_resources(5_000_000, 1024);
    s.record_resources(7_000_000, -1024);
    let row = build_row(10, "a".to_string(), "b".to_string(), &s, true, "Rust".to_string()).unwrap();
    assert_eq!(row.time.mean, Ratio { num: 40, den: 2 });
    assert_eq!(row.cpu.unwrap().median, Ratio { num: 12_000_000, den: 2 });
    assert_eq!(row.memory.unwrap().mean, Ratio { num: 0, den: 2 });
    assert_eq!(row.memory.unwrap().variance, Ratio { num: 2 * (1024 * 1024 * 2), den: 4 });
    let empty = SampleSet::new();
    assert!(build_row(10, "a".to_string(), "b".to_string(), &empty, false, "Rust".to_string()).is_err());
}
