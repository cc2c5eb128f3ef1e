use bench_bot::members::{join_path, lex_le_exec, sort_members, split_member, wildcard_parent};
use bench_bot::orchestrator::{plan, schedule, toolchain_of, worker_threads, PlanStep, ToolchainKind};
use bench_bot::report::{
    categories_of, collect_run, compare, record_launch_failure, reports_of, BenchmarkTarget,
    BuildOutcome, RunOutcome, RunRecord,
};

fn outcome(category: &str, name: &str, success: bool) -> BuildOutcome {
    BuildOutcome {
        target: BenchmarkTarget {
            category: category.as_bytes().to_vec(),
            name: name.as_bytes().to_vec(),
        },
        success,
        stderr: if success { Vec::new() } else { b"compile error".to_vec() },
    }
}

fn good_report_text() -> Vec<u8> {
    let text = "Latencies:\n\
  Avg Stdev Min Max\n\
  2.00ms 1ms 1ms 4ms\n\
Req/Sec: 100.00\n\
Transfer:\n\
  Total: 1 MB\n";
    text.as_bytes().to_vec()
}

fn faster_report_text() -> Vec<u8> {
    let text = "Latencies:\n\
  Avg Stdev Min Max\n\
  1.00ms 1ms 1ms 2ms\n\
Req/Sec: 200.00\n\
Transfer:\n\
  Total: 2 MB\n";
    text.as_bytes().to_vec()
}

#[test]
fn schedule_excludes_only_failed_builds() {
    let outs = vec![
        outcome("hello-world", "axum", true),
        outcome("hello-world", "broken", false),
        outcome("hello-world", "go_fiber", true),
    ];
    let sched = schedule(&outs);
    assert_eq!(sched, vec![0usize, 2usize]);
}

#[test]
fn empty_schedule_gives_empty_plan() {
    let sched: Vec<usize> = Vec::new();
    assert_eq!(plan(&sched).len(), 0);
}

#[test]
fn cooldown_between_runs_but_not_after_last() {
    let sched = vec![0usize, 1, 2];
    let p = plan(&sched);
    assert_eq!(p.len(), 5);
    assert_eq!(p[0], PlanStep::Run(0));
    assert_eq!(p[1], PlanStep::Cooldown);
    assert_eq!(p[2], PlanStep::Run(1));
    assert_eq!(p[3], PlanStep::Cooldown);
    assert_eq!(p[4], PlanStep::Run(2));
    let single = plan(&vec![7usize]);
    assert_eq!(single.len(), 1);
    assert_eq!(single[0], PlanStep::Run(7));
}

#[test]
fn failed_build_reaches_no_report_and_stops_nothing() {
    // Three targets; B's build fails; A and C succeed with parseable
    // output. The documents cover exactly A and C.
    let outs = vec![
        outcome("hello-world", "a_server", true),
        outcome("hello-world", "b_server", false),
        outcome("hello-world", "c_server", true),
    ];
    let sched = schedule(&outs);
    assert_eq!(sched, vec![0usize, 2usize]);
    let p = plan(&sched);
    assert_eq!(p.len(), 3);

    let mut records: Vec<RunRecord> = Vec::new();
    for step in &p {
        if let PlanStep::Run(idx) = step {
            let t = &outs[*idx].target;
            records.push(collect_run(
                t.category.clone(),
                t.name.clone(),
                1_000_000,
                good_report_text(),
                Vec::new(),
            ));
        }
    }
    let cats = categories_of(&records);
    assert_eq!(cats.len(), 1);
    assert_eq!(cats[0], b"hello-world".to_vec());

    let reports = reports_of(records, &b"hello-world".to_vec());
    assert_eq!(reports.len(), 2);
    assert_eq!(reports[0].name, b"a_server".to_vec());
    assert_eq!(reports[1].name, b"c_server".to_vec());

    let table = compare(reports);
    assert_eq!(table.rows.len(), 2);
    assert_eq!(table.rows[0].name, b"a_server".to_vec());
    assert_eq!(table.rows[1].name, b"c_server".to_vec());
}

#[test]
fn load_tool_error_skips_report_but_run_proceeds() {
    // The load generator returns error text for the first target; the
    // second still runs and is the only one reported.
    let rec_bad = collect_run(
        b"hello-world".to_vec(),
        b"noisy".to_vec(),
        500,
        good_report_text(),
        b"connection refused".to_vec(),
    );
    assert!(matches!(rec_bad.outcome, RunOutcome::LoadToolFailed { .. }));

    let rec_good = collect_run(
        b"hello-world".to_vec(),
        b"quiet".to_vec(),
        600,
        good_report_text(),
        Vec::new(),
    );
    assert!(matches!(rec_good.outcome, RunOutcome::Measured { .. }));

    let reports = reports_of(vec![rec_bad, rec_good], &b"hello-world".to_vec());
    assert_eq!(reports.len(), 1);
    assert_eq!(reports[0].name, b"quiet".to_vec());
}

#[test]
fn unparseable_output_keeps_narrative_but_no_report() {
    let rec = collect_run(
        b"hello-world".to_vec(),
        b"odd".to_vec(),
        700,
        b"no numbers here".to_vec(),
        Vec::new(),
    );
    match &rec.outcome {
        RunOutcome::Unparsed { stdout } => assert_eq!(stdout, &b"no numbers here".to_vec()),
        _ => panic!("expected the narrative to be kept"),
    }
    let reports = reports_of(vec![rec], &b"hello-world".to_vec());
    assert_eq!(reports.len(), 0);
}

#[test]
fn launch_failure_has_no_peak_and_no_report() {
    let rec = record_launch_failure(b"hello-world".to_vec(), b"ghost".to_vec());
    assert_eq!(rec.peak_bytes, 0);
    assert!(matches!(rec.outcome, RunOutcome::LaunchFailed));
    let reports = reports_of(vec![rec], &b"hello-world".to_vec());
    assert_eq!(reports.len(), 0);
}

#[test]
fn empty_report_set_gives_empty_table() {
    let table = compare(Vec::new());
    assert_eq!(table.rows.len(), 0);
}

#[test]
fn comparison_normalises_against_the_best() {
    let slow = collect_run(
        b"hello-world".to_vec(),
        b"slow".to_vec(),
        2_000_000,
        good_report_text(),
        Vec::new(),
    );
    let fast = collect_run(
        b"hello-world".to_vec(),
        b"fast".to_vec(),
        1_000_000,
        faster_report_text(),
        Vec::new(),
    );
    let reports = reports_of(vec![slow, fast], &b"hello-world".to_vec());
    let table = compare(reports);
    assert_eq!(table.rows.len(), 2);
    // slow: 100 req/s of best 200 -> 50%; 2 MB against best 1 MB -> 50%;
    // 2 ms against best 1 ms -> 50%.
    assert_eq!(table.rows[0].throughput_pct, 50);
    assert_eq!(table.rows[0].memory_pct, 50);
    assert_eq!(table.rows[0].latency_pct, 50);
    // fast is the best in every dimension.
    assert_eq!(table.rows[1].throughput_pct, 100);
    assert_eq!(table.rows[1].memory_pct, 100);
    assert_eq!(table.rows[1].latency_pct, 100);
    assert_eq!(table.rows[0].requests_per_sec_centi, 10_000);
    assert_eq!(table.rows[1].requests_per_sec_centi, 20_000);
}

#[test]
fn distinct_categories_each_get_one_document() {
    let a = collect_run(b"hello-world".to_vec(), b"a".to_vec(), 1, good_report_text(), Vec::new());
    let b = collect_run(b"json".to_vec(), b"b".to_vec(), 1, good_report_text(), Vec::new());
    let c = collect_run(b"hello-world".to_vec(), b"c".to_vec(), 1, good_report_text(), Vec::new());
    let cats = categories_of(&vec![a, b, c]);
    assert_eq!(cats.len(), 2);
    assert_eq!(cats[0], b"hello-world".to_vec());
    assert_eq!(cats[1], b"json".to_vec());
}

#[test]
fn toolchain_is_chosen_by_name_prefix() {
    assert_eq!(toolchain_of(&b"go_fiber".to_vec()), ToolchainKind::Go);
    assert_eq!(toolchain_of(&b"axum".to_vec()), ToolchainKind::Rust);
    assert_eq!(toolchain_of(&b"golang".to_vec()), ToolchainKind::Rust);
    assert_eq!(toolchain_of(&b"go".to_vec()), ToolchainKind::Rust);
}

#[test]
fn worker_threads_reserves_a_share() {
    assert_eq!(worker_threads(8, 1), 7);
    assert_eq!(worker_threads(1, 1), 1);
    assert_eq!(worker_threads(0, 1), 1);
}

#[test]
fn members_sort_into_stable_order() {
    let input = vec![
        b"hello-world/zeta".to_vec(),
        b"hello-world/axum".to_vec(),
        b"hello-world/go_fiber".to_vec(),
        b"hello-world/axum".to_vec(),
    ];
    let sorted = sort_members(input);
    assert_eq!(
        sorted,
        vec![
            b"hello-world/axum".to_vec(),
            b"hello-world/axum".to_vec(),
            b"hello-world/go_fiber".to_vec(),
            b"hello-world/zeta".to_vec(),
        ]
    );
}

#[test]
fn lexicographic_order_on_bytes() {
    assert!(lex_le_exec(&b"abc".to_vec(), &b"abd".to_vec()));
    assert!(!lex_le_exec(&b"abd".to_vec(), &b"abc".to_vec()));
    assert!(lex_le_exec(&b"ab".to_vec(), &b"abc".to_vec()));
    assert!(lex_le_exec(&b"".to_vec(), &b"a".to_vec()));
    assert!(lex_le_exec(&b"same".to_vec(), &b"same".to_vec()));
}

#[test]
fn wildcard_members_are_recognised() {
    assert_eq!(wildcard_parent(&b"hello-world/*".to_vec()), Some(b"hello-world".to_vec()));
    assert_eq!(wildcard_parent(&b"*".to_vec()), Some(Vec::new()));
    assert_eq!(wildcard_parent(&b"hello-world/axum".to_vec()), None);
    assert_eq!(wildcard_parent(&b"stars*".to_vec()), None);
}

#[test]
fn paths_join_and_split() {
    assert_eq!(join_path(&b"hello-world".to_vec(), &b"axum".to_vec()), b"hello-world/axum".to_vec());
    assert_eq!(join_path(&Vec::new(), &b"axum".to_vec()), b"axum".to_vec());
    let (cat, name) = split_member(&b"hello-world/axum".to_vec());
    assert_eq!(cat, b"hello-world".to_vec());
    assert_eq!(name, b"axum".to_vec());
    let (cat2, name2) = split_member(&b"benchmark/hello-world/axum".to_vec());
    assert_eq!(cat2, b"hello-world".to_vec());
    assert_eq!(name2, b"axum".to_vec());
    let (cat3, name3) = split_member(&b"axum".to_vec());
    assert_eq!(cat3, Vec::<u8>::new());
    assert_eq!(name3, b"axum".to_vec());
}
