use std::time::Instant;
use tuber_lib::dashboard::App;
use tuber_lib::display::{bar_width, format_uptime, name_column_width, server_label, truncate_name};
use tuber_lib::model::{buried_total, chart_order, sort_by_total_jobs, GroupStats, JobStats, ServerStats, Snapshot, TubeStats};
use tuber_lib::outline::{text_lines, TextValue};
use tuber_lib::order::sort_by_key_desc;
use tuber_lib::resolve_addr;

const SERVER_YAML: &str = "---\nversion: 0.2.11\nuptime: 12345\ncurrent-connections: 3\ncurrent-jobs-ready: 42\ncmd-put: 100\ncmd-reserve-with-timeout: 7\nrusage-utime: 1.25\ndraining: true\nbinlog-enabled: false\nname: \"main\"\nprocessing-time-fast-threshold: 0.2\n";

fn tube(name: &str, ready: u64, total_jobs: u64) -> TubeStats {
    let yaml = format!("name: {name}\ncurrent-jobs-ready: {ready}\ntotal-jobs: {total_jobs}\n");
    TubeStats::from_yaml(&yaml)
}

#[test]
fn server_stats_from_yaml() {
    let s = ServerStats::from_yaml(SERVER_YAML);
    assert_eq!(s.version, "0.2.11");
    assert_eq!(s.uptime, 12345);
    assert_eq!(s.current_connections, 3);
    assert_eq!(s.current_jobs_ready, 42);
    assert_eq!(s.cmd_put, 100);
    assert_eq!(s.cmd_reserve_with_timeout, 7);
    assert_eq!(s.cmd_reserve, 0);
    assert_eq!(s.rusage_utime, "1.25");
    assert_eq!(s.rusage_stime, "");
    assert!(s.draining);
    assert!(!s.binlog_enabled);
    assert_eq!(s.name, "main");
    assert_eq!(s.hostname, "");
    assert_eq!(s.processing_time_fast_threshold, "0.2");
}

#[test]
fn tube_stats_from_yaml() {
    let t = TubeStats::from_yaml(
        "name: emails\ncurrent-jobs-ready: 3\ncurrent-jobs-reserved: 2\ncurrent-jobs-delayed: 1\ncurrent-jobs-buried: 4\ntotal-jobs: 99\ncmd-reserve-with-timeout: 8\nprocessing-time-ewma: 0.015\n",
    );
    assert_eq!(t.name, "emails");
    assert_eq!(t.total_jobs, 99);
    assert_eq!(t.total_reserves, 8);
    assert_eq!(t.processing_time_ewma, "0.015");
    assert_eq!(t.current_total(), 10);
    assert!(t.total_fits());
    let big = TubeStats::from_yaml("current-jobs-ready: 18446744073709551615\ncurrent-jobs-buried: 1\n");
    assert!(!big.total_fits());
}

#[test]
fn job_and_group_stats_from_yaml() {
    let j = JobStats::from_yaml("id: 42\ntube: default\nstate: ready\npri: 1024\nttr: 120\ntime-left: 0\nidempotency-key: k1\nconcurrency-limit: 3\n");
    assert_eq!(j.id, 42);
    assert_eq!(j.tube, "default");
    assert_eq!(j.state, "ready");
    assert_eq!(j.pri, 1024);
    assert_eq!(j.ttr, 120);
    assert_eq!(j.idempotency_key, "k1");
    assert_eq!(j.concurrency_limit, 3);
    assert_eq!(j.group, "");
    let g = GroupStats::from_yaml("name: batch\npending: 5\nburied: 1\ncomplete: true\nwaiting-jobs: 2\n");
    assert_eq!(g.name, "batch");
    assert_eq!(g.pending, 5);
    assert_eq!(g.buried, 1);
    assert!(g.complete);
    assert_eq!(g.waiting_jobs, 2);
}

#[test]
fn tubes_sort_by_total_jobs_stably() {
    let tubes = vec![tube("a", 0, 5), tube("b", 0, 9), tube("c", 0, 5), tube("d", 0, 1), tube("e", 0, 9)];
    let names: Vec<String> = sort_by_total_jobs(tubes).into_iter().map(|t| t.name).collect();
    assert_eq!(names, vec!["b", "e", "a", "c", "d"]);
}

#[test]
fn chart_order_by_current_total() {
    let tubes = vec![tube("a", 1, 0), tube("b", 3, 0), tube("c", 1, 0), tube("d", 0, 0)];
    assert_eq!(chart_order(&tubes), vec![1, 0, 2, 3]);
}

#[test]
fn sort_by_key_desc_keeps_equal_keys_in_order() {
    let v = vec![(1u64, 'a'), (3, 'b'), (1, 'c'), (3, 'd'), (2, 'e')];
    assert_eq!(sort_by_key_desc(v), vec![(3, 'b'), (3, 'd'), (2, 'e'), (1, 'a'), (1, 'c')]);
    assert!(sort_by_key_desc(Vec::<(u64, u8)>::new()).is_empty());
}

fn snapshot(tubes: Vec<TubeStats>) -> Snapshot {
    Snapshot { server: ServerStats::from_yaml(""), tubes, fetched_at: Instant::now() }
}

#[test]
fn dashboard_state() {
    let mut app = App::new();
    assert!(app.current.is_none() && app.previous.is_none() && app.error.is_none());
    assert_eq!(app.previous_tube_total("a"), None);
    app.set_error("Connect failed".to_string());
    assert_eq!(app.error.as_deref(), Some("Connect failed"));
    app.update(snapshot(vec![tube("a", 2, 0), tube("a", 7, 0)]));
    assert!(app.error.is_none());
    assert!(app.previous.is_none());
    app.update(snapshot(vec![tube("b", 1, 0)]));
    assert_eq!(app.current.as_ref().unwrap().tubes[0].name, "b");
    assert_eq!(app.previous_tube_total("a"), Some(2));
    assert_eq!(app.previous_tube_total("b"), None);
    assert!(app.previous.as_ref().unwrap().totals_fit());
}

#[test]
fn uptime_text() {
    assert_eq!(format_uptime(0), "0m");
    assert_eq!(format_uptime(59), "0m");
    assert_eq!(format_uptime(3600 + 120), "1h 2m");
    assert_eq!(format_uptime(86400 * 3 + 3600 * 4 + 60 * 5 + 6), "3d 4h 5m");
    assert_eq!(format_uptime(86400), "1d 0h 0m");
}

#[test]
fn names_and_labels() {
    assert_eq!(truncate_name("emails", 3), "ema");
    assert_eq!(truncate_name("emails", 20), "emails");
    assert_eq!(truncate_name("", 0), "");
    assert_eq!(server_label("0.2.11", ""), "beanstalkd 0.2.11");
    assert_eq!(server_label("tuber 0.3.0", ""), "tuber 0.3.0");
    assert_eq!(server_label("tuber 0.3.0", "prod"), "tuber 0.3.0 \u{2014} prod");
    assert_eq!(server_label("1.13", "box"), "beanstalkd 1.13 \u{2014} box");
}

#[test]
fn resolve_addr_documented_cases() {
    assert_eq!(resolve_addr(None), "localhost:11300");
    assert_eq!(resolve_addr(Some("")), "localhost:11300");
    assert_eq!(resolve_addr(Some("  ")), "localhost:11300");
    assert_eq!(resolve_addr(Some(":1234")), "localhost:1234");
    assert_eq!(resolve_addr(Some("myhost")), "myhost:11300");
    assert_eq!(resolve_addr(Some("myhost:1234")), "myhost:1234");
    assert_eq!(resolve_addr(Some("  myhost \n")), "myhost:11300");
}

#[test]
fn resolve_addr_is_idempotent() {
    for input in ["", ":1", "h", "h:2", " x ", "host:"] {
        let once = resolve_addr(Some(input));
        assert_eq!(resolve_addr(Some(&once)), once);
        assert!(once.contains(':') && !once.starts_with(':'));
    }
}

#[test]
fn outline_text() {
    let v = TextValue::Object(vec![
        ("id".to_string(), TextValue::Scalar("42".to_string())),
        ("tags".to_string(), TextValue::List(vec![
            TextValue::Scalar("a".to_string()),
            TextValue::Object(vec![("k".to_string(), TextValue::Scalar("v".to_string()))]),
        ])),
        ("empty".to_string(), TextValue::List(vec![])),
    ]);
    assert_eq!(text_lines(&v, 0), vec!["id: 42", "tags:", "  - a", "  -", "    k: v", "empty:"]);
    assert_eq!(text_lines(&TextValue::Scalar("x".to_string()), 2), vec!["  x"]);
}

fn buried(n: u64) -> TubeStats {
    TubeStats::from_yaml(&format!("name: b\ncurrent-jobs-buried: {n}\n"))
}

#[test]
fn buried_total_adds_every_tube() {
    assert_eq!(buried_total(&vec![]), Some(0));
    assert_eq!(buried_total(&vec![buried(3), buried(0), buried(4)]), Some(7));
    assert_eq!(buried_total(&vec![buried(u64::MAX), buried(0)]), Some(u64::MAX));
}

#[test]
fn buried_total_overflow_is_none() {
    assert_eq!(buried_total(&vec![buried(u64::MAX), buried(1)]), None);
}

#[test]
fn name_column_is_the_longest_name_up_to_twenty() {
    assert_eq!(name_column_width(&[]), 0);
    assert_eq!(name_column_width(&[3, 9, 5]), 9);
    assert_eq!(name_column_width(&[3, 20]), 20);
    assert_eq!(name_column_width(&[42, 7]), 20);
}

#[test]
fn bar_width_leaves_room_for_name_and_total() {
    assert_eq!(bar_width(80, 10), 48);
    assert_eq!(bar_width(32, 10), 0);
    assert_eq!(bar_width(33, 10), 1);
    assert_eq!(bar_width(5, 20), 0);
    assert_eq!(bar_width(0, 0), 0);
}

#[test]
fn snapshot_clone_keeps_everything() {
    let s = snapshot(vec![tube("a", 3, 9), tube("b", 1, 2)]);
    let c = s.clone();
    assert_eq!(c.fetched_at, s.fetched_at);
    assert_eq!(c.tubes.len(), 2);
    assert_eq!(c.tubes[0].name, "a");
    assert_eq!(c.tubes[1].current_jobs_ready, 1);
    assert_eq!(c.server.version, s.server.version);
}
