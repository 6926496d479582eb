use hostmetrics::cpu_stat::{calculate_cpu_load, cpu_load_between, CpuLoad, CpuStat};

fn sample(user: u64, nice: u64, system: u64, idle: u64, iowait: u64, irq: u64, softirq: u64, steal: u64) -> CpuStat {
    CpuStat { user, nice, system, idle, iowait, irq, softirq, steal }
}

fn as_percent(load: &CpuLoad) -> f64 {
    if load.total_diff == 0 {
        0.0
    } else {
        (load.busy_diff as f64 / load.total_diff as f64) * 100.0
    }
}

#[test]
fn totals_and_busy() {
    let s = sample(100, 0, 50, 800, 50, 0, 0, 0);
    assert_eq!(s.total(), 1000);
    assert_eq!(s.busy(), 150);
}

#[test]
fn load_is_forty_percent() {
    let prev = sample(100, 0, 50, 800, 50, 0, 0, 0);
    let curr = sample(110, 0, 60, 830, 50, 0, 0, 0);
    let load = calculate_cpu_load(&prev, &curr);
    assert_eq!(load.total_diff, 50);
    assert_eq!(load.busy_diff, 20);
    assert_eq!(as_percent(&load), 40.0);
}

#[test]
fn load_is_zero_for_equal_totals() {
    let prev = sample(100, 0, 50, 800, 50, 0, 0, 0);
    let curr = prev;
    let load = calculate_cpu_load(&prev, &curr);
    assert_eq!(load, CpuLoad { busy_diff: 0, total_diff: 0 });
    assert_eq!(as_percent(&load), 0.0);
}

#[test]
fn load_stays_in_range() {
    let pairs = [
        (sample(0, 0, 0, 0, 0, 0, 0, 0), sample(5, 4, 3, 2, 1, 0, 0, 0)),
        (sample(1, 1, 1, 1, 1, 1, 1, 1), sample(9, 9, 9, 9, 9, 9, 9, 9)),
        (sample(0, 0, 0, 100, 0, 0, 0, 0), sample(0, 0, 0, 200, 0, 0, 0, 0)),
    ];
    for (prev, curr) in pairs {
        let load = cpu_load_between(&prev, &curr);
        let p = as_percent(&load);
        assert!((0.0..=100.0).contains(&p));
    }
}

#[test]
fn counter_reset_reports_zero_load() {
    let prev = sample(100, 0, 50, 800, 50, 0, 0, 0);
    let curr = sample(10, 0, 5, 80, 5, 0, 0, 0);
    let load = cpu_load_between(&prev, &curr);
    assert_eq!(load, CpuLoad { busy_diff: 0, total_diff: 0 });
    assert_eq!(as_percent(&load), 0.0);
}

#[test]
fn parse_aggregate_line() {
    let content = b"cpu  100 30 200 800 50 4 7 3 0 0\ncpu0 50 15 100 400 25 2 3 1 0 0\n";
    let stat = CpuStat::parse(content).unwrap();
    assert_eq!(stat.user, 100);
    assert_eq!(stat.nice, 30);
    assert_eq!(stat.system, 200);
    assert_eq!(stat.idle, 800);
    assert_eq!(stat.iowait, 50);
    assert_eq!(stat.irq, 4);
    assert_eq!(stat.softirq, 7);
    assert_eq!(stat.steal, 3);
}

#[test]
fn parse_skips_per_core_lines() {
    let content = b"cpu0 50 15 100 400 25 2 3 1\ncpu 1 2 3 4 5 6 7 8\n";
    let stat = CpuStat::parse(content).unwrap();
    assert_eq!(stat.user, 1);
    assert_eq!(stat.steal, 8);
}

#[test]
fn parse_fails_without_aggregate_line() {
    assert!(CpuStat::parse(b"cpu0 1 2 3 4 5 6 7 8\n").is_none());
    assert!(CpuStat::parse(b"").is_none());
}

#[test]
fn parse_fails_on_short_line() {
    assert!(CpuStat::parse(b"cpu  1 2 3 4 5 6 7\n").is_none());
}

#[test]
fn parse_fails_on_malformed_counter() {
    assert!(CpuStat::parse(b"cpu  1 2 x 4 5 6 7 8\n").is_none());
    assert!(CpuStat::parse(b"cpu  1 2 99999999999999999999999 4 5 6 7 8\n").is_none());
}
