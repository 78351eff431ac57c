use zmem::Error;
use zmem::Process;
use zmem::ProcessMemoryStats;
use zmem::Processes;
use zmem::parse_pid;

const ROLLUP: &str = "55b0b0000000-7ffc00000000 ---p 00000000 00:00 0    [rollup]\n\
Rss:                 100 kB\n\
Pss:                  80 kB\n\
Private_Clean:        30 kB\n\
Private_Dirty:        12 kB\n\
Swap:                  7 kB\n\
SwapPss:               5 kB\n";

#[test]
fn rollup_fills_all_fields() {
    let mut stats = ProcessMemoryStats::new();
    stats.update(&31, "cat\0/etc/hosts\0", ROLLUP.as_bytes()).unwrap();
    assert_eq!(stats.pid, 31);
    assert_eq!(stats.command, "cat /etc/hosts");
    assert_eq!(stats.rss, 100);
    assert_eq!(stats.pss, 80);
    assert_eq!(stats.uss, 30 + 12);
    assert_eq!(stats.swap, 7);
}

#[test]
fn swap_pss_lines_do_not_count_as_swap() {
    let mut stats = ProcessMemoryStats::new();
    stats.update(&1, "x", b"SwapPss: 5 kB\n").unwrap();
    assert_eq!(stats.swap, 0);
}

#[test]
fn per_mapping_blocks_accumulate() {
    // Two mapping blocks, each with Rss: 100 kB and Swap: 0 kB.
    let text = b"Rss: 100 kB\nSwap: 0 kB\nRss: 100 kB\nSwap: 0 kB\n";
    let mut stats = ProcessMemoryStats::new();
    stats.update(&7, "worker", text).unwrap();
    assert_eq!(stats.rss, 200);
    assert_eq!(stats.swap, 0);
}

#[test]
fn private_clean_and_dirty_sum_into_uss() {
    let text = b"Private_Clean: 1 kB\nPrivate_Dirty: 2 kB\nPrivate_Clean: 4 kB\n";
    let mut stats = ProcessMemoryStats::new();
    stats.update(&7, "w", text).unwrap();
    assert_eq!(stats.uss, 1 + 2 + 4);
}

#[test]
fn malformed_mapping_value_fails_and_leaves_record() {
    let mut stats = ProcessMemoryStats::new();
    stats.update(&3, "ok", b"Rss: 5 kB\n").unwrap();
    let err = stats.update(&3, "ok", b"Rss: bogus kB\n").unwrap_err();
    assert_eq!(err, Error::BadNumber);
    assert_eq!(stats.rss, 5);
}

#[test]
fn short_and_unknown_lines_are_ignored() {
    let text = b"Rss\nR\n\nLocked: 9 kB\nRss: 3 kB\n";
    let mut stats = ProcessMemoryStats::new();
    stats.update(&3, "ok", text).unwrap();
    assert_eq!(stats.rss, 3);
    assert_eq!(stats.swap, 0);
}

#[test]
fn bare_label_counts_as_zero() {
    let mut stats = ProcessMemoryStats::new();
    stats.update(&3, "ok", b"Rss:\n").unwrap();
    assert_eq!(stats.rss, 0);
}

#[test]
fn process_new_builds_record() {
    let p = Process::new(42, "sleep\060\0", ROLLUP.as_bytes()).unwrap();
    assert_eq!(p.pid, 42);
    assert_eq!(p.command, "sleep 60");
    assert_eq!(p.memory.pid, 42);
    assert_eq!(p.memory.swap, 7);
}

#[test]
fn process_update_keeps_pid() {
    let mut p = Process::new(42, "a", ROLLUP.as_bytes()).unwrap();
    p.update("b", b"Swap: 9 kB\n").unwrap();
    assert_eq!(p.pid, 42);
    assert_eq!(p.command, "b");
    assert_eq!(p.memory.swap, 9);
}

#[test]
fn command_longer_than_fifty_is_truncated() {
    let raw = format!("/usr/bin/{}", "a".repeat(80));
    let p = Process::new(9, &raw, b"").unwrap();
    assert_eq!(p.command.chars().count(), 50);
    assert!(raw.starts_with(&p.command));
}

#[test]
fn parse_pid_accepts_numeric_names() {
    assert_eq!(parse_pid("1"), Some(1));
    assert_eq!(parse_pid("4094"), Some(4094));
    assert_eq!(parse_pid("4294967295"), Some(u32::MAX));
}

#[test]
fn parse_pid_rejects_non_process_entries() {
    assert_eq!(parse_pid("meminfo"), None);
    assert_eq!(parse_pid("12a"), None);
    assert_eq!(parse_pid(""), None);
    assert_eq!(parse_pid("4294967296"), None);
}

fn record(pid: u32, swap_kb: u64) -> Process {
    let text = format!("Swap: {} kB\n", swap_kb);
    Process::new(pid, "proc", text.as_bytes()).unwrap()
}

#[test]
fn collect_keeps_completed_records_in_order() {
    let mut snapshot = Processes::new();
    let results = vec![
        Some(record(1, 5)),
        None,
        Some(record(2, 1)),
        None,
        Some(record(3, 3)),
    ];
    snapshot.collect(results);
    assert_eq!(snapshot.processes.len(), 3);
    assert_eq!(snapshot.processes[0].pid, 1);
    assert_eq!(snapshot.processes[1].pid, 2);
    assert_eq!(snapshot.processes[2].pid, 3);
}

#[test]
fn unreadable_process_is_absent_and_scan_survives() {
    // A process whose files could not be read contributes a None slot;
    // the snapshot simply has no record for it.
    let mut snapshot = Processes::new();
    snapshot.collect(vec![None, Some(record(8, 2)), None]);
    assert_eq!(snapshot.processes.len(), 1);
    assert_eq!(snapshot.processes[0].pid, 8);
}

#[test]
fn snapshot_sorts_ascending_by_swap() {
    let mut snapshot = Processes::new();
    snapshot.collect(vec![
        Some(record(1, 5)),
        Some(record(2, 1)),
        Some(record(3, 3)),
        Some(record(4, 0)),
    ]);
    snapshot.sort_by_swap();
    let swaps: Vec<u64> = snapshot.processes.iter().map(|p| p.memory.swap).collect();
    assert_eq!(swaps, vec![0, 1, 3, 5]);
    for w in snapshot.processes.windows(2) {
        assert!(w[0].memory.swap <= w[1].memory.swap);
    }
}

#[test]
fn sort_keeps_every_record() {
    let mut snapshot = Processes::new();
    snapshot.collect(vec![Some(record(1, 9)), Some(record(2, 9)), Some(record(3, 0))]);
    snapshot.sort_by_swap();
    let mut pids: Vec<u32> = snapshot.processes.iter().map(|p| p.pid).collect();
    pids.sort();
    assert_eq!(pids, vec![1, 2, 3]);
}
