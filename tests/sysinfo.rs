use smartinfo::sysinfo::{parse_cpu_stat, parse_disk_stat, parse_proc_stat, StatError};

#[test]
fn cpu_total_line() {
    let s = parse_cpu_stat("cpu  10 20 30 40 50 60 70 80 90 100").unwrap();
    assert_eq!(s.id, None);
    assert_eq!(
        [s.user, s.nice, s.system, s.idle, s.iowait, s.irq, s.softirq, s.steal, s.guest, s.guest_nice],
        [10, 20, 30, 40, 50, 60, 70, 80, 90, 100]
    );
}

#[test]
fn cpu_numbered_line() {
    let s = parse_cpu_stat("cpu3 1 2 3 4 5 6 7 8 9 10\n").unwrap();
    assert_eq!(s.id, Some(3));
    assert_eq!(s.user, 1);
    assert_eq!(s.guest_nice, 10);
}

#[test]
fn cpu_line_word_handling() {
    let s = parse_cpu_stat("\tcpu12\t1 x 2 3 +4 5 6 7 8 9 -1 10 18446744073709551616").unwrap();
    assert_eq!(s.id, Some(12));
    assert_eq!(s.iowait, 5);
    assert_eq!(s.idle, 4);
    assert_eq!(s.guest_nice, 10);
    let s = parse_cpu_stat("cpu 18446744073709551615 0 0 0 0 0 0 0 0 0").unwrap();
    assert_eq!(s.user, u64::MAX);
}

#[test]
fn cpu_line_needs_ten_counters() {
    assert_eq!(parse_cpu_stat("cpu 1 2 3 4 5 6 7 8 9"), Err(StatError::InvalidCpuLine));
    assert_eq!(parse_cpu_stat("cpu 1 2 3 4 5 6 7 8 9 10 11"), Err(StatError::InvalidCpuLine));
    assert_eq!(parse_cpu_stat(""), Err(StatError::InvalidCpuLine));
    assert_eq!(parse_cpu_stat("1 2 3 4 5 6 7 8 9 10"), Err(StatError::InvalidCpuLine));
}

#[test]
fn disk_line() {
    let line = "    1234       56     7890      100      200       30      400       50        0      120      150        0        0        0        0\n";
    let d = parse_disk_stat("sda", line).unwrap();
    assert_eq!(d.path, "sda");
    assert_eq!(d.reads, 1234);
    assert_eq!(d.reads_merged, 56);
    assert_eq!(d.read_bytes, 7890 * 512);
    assert_eq!(d.read_time, 100);
    assert_eq!(d.writes, 200);
    assert_eq!(d.writes_merged, 30);
    assert_eq!(d.write_bytes, 400 * 512);
    assert_eq!(d.write_time, 50);
    assert_eq!(d.io_in_progress, 0);
    assert_eq!(d.io_time, 120);
    assert_eq!(d.weighted_io_time, 150);
}

#[test]
fn disk_line_errors() {
    assert_eq!(parse_disk_stat("sda", "1 2 3 4 5 6 7 8 9 10").err(), Some(StatError::InvalidDiskLine));
    assert_eq!(
        parse_disk_stat("sda", "1 2 36028797018963968 4 5 6 7 8 9 10 11").err(),
        Some(StatError::Overflow)
    );
    assert!(parse_disk_stat("sda", "1 2 36028797018963967 4 5 6 7 8 9 10 11").is_ok());
}

#[test]
fn proc_stat_report() {
    let text = "cpu  10 20 30 40 50 60 70 80 90 100\ncpu0 1 2 3 4 5 6 7 8 9 10\ncpu1 11 12 13 14 15 16 17 18 19 20\nintr 12345 1 2\nctxt 999\nprocs_running 2\n";
    let (total, cpus) = parse_proc_stat(text).unwrap();
    assert_eq!(total.id, None);
    assert_eq!(total.user, 10);
    assert_eq!(cpus.len(), 2);
    assert_eq!(cpus[0].id, Some(0));
    assert_eq!(cpus[1].id, Some(1));
    assert_eq!(cpus[1].guest_nice, 20);
}

#[test]
fn proc_stat_errors() {
    assert_eq!(parse_proc_stat("").err(), Some(StatError::NoCpuLine));
    assert_eq!(parse_proc_stat("intr 1 2\n").err(), Some(StatError::InvalidCpuLine));
    assert_eq!(
        parse_proc_stat("cpu 1 2 3 4 5 6 7 8 9 10\ncpu0 1 2\n").err(),
        Some(StatError::InvalidCpuLine)
    );
}
