use smartinfo::models::MemoryStats;
use smartinfo::sysinfo::{memory_stats_from, parse_meminfo, MemKey, StatError};

#[test]
fn meminfo_report() {
    let text = "MemTotal:       16384 kB\nMemFree:         1024 kB\nMemAvailable:    2048 kB\nBuffers:           10 kB\nCached:            20 kB\nSwapCached:         0 kB\nSwapTotal:       4096 kB\nSwapFree:        4000 kB\nHugePages_Total:       0\n";
    let m = parse_meminfo(text).unwrap();
    assert_eq!(
        m,
        MemoryStats {
            total: 16_384_000,
            free: 1_024_000,
            available: 2_048_000,
            buffer: 10_000,
            cached: 20_000,
            swap_total: 4_096_000,
            swap_free: 4_000_000,
        }
    );
}

#[test]
fn meminfo_missing_figures_are_zero() {
    let m = parse_meminfo("MemTotal: 1 kB").unwrap();
    assert_eq!(m.total, 1000);
    assert_eq!(m.free, 0);
    assert_eq!(m.swap_free, 0);
    assert_eq!(parse_meminfo("").unwrap().total, 0);
}

#[test]
fn meminfo_last_line_wins() {
    let m = parse_meminfo("MemFree: 1 kB\nMemFree: 3 kB\n").unwrap();
    assert_eq!(m.free, 3000);
}

#[test]
fn meminfo_bad_lines() {
    assert_eq!(parse_meminfo("MemTotal 1 kB\n"), Err(StatError::InvalidMemLine));
    assert_eq!(parse_meminfo("MemTotal: lots\n"), Err(StatError::InvalidMemLine));
    assert_eq!(parse_meminfo("MemTotal: 1 kB\n\nMemFree: 1 kB\n"), Err(StatError::InvalidMemLine));
}

#[test]
fn stats_from_figures() {
    let m = memory_stats_from(&[
        (MemKey::MemTotal, 5),
        (MemKey::Cached, 7),
        (MemKey::MemTotal, 9),
        (MemKey::SwapFree, (1u128 << 64) + 3),
    ]);
    assert_eq!(m.total, 9);
    assert_eq!(m.cached, 7);
    assert_eq!(m.free, 0);
    assert_eq!(m.swap_free, 3);
    assert_eq!(memory_stats_from(&[]), MemoryStats {
        total: 0,
        free: 0,
        available: 0,
        buffer: 0,
        cached: 0,
        swap_total: 0,
        swap_free: 0,
    });
}

#[test]
fn meminfo_key_trim_matches_str_trim() {
    let m = parse_meminfo("\u{b}MemTotal\u{a0}: 2 kB\n").unwrap();
    assert_eq!(m.total, 2000);
}
