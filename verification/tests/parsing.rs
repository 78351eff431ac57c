use zmem::Error;
use zmem::MemoryStats;
use zmem::format_size;
use zmem::parse_value;
use zmem::utils::clean_command;

#[test]
fn parse_value_plain_number() {
    assert_eq!(parse_value("42 kB").unwrap(), 42);
}

#[test]
fn parse_value_leading_whitespace() {
    assert_eq!(parse_value("      16384 kB").unwrap(), 16384);
}

#[test]
fn parse_value_empty_is_zero() {
    assert_eq!(parse_value("").unwrap(), 0);
    assert_eq!(parse_value("   ").unwrap(), 0);
}

#[test]
fn parse_value_malformed_is_error() {
    assert_eq!(parse_value("12x kB").unwrap_err(), Error::BadNumber);
    assert_eq!(parse_value("abc").unwrap_err(), Error::BadNumber);
}

#[test]
fn parse_value_overflow_is_error() {
    assert_eq!(
        parse_value("99999999999999999999999 kB").unwrap_err(),
        Error::BadNumber
    );
}

#[test]
fn parse_value_ignores_unit_suffix() {
    assert_eq!(parse_value("7 MB extra words").unwrap(), 7);
}

#[test]
fn format_size_small_stays_kb() {
    assert_eq!(format_size(0), "0.00 kB");
    assert_eq!(format_size(512), "512.00 kB");
    assert_eq!(format_size(1024), "1024.00 kB");
}

#[test]
fn format_size_scales_up() {
    assert_eq!(format_size(1025), "1.00 MB");
    assert_eq!(format_size(1536), "1.50 MB");
    assert_eq!(format_size(1024 * 1024), "1024.00 MB");
    assert_eq!(format_size(1024 * 1024 + 1), "1.00 GB");
    assert_eq!(format_size(17179869184), "16.00 TB");
}

#[test]
fn format_size_rounds_ties_to_even() {
    // 1152 kB is exactly 1.125 MB and 1408 kB exactly 1.375 MB.
    assert_eq!(format_size(1152), "1.12 MB");
    assert_eq!(format_size(1408), "1.38 MB");
}

#[test]
fn clean_command_replaces_nul_and_trims() {
    assert_eq!(clean_command("/bin/foo\0--flag\0"), "/bin/foo --flag");
}

#[test]
fn clean_command_replaces_control_characters() {
    assert_eq!(clean_command("a\tb\nc"), "a b c");
}

#[test]
fn clean_command_truncates_to_fifty() {
    let long = "x".repeat(60);
    let cleaned = clean_command(&long);
    assert_eq!(cleaned.chars().count(), 50);
    assert_eq!(cleaned, "x".repeat(50));
    let exact = "y".repeat(50);
    assert_eq!(clean_command(&exact), exact);
}

const MEMINFO: &str = "MemTotal:       16384 kB\n\
MemFree:         4096 kB\n\
MemAvailable:    8192 kB\n\
Shmem:            512 kB\n\
Buffers:         1024 kB\n\
Cached:          2048 kB\n\
SwapTotal:       8192 kB\n\
SwapFree:        6144 kB\n\
SwapCached:       256 kB\n\
Zswap:            764 kB\n\
Zswapped:        1722 kB\n\
SomethingElse:     99 kB\n";

#[test]
fn meminfo_reads_recognized_keys() {
    let mut mem = MemoryStats::new();
    mem.update(MEMINFO.as_bytes()).unwrap();
    assert_eq!(mem.total, 16384);
    assert_eq!(mem.free, 4096);
    assert_eq!(mem.available, 8192);
    assert_eq!(mem.shared, 512);
    assert_eq!(mem.buffers, 1024);
    assert_eq!(mem.cached, 2048);
    assert_eq!(mem.swap_total, 8192);
    assert_eq!(mem.swap_free, 6144);
    assert_eq!(mem.swap_cached, 256);
    assert_eq!(mem.zswap_compressed, 764);
    assert_eq!(mem.zswap, 1722);
}

#[test]
fn meminfo_derives_used_exactly() {
    let mut mem = MemoryStats::new();
    mem.update(MEMINFO.as_bytes()).unwrap();
    // used = total - free - buffers - cached
    assert_eq!(mem.used, 16384 - 4096 - 1024 - 2048);
    assert_eq!(mem.swap_used, 8192 - 6144);
    assert_eq!(mem.swap_available, 8192 - (8192 - 6144));
    assert_eq!(mem.totalvmem, 16384 + 8192);
    assert_eq!(mem.freevmem, 4096 + 6144);
    assert_eq!(mem.usedvmem, mem.used + mem.swap_used);
    assert_eq!(mem.availablevmem, mem.available + mem.swap_available);
    assert_eq!(mem.swap_on_disk, mem.swap_used - mem.zswap);
}

#[test]
fn meminfo_compression_ratio_in_thousandths() {
    let mut mem = MemoryStats::new();
    mem.update(MEMINFO.as_bytes()).unwrap();
    // 1722 * 1000 / 764 = 2253.9..., kept in thousandths
    assert_eq!(mem.compression_ratio_permille, 2253);
}

#[test]
fn meminfo_zero_compressed_gives_ratio_sentinel() {
    let text = "MemTotal: 100 kB\nZswapped: 50 kB\nZswap: 0 kB\n";
    let mut mem = MemoryStats::new();
    mem.update(text.as_bytes()).unwrap();
    assert_eq!(mem.zswap, 50);
    assert_eq!(mem.zswap_compressed, 0);
    assert_eq!(mem.compression_ratio_permille, 0);
}

#[test]
fn meminfo_missing_keys_stay_zero() {
    let text = "MemTotal: 100 kB\n";
    let mut mem = MemoryStats::new();
    mem.update(text.as_bytes()).unwrap();
    assert_eq!(mem.total, 100);
    assert_eq!(mem.free, 0);
    assert_eq!(mem.swap_total, 0);
}

#[test]
fn meminfo_line_without_value_is_bad_format() {
    let mut mem = MemoryStats::new();
    let err = mem.update(b"MemTotal: 100 kB\nJustOneToken\n").unwrap_err();
    assert_eq!(err, Error::BadFormat);
}

#[test]
fn meminfo_malformed_number_is_bad_number() {
    let mut mem = MemoryStats::new();
    let err = mem.update(b"MemTotal: abc kB\n").unwrap_err();
    assert_eq!(err, Error::BadNumber);
}

#[test]
fn meminfo_failed_parse_leaves_counters() {
    let mut mem = MemoryStats::new();
    mem.update(b"MemTotal: 100 kB\n").unwrap();
    assert_eq!(mem.total, 100);
    assert!(mem.update(b"MemFree: bad kB\n").is_err());
    assert_eq!(mem.total, 100);
    assert_eq!(mem.free, 0);
}

#[test]
fn meminfo_last_occurrence_wins() {
    let mut mem = MemoryStats::new();
    mem.update(b"MemTotal: 100 kB\nMemTotal: 200 kB\n").unwrap();
    assert_eq!(mem.total, 200);
}
