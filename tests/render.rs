use dfree::mounts::{parse_line, select_mounts};
use dfree::render::{format_row, header, render_report, sample_from_stat, to_gib, usage_bar};

const GREEN: &str = "\x1b[32m";
const YELLOW: &str = "\x1b[33m";
const RED: &str = "\x1b[31m";
const RESET: &str = "\x1b[0m";

fn float_gib(b: u64) -> String {
    format!("{:.1}G", b as f64 / 1024.0 / 1024.0 / 1024.0)
}

fn bar(color: &str, filled: usize) -> String {
    format!("{}{}{}{}", color, "\u{25a0}".repeat(filled), " ".repeat(20 - filled), RESET)
}

#[test]
fn gib_of_one_gibibyte_and_zero() {
    assert_eq!(to_gib(1073741824), "1.0G");
    assert_eq!(to_gib(0), "0.0G");
}

#[test]
fn gib_rounds_to_one_decimal() {
    assert_eq!(to_gib(1610612736), "1.5G");
    assert_eq!(to_gib(10 * 1073741824), "10.0G");
    assert_eq!(to_gib(1073741824 / 10 * 3), "0.3G");
    assert_eq!(to_gib(u64::MAX), "17179869184.0G");
}

#[test]
fn gib_agrees_with_float_formatting() {
    let mut b: u64 = 1;
    while b < (1u64 << 50) {
        for v in [b, b + 1, b * 3, b * 7 / 5, b / 3 * 2] {
            assert_eq!(to_gib(v), float_gib(v), "{}", v);
        }
        b = b * 5 / 3 + 17;
    }
    for v in [268435456u64, 805306368, 53687091, 53687092, 161061273] {
        assert_eq!(to_gib(v), float_gib(v), "{}", v);
    }
}

#[test]
fn bar_colour_thresholds() {
    assert!(usage_bar(749, 1000).starts_with(GREEN));
    assert!(usage_bar(750, 1000).starts_with(YELLOW));
    assert!(usage_bar(849, 1000).starts_with(YELLOW));
    assert!(usage_bar(850, 1000).starts_with(RED));
    assert!(usage_bar(1000, 1000).starts_with(RED));
    assert!(usage_bar(0, 1000).starts_with(GREEN));
}

#[test]
fn bar_fill_counts() {
    assert_eq!(usage_bar(500, 1000), bar(GREEN, 10));
    assert_eq!(usage_bar(1000, 1000), bar(RED, 20));
    assert_eq!(usage_bar(0, 1000), bar(GREEN, 0));
    assert_eq!(usage_bar(25, 1000), bar(GREEN, 1));
    assert_eq!(usage_bar(24, 1000), bar(GREEN, 0));
    assert_eq!(usage_bar(2000, 1000), bar(RED, 20));
}

#[test]
fn bar_of_empty_file_system() {
    assert_eq!(usage_bar(0, 0), bar(GREEN, 0));
}

#[test]
fn sample_from_statistics() {
    let s = sample_from_stat(100, 25, 4096).unwrap();
    assert_eq!(s.total(), 409600);
    assert_eq!(s.free(), 102400);
    assert_eq!(s.used(), 307200);
    assert!(sample_from_stat(10, 11, 4096).is_none());
    assert!(sample_from_stat(u64::MAX, 0, 2).is_none());
    assert!(sample_from_stat(u64::MAX, u64::MAX, 1).is_some());
}

#[test]
fn header_matches_row_columns() {
    let expected = format!(
        "{}{}{:35} {:>6} {:>6} {:>6} {:>6} {:<20}{} {:<}{}",
        "\x1b[1m", "\x1b[36m", "Filesystem", "Size", "Used", "Avail", "Use%", "Graph", RESET,
        "Mounted on", RESET
    );
    assert_eq!(header(), expected);
}

#[test]
fn row_layout() {
    let m = parse_line("/dev/sda1 / ext4 rw,relatime 0 1").unwrap();
    let s = sample_from_stat(10 * 262144, 5 * 262144, 4096).unwrap();
    let total = 10 * 1073741824u64;
    let free = 5 * 1073741824u64;
    let pct = ((total - free) as f64 / total as f64) * 100.0;
    let expected = format!(
        "{:35} {:>6} {:>6} {:>6} {:>6.1}% {} {:<}",
        "/dev/sda1",
        float_gib(total),
        float_gib(total - free),
        float_gib(free),
        pct,
        bar(GREEN, 10),
        "/"
    );
    assert_eq!(format_row(&m, &s), expected);
}

#[test]
fn row_percentage_one_decimal() {
    let m = parse_line("/dev/sdb1 /mnt/my\\040disk xfs rw 0 0").unwrap();
    let s = sample_from_stat(3, 1, 1073741824).unwrap();
    let row = format_row(&m, &s);
    assert!(row.contains("  66.7% "), "{}", row);
    assert!(row.ends_with(" /mnt/my disk"), "{}", row);
    assert!(row.contains(&bar(GREEN, 13)), "{}", row);
}

#[test]
fn end_to_end_tmpfs_filtered() {
    let l: Vec<String> = ["/dev/sda1 / ext4 rw,relatime 0 1", "tmpfs /run tmpfs rw 0 0"]
        .iter()
        .map(|s| s.to_string())
        .collect();
    let ms = select_mounts(&l);
    let samples = vec![sample_from_stat(100, 50, 4096)];
    let r = render_report(&ms, &samples);
    assert_eq!(r.len(), 2);
    assert_eq!(r[0], header());
    assert!(r[1].starts_with("/dev/sda1 "));
}

#[test]
fn end_to_end_duplicate_source() {
    let l: Vec<String> = ["/dev/sda1 / ext4 rw 0 0", "/dev/sda1 /mnt/x ext4 rw 0 0"]
        .iter()
        .map(|s| s.to_string())
        .collect();
    let ms = select_mounts(&l);
    let samples = vec![sample_from_stat(100, 50, 4096)];
    let r = render_report(&ms, &samples);
    assert_eq!(r.len(), 2);
    assert!(r[1].ends_with(" /"));
}

#[test]
fn failed_probe_gives_no_row() {
    let l: Vec<String> = ["/dev/sda1 / ext4 rw 0 0", "/dev/sdz9 /does/not/exist ext4 rw 0 0"]
        .iter()
        .map(|s| s.to_string())
        .collect();
    let ms = select_mounts(&l);
    assert_eq!(ms.len(), 2);
    let samples = vec![sample_from_stat(100, 50, 4096), None];
    let r = render_report(&ms, &samples);
    assert_eq!(r.len(), 2);
    assert!(r[1].starts_with("/dev/sda1 "));
    let r = render_report(&ms, &vec![None, None]);
    assert_eq!(r, vec![header()]);
}
