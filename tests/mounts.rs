use dfree::mounts::{is_ignored_fs_type, parse_line, select_mounts, MountFilter};
use dfree::text::{decode_escaped_spaces, split_fields};

fn lines(v: &[&str]) -> Vec<String> {
    v.iter().map(|s| s.to_string()).collect()
}

#[test]
fn split_fields_on_runs_of_white_space() {
    let f = split_fields("  /dev/sda1 \t/  ext4\trw,relatime 0 1  ");
    assert_eq!(f, vec!["/dev/sda1", "/", "ext4", "rw,relatime", "0", "1"]);
    assert!(split_fields("").is_empty());
    assert!(split_fields(" \t ").is_empty());
}

#[test]
fn parse_line_reads_four_fields() {
    let m = parse_line("/dev/sda1 / ext4 rw,relatime 0 1").unwrap();
    assert_eq!(m.source, "/dev/sda1");
    assert_eq!(m.mount_point, "/");
    assert_eq!(m.fs_type, "ext4");
    assert_eq!(m.options, "rw,relatime");
}

#[test]
fn parse_line_needs_four_fields() {
    assert!(parse_line("/dev/sda1 / ext4").is_none());
    assert!(parse_line("").is_none());
    assert!(parse_line("a b c d").is_some());
}

#[test]
fn escaped_space_in_mount_point_is_decoded() {
    let m = parse_line("/dev/sdb1 /mnt/my\\040disk ext4 rw 0 0").unwrap();
    assert_eq!(m.mount_point, "/mnt/my disk");
    assert_eq!(decode_escaped_spaces("a\\040b\\040\\040c"), "a b  c");
}

#[test]
fn other_escapes_stay_verbatim() {
    assert_eq!(decode_escaped_spaces("a\\011b\\134c"), "a\\011b\\134c");
    assert_eq!(decode_escaped_spaces("\\04"), "\\04");
    assert_eq!(decode_escaped_spaces("\\\\040"), "\\ ");
}

#[test]
fn ignored_types() {
    for t in [
        "proc", "sysfs", "tmpfs", "devtmpfs", "devpts", "cgroup", "cgroup2", "overlay", "mqueue",
        "debugfs", "securityfs", "pstore", "bpf", "fusectl", "configfs", "hugetlbfs", "tracefs",
        "autofs", "binfmt_misc", "rpc_pipefs", "efivarfs", "fuse.portal", "squashfs",
    ] {
        assert!(is_ignored_fs_type(t), "{}", t);
    }
    for t in ["ext4", "xfs", "btrfs", "vfat", "", "fuse", "tmp", "procfs"] {
        assert!(!is_ignored_fs_type(t), "{}", t);
    }
}

#[test]
fn tmpfs_is_filtered_out() {
    let l = lines(&["/dev/sda1 / ext4 rw,relatime 0 1", "tmpfs /run tmpfs rw 0 0"]);
    let r = select_mounts(&l);
    assert_eq!(r.len(), 1);
    assert_eq!(r[0].source, "/dev/sda1");
    assert_eq!(r[0].mount_point, "/");
}

#[test]
fn duplicate_source_keeps_first() {
    let l = lines(&["/dev/sda1 / ext4 rw 0 0", "/dev/sda1 /mnt/x ext4 rw 0 0"]);
    let r = select_mounts(&l);
    assert_eq!(r.len(), 1);
    assert_eq!(r[0].source, "/dev/sda1");
    assert_eq!(r[0].mount_point, "/");
}

#[test]
fn ignored_line_does_not_mark_source_seen() {
    let l = lines(&["none /a tmpfs rw 0 0", "none /b ext4 rw 0 0", "none /c ext4 rw 0 0"]);
    let r = select_mounts(&l);
    assert_eq!(r.len(), 1);
    assert_eq!(r[0].mount_point, "/b");
}

#[test]
fn each_first_seen_line_selected_once() {
    let l = lines(&[
        "/dev/sda1 / ext4 rw 0 0",
        "short line",
        "proc /proc proc rw 0 0",
        "/dev/sdb1 /home xfs rw 0 0",
        "/dev/sda1 /srv ext4 rw 0 0",
        "/dev/sdc1 /mnt/a\\040b vfat rw 0 0",
    ]);
    let r = select_mounts(&l);
    let got: Vec<(&str, &str)> =
        r.iter().map(|m| (m.source.as_str(), m.mount_point.as_str())).collect();
    assert_eq!(got, vec![("/dev/sda1", "/"), ("/dev/sdb1", "/home"), ("/dev/sdc1", "/mnt/a b")]);
}

#[test]
fn filter_accepts_step_by_step() {
    let mut f = MountFilter::new();
    assert!(f.accept("/dev/sda1 / ext4 rw 0 0").is_some());
    assert!(f.accept("/dev/sda1 /x ext4 rw 0 0").is_none());
    assert!(f.accept("tmpfs /run tmpfs rw 0 0").is_none());
    assert!(f.accept("/dev/sda2").is_none());
    assert_eq!(f.accept("/dev/sda2 /boot vfat rw 0 0").unwrap().mount_point, "/boot");
}

#[test]
fn empty_listing_selects_nothing() {
    assert!(select_mounts(&Vec::new()).is_empty());
}
