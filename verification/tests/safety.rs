use file_recovery::clearance::{Clearance, Stage};
use file_recovery::disk::SourceKind;
use file_recovery::error::{CarveError, IoError, IoErrorKind};
use file_recovery::safety::{
    base_disk_of, check_same_disk, confirm_or_abort, df_filesystem, environment_warnings, is_root,
    root_explanation, warning_lines,
};

#[test]
fn parses_base_disk_names() {
    assert_eq!(base_disk_of("/dev/rdisk2s1").as_deref(), Some("disk2"));
    assert_eq!(base_disk_of("/dev/disk3s1s1").as_deref(), Some("disk3"));
    assert_eq!(base_disk_of("/dev/disk10").as_deref(), Some("disk10"));
    assert_eq!(base_disk_of("/dev/rdisk2"), base_disk_of("/dev/disk2s7"));
    assert_eq!(base_disk_of("/tmp/image.dmg"), None);
}

#[test]
fn odd_device_names_have_no_base_disk() {
    assert_eq!(base_disk_of("disk4").as_deref(), Some("disk4"));
    assert_eq!(base_disk_of("disk4s2").as_deref(), Some("disk4"));
    assert_eq!(base_disk_of("rdisk12s1").as_deref(), Some("disk12"));
    assert_eq!(base_disk_of("/dev/disk"), None);
    assert_eq!(base_disk_of("/dev/rrdisk1"), None);
    assert_eq!(base_disk_of("/dev/disk2/"), None);
    assert_eq!(base_disk_of(""), None);
}

#[test]
fn only_an_exact_yes_confirms() {
    let line = |s: &str| Some(Ok(s.to_string()));
    assert!(confirm_or_abort(false, line("YES\n")).is_ok());
    assert!(confirm_or_abort(false, line("  YES \r\n")).is_ok());
    for no in ["yes\n", "Y\n", "YES!\n", "\n", "YES YES\n"] {
        assert!(matches!(confirm_or_abort(false, line(no)), Err(CarveError::Aborted)));
    }
    assert!(matches!(confirm_or_abort(false, None), Err(CarveError::Aborted)));
    assert!(confirm_or_abort(true, None).is_ok());
    let lost = IoError { kind: IoErrorKind::Other, os_code: None, message: "gone".to_string() };
    let e = confirm_or_abort(false, Some(Err(lost))).unwrap_err();
    assert_eq!(e.message(), "I/O error on <stdin>: gone");
}

#[test]
fn output_to_the_source_disk_is_refused() {
    let check = |fs: Option<&str>, rdev: Option<u64>, dev: Option<u64>| {
        check_same_disk("/dev/rdisk2s1", SourceKind::Device, "/Volumes/X", fs, rdev, dev)
    };
    let e = check(Some("/dev/disk2s5"), Some(1), Some(2)).unwrap_err();
    assert!(matches!(&e, CarveError::SameDisk { device, output }
        if device == "/dev/rdisk2s1" && output == "/Volumes/X"));
    assert!(check(Some("/dev/disk3s5"), Some(7), Some(7)).is_err());
    assert_eq!(check(Some("/dev/disk3s5"), Some(0), Some(0)).unwrap(), None);
    assert_eq!(check(Some("/dev/disk3s5"), Some(1), Some(2)).unwrap(), None);
    let unsure = check(Some("tmpfs"), None, Some(2)).unwrap().unwrap();
    assert!(unsure.starts_with("WARNING: could not fully verify"));
    assert_eq!(check(None, None, None).unwrap(), Some(unsure));
}

#[test]
fn output_next_to_an_image_file_is_only_noted() {
    let check = |s: Option<u64>, o: Option<u64>| {
        check_same_disk("image.dmg", SourceKind::ImageFile, "out", None, s, o).unwrap()
    };
    assert!(check(Some(3), Some(3)).unwrap().starts_with("NOTE: the disk-image file"));
    assert_eq!(check(Some(3), Some(4)), None);
    assert_eq!(check(None, None), None);
}

#[test]
fn file_systems_are_read_from_their_table() {
    let table = "Filesystem 512-blocks Used Available Capacity Mounted on\n/dev/disk3s1s1 100 50 50 50% /\n";
    assert_eq!(df_filesystem(table).as_deref(), Some("/dev/disk3s1s1"));
    assert_eq!(df_filesystem(""), None);
    assert_eq!(df_filesystem("a\n   \n"), None);
}

#[test]
fn disks_are_warned_about() {
    let report = "   Device Node:  /dev/disk2s1\n   Mounted:      Yes\n   FileVault:    Yes\n   Solid State:  No\n";
    let found =
        environment_warnings("/dev/rdisk2s1", SourceKind::Device, Some(report), Some("disk2"));
    assert_eq!(found.len(), 3);
    assert!(found[0].starts_with("WARNING: FileVault is ENABLED"));
    assert!(found[1].starts_with("WARNING: The source volume is currently MOUNTED."));
    assert!(found[2].starts_with("WARNING: The source appears to be the LIVE BOOT DISK (disk2)."));
    let ssd = environment_warnings("x", SourceKind::Device, Some("Solid State: Yes"), None);
    assert_eq!(ssd.len(), 1);
    assert!(ssd[0].starts_with("WARNING: This is a solid-state device."));
    assert!(environment_warnings("x", SourceKind::Device, None, Some("disk1")).is_empty());
    let image = environment_warnings("disk2", SourceKind::ImageFile, Some(report), Some("disk2"));
    assert!(image.is_empty());
}

#[test]
fn first_field_of_a_name_counts() {
    let report = "FileVault: No\nFileVault: Yes\nMounted::: Yes \n";
    let found = environment_warnings("x", SourceKind::Device, Some(report), None);
    assert_eq!(found.len(), 1);
    assert!(found[0].contains("MOUNTED"));
}

#[test]
fn warnings_name_source_and_output() {
    let lines = warning_lines("/dev/rdisk2", "/Volumes/X");
    assert_eq!(lines.len(), 23);
    assert_eq!(lines[3], "WARNING: This tool reads raw disk data. Use at your own risk.");
    assert_eq!(
        lines[8],
        "This tool is READ-ONLY and will not modify the source disk in any way."
    );
    assert_eq!(lines[19], "Source: /dev/rdisk2");
    assert_eq!(lines[20], "Output: /Volumes/X");
}

#[test]
fn devices_need_root() {
    assert!(is_root(0));
    assert!(!is_root(501));
    assert_eq!(
        root_explanation("/dev/rdisk2"),
        "error: reading raw device /dev/rdisk2 requires root privileges.\n\
         Raw block devices (/dev/rdisk*) are protected by macOS; without sudo the open will fail.\n\
         Re-run with sudo, e.g.:\n  sudo file-recovery --device /dev/rdisk2 --output /Volumes/External/recovered\n\
         (Scanning a regular disk-image file with --allow-file does not require root.)"
    );
}

#[test]
fn sources_are_opened_after_all_checks() {
    let c = Clearance::new(SourceKind::Device, "/dev/rdisk2", true);
    assert_eq!(c.stage(), Stage::Root);
    let c = c.check_root(0).unwrap();
    assert_eq!(c.stage(), Stage::Warnings);
    let c = c.warnings_shown();
    assert_eq!(c.stage(), Stage::Output);
    let other = Some("/dev/disk3s1");
    let (c, note) = c.check_disk("/Volumes/X", other, Some(1), Some(2)).unwrap();
    assert_eq!((c.stage(), note), (Stage::Log, None));
    let (c, _) = c.check_disk("/Volumes/Y", other, Some(1), Some(2)).unwrap();
    assert_eq!(c.stage(), Stage::Confirmation);
    let c = c.confirm(false, Some(Ok("YES\n".to_string()))).unwrap();
    assert_eq!(c.stage(), Stage::Ready);
    assert_eq!(c.source(), "/dev/rdisk2");
}

#[test]
fn checks_that_fail_end_the_run() {
    let text = Clearance::new(SourceKind::Device, "/dev/rdisk2", false).check_root(501);
    assert_eq!(text.err().unwrap(), root_explanation("/dev/rdisk2"));
    let at_output = || {
        let c = Clearance::new(SourceKind::ImageFile, "image.dmg", false).check_root(501).unwrap();
        c.warnings_shown()
    };
    let (c, note) = at_output().check_disk("out", None, Some(5), Some(5)).unwrap();
    assert_eq!(c.stage(), Stage::Confirmation);
    assert!(note.unwrap().starts_with("NOTE:"));
    assert!(matches!(c.confirm(false, Some(Ok("yes".into()))), Err(CarveError::Aborted)));
    let root = Clearance::new(SourceKind::Device, "/dev/disk2", false).check_root(0).unwrap();
    let same = root.warnings_shown().check_disk("o", Some("/dev/disk2s1"), None, None);
    assert!(matches!(same, Err(CarveError::SameDisk { .. })));
    let (c, _) = at_output().check_disk("out", None, None, None).unwrap();
    assert_eq!(c.confirm(true, None).unwrap().stage(), Stage::Ready);
}
