use file_recovery::carver::CarvePlan;
use file_recovery::error::{CarveError, IoError, IoErrorKind};
use file_recovery::output::{judge_save, LogEntry, OutputManager, TypeCount};
use file_recovery::report::{dry_run_entries, planned_bytes, writes_log, RunReport};

fn plan(file_type: &str, offset: u64, size: u64, truncated: bool) -> CarvePlan {
    CarvePlan {
        offset,
        size,
        file_type: file_type.to_string(),
        extension: file_type.to_string(),
        truncated,
    }
}

/// The name for a file of type `file_type` where the names in `taken` exist.
fn free_name(om: &mut OutputManager, file_type: &str, taken: &[&str]) -> String {
    let mut search = om.search(&plan(file_type, 0, 1, false));
    while taken.contains(&search.name().as_str()) {
        search = search.report_taken();
    }
    om.give(search)
}

#[test]
fn output_files_are_numbered() {
    let mut om = OutputManager::prepare(false);
    assert_eq!(free_name(&mut om, "jpg", &[]), "recovered_0001.jpg");
    assert_eq!(free_name(&mut om, "docx", &[]), "recovered_0002.docx");
    assert_eq!(om.subdirectory(&plan("jpg", 0, 1, false)), None);
    assert!(om.search(&plan("jpg", 0, 1, false)).has_next());
    for _ in 2..12344 {
        free_name(&mut om, "gz", &[]);
    }
    assert_eq!(free_name(&mut om, "gz", &[]), "recovered_12345.gz");
}

#[test]
fn the_least_free_number_after_the_last_is_given() {
    let mut om = OutputManager::prepare(false);
    let taken = ["recovered_0001.jpg", "recovered_0002.jpg", "recovered_0004.jpg"];
    assert_eq!(free_name(&mut om, "jpg", &taken), "recovered_0003.jpg");
    assert_eq!(free_name(&mut om, "png", &taken), "recovered_0004.png");
    // Numbers that were passed over or given do not come back.
    assert_eq!(free_name(&mut om, "jpg", &[]), "recovered_0005.jpg");
    // Searching alone gives nothing away.
    let search = om.search(&plan("gif", 0, 1, false)).report_taken().report_taken();
    assert_eq!(search.name(), "recovered_0008.gif");
    assert_eq!(free_name(&mut om, "gif", &[]), "recovered_0006.gif");
}

#[test]
fn output_files_can_be_sorted_by_type() {
    let om = OutputManager::prepare(true);
    assert_eq!(om.subdirectory(&plan("png", 0, 1, false)).as_deref(), Some("png"));
}

#[test]
fn saves_are_judged_by_their_outcome() {
    let full = IoError { kind: IoErrorKind::Other, os_code: Some(28), message: "no space".into() };
    let v = judge_save("o/f", Err(full), Some(0), 28);
    assert!(v.remove);
    assert!(matches!(v.result, Err(CarveError::DiskFull(p)) if p == "o/f"));
    for (len, removed) in [(Some(0), true), (Some(5), false), (None, false)] {
        let bad = IoError { kind: IoErrorKind::Other, os_code: Some(5), message: "bad".into() };
        let v = judge_save("o/f", Err(bad), len, 28);
        assert_eq!(v.remove, removed);
        assert_eq!(v.result.unwrap_err().message(), "I/O error on o/f: bad");
    }
    for (copied, len) in [(0, Some(10)), (10, Some(0)), (10, None)] {
        let v = judge_save("o/f", Ok(copied), len, 28);
        assert!(v.remove);
        assert_eq!(v.result.unwrap_err().message(), "I/O error on o/f: carved file is zero-length");
    }
    let v = judge_save("o/f", Ok(10), Some(10), 28);
    assert!(!v.remove && v.result.is_ok());
}

fn counts(report: &RunReport) -> Vec<(&str, TypeCount)> {
    report.counts.iter().map(|t| (t.file_type.as_str(), t.count)).collect()
}

#[test]
fn files_are_counted_by_type() {
    let mut report = RunReport::new(vec!["read error".to_string()]);
    report.note_saved(&plan("png", 5, 100, false), "out/recovered_0001.png".to_string(), 77);
    report.count(&plan("gif", 6, 30, true));
    report.count(&plan("png", 7, 1, true));
    report.count(&plan("zip", 8, 2, false));
    assert_eq!(
        counts(&report),
        vec![
            ("gif", TypeCount { files: 1, bytes: 30 }),
            ("png", TypeCount { files: 2, bytes: 101 }),
            ("zip", TypeCount { files: 1, bytes: 2 }),
        ]
    );
    assert_eq!((report.total_files, report.total_bytes, report.truncated_count), (4, 133, 2));
    assert_eq!(report.errors, vec!["read error"]);
    assert_eq!(report.entries.len(), 1);
    let LogEntry { file, offset, size, file_type, truncated, timestamp_unix } = &report.entries[0];
    assert_eq!(
        (file.as_str(), *offset, *size, file_type.as_str(), *truncated, *timestamp_unix),
        ("out/recovered_0001.png", 5, 100, "png", false, 77)
    );
}

#[test]
fn failures_are_noted_and_full_disks_stop_the_run() {
    let mut report = RunReport::new(Vec::new());
    let broken = CarveError::Io {
        path: "o/f".to_string(),
        source: IoError { kind: IoErrorKind::Other, os_code: None, message: "broken".to_string() },
    };
    assert!(!report.note_failure(&plan("jpg", 4096, 10, false), broken));
    assert!(report.note_failure(&plan("jpg", 9, 1, false), CarveError::DiskFull("o/g".into())));
    assert_eq!(
        report.errors,
        vec![
            "offset 4096 (jpg): I/O error on o/f: broken",
            "output disk full at o/g — recovery stopped early",
        ]
    );
    assert_eq!(report.total_files, 0);
}

#[test]
fn dry_runs_log_what_they_would_have_written() {
    let plans = vec![plan("jpg", 1, 2, false), plan("gz", 3, 4, true)];
    let entries = dry_run_entries(&plans, 99);
    let shown: Vec<(&str, u64, u64, &str, bool, u64)> = entries
        .iter()
        .map(|e| {
            (e.file.as_str(), e.offset, e.size, e.file_type.as_str(), e.truncated, e.timestamp_unix)
        })
        .collect();
    assert_eq!(
        shown,
        vec![
            ("(not written — dry run) would-be .jpg", 1, 2, "jpg", false, 99),
            ("(not written — dry run) would-be .gz", 3, 4, "gz", true, 99),
        ]
    );
    assert_eq!(planned_bytes(&plans), Some(6));
    assert_eq!(planned_bytes(&[plan("a", 0, u64::MAX, false), plan("a", 0, 1, false)]), None);
    assert!(writes_log(false, false) && writes_log(true, true) && !writes_log(true, false));
}

#[test]
fn logs_have_an_entry_for_each_file_that_is_counted() {
    let plans =
        vec![plan("png", 5, 100, false), plan("gif", 60, 30, true), plan("png", 200, 7, false)];
    let mut report = RunReport::new(Vec::new());
    let mut dry = RunReport::new(Vec::new());
    for p in &plans {
        report.note_saved(p, format!("o/{}", p.offset), 9);
        report.note_failure(p, CarveError::Aborted);
        dry.count(p);
    }
    assert!(dry.entries.is_empty());
    assert_eq!(report.errors.len(), 3);
    for (report, entries) in [(&report, &report.entries), (&dry, &dry_run_entries(&plans, 9))] {
        assert_eq!(entries.len() as u64, report.total_files);
        assert_eq!(entries.iter().map(|e| e.size).sum::<u64>(), report.total_bytes);
        assert_eq!(entries.iter().filter(|e| e.truncated).count() as u64, report.truncated_count);
        for (e, p) in entries.iter().zip(&plans) {
            assert_eq!((e.offset, e.size, e.truncated), (p.offset, p.size, p.truncated));
            assert_eq!(e.file_type, p.file_type);
        }
    }
}
