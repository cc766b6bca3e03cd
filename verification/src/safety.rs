//! Safety rules: who may read a device, what users are warned of, what they
//! have to confirm, and where output may not go.

use vstd::prelude::*;

use crate::disk::SourceKind;
use crate::error::{CarveError, CarveErrorView, IoError};
use crate::pieces::{
    after_last, after_prefix, first_word, first_word_of, is_digit, leading_digits, lines,
    lines_of, pieces, strip_prefix, tail_after, take_digits, trim, trim_leading, trim_start,
    trimmed, trimmed_start, without_leading,
};
use crate::text::{all_digits, chars_of, same_chars, same_text, string_of, texts};

verus! {

/// Whether the effective user number is that of root.
pub fn is_root(euid: u32) -> (yes: bool)
    ensures
        yes == (euid == 0),
{
    euid == 0
}

/// Why reading a device needs root, and what to do about it.
pub open spec fn root_words(device: Seq<char>) -> Seq<char> {
    "error: reading raw device "@ + device
        + " requires root privileges.\nRaw block devices (/dev/rdisk*) are protected by macOS; without sudo the open will fail.\nRe-run with sudo, e.g.:\n  sudo file-recovery --device "@
        + device
        + " --output /Volumes/External/recovered\n(Scanning a regular disk-image file with --allow-file does not require root.)"@
}

/// Why reading `device` needs root, and what to do about it.
pub fn root_explanation(device: &str) -> (text: String)
    ensures
        text@ == root_words(device@),
{
    let mut text: String = String::new();
    text.append("error: reading raw device ");
    text.append(device);
    text.append(
        " requires root privileges.\nRaw block devices (/dev/rdisk*) are protected by macOS; without sudo the open will fail.\nRe-run with sudo, e.g.:\n  sudo file-recovery --device ",
    );
    text.append(device);
    text.append(
        " --output /Volumes/External/recovered\n(Scanning a regular disk-image file with --allow-file does not require root.)",
    );
    assert(text@ =~= root_words(device@));
    text
}

// ---------------------------------------------------------------------------
// Warnings
// ---------------------------------------------------------------------------

/// The warnings that are shown before any access to the source, whatever the
/// options, line by line.
pub open spec fn warnings(device: Seq<char>, output: Seq<char>) -> Seq<Seq<char>> {
    seq![
        "======================================================================"@,
        "                     file-recovery — SAFETY WARNINGS"@,
        "======================================================================"@,
        "WARNING: This tool reads raw disk data. Use at your own risk."@,
        "WARNING: For best results, the source disk should not be actively in use (consider booting from an external drive or using Target Disk Mode)."@,
        "WARNING: If FileVault is enabled, deleted file content may be encrypted and unrecoverable without keys."@,
        "WARNING: SSDs with TRIM enabled may have already permanently zeroed deleted blocks — recovery may not be possible."@,
        "WARNING: Do not write recovered files to the same disk you are scanning — this can overwrite recoverable data."@,
        "This tool is READ-ONLY and will not modify the source disk in any way."@,
        ""@,
        "This tool will NOT:"@,
        "  - delete any files or data"@,
        "  - modify the source disk"@,
        "  - attempt to repair file system corruption"@,
        "  - bypass FileVault encryption"@,
        "  - access system-protected volumes without explicit user consent"@,
        "  - recover files to the same disk being scanned"@,
        "  - run without root/sudo for raw devices (it will explain why if missing)"@,
        ""@,
        "Source: "@ + device,
        "Output: "@ + output,
        "Recover only your OWN data — see --help / README for legal terms."@,
        "======================================================================"@,
    ]
}

/// `label` and `text` in one line.
fn labelled(label: &str, text: &str) -> (line: String)
    ensures
        line@ == label@ + text@,
{
    let mut line: String = String::new();
    line.append(label);
    line.append(text);
    assert(line@ =~= label@ + text@);
    line
}

/// The warnings that are shown before any access to the source, line by line.
pub fn warning_lines(device: &str, output: &str) -> (lines: Vec<String>)
    ensures
        texts(lines@) == warnings(device@, output@),
{
    let mut lines: Vec<String> = Vec::new();
    lines.push("======================================================================".to_string());
    lines.push("                     file-recovery — SAFETY WARNINGS".to_string());
    lines.push("======================================================================".to_string());
    lines.push("WARNING: This tool reads raw disk data. Use at your own risk.".to_string());
    lines.push("WARNING: For best results, the source disk should not be actively in use (consider booting from an external drive or using Target Disk Mode).".to_string());
    lines.push("WARNING: If FileVault is enabled, deleted file content may be encrypted and unrecoverable without keys.".to_string());
    lines.push("WARNING: SSDs with TRIM enabled may have already permanently zeroed deleted blocks — recovery may not be possible.".to_string());
    lines.push("WARNING: Do not write recovered files to the same disk you are scanning — this can overwrite recoverable data.".to_string());
    lines.push("This tool is READ-ONLY and will not modify the source disk in any way.".to_string());
    lines.push("".to_string());
    lines.push("This tool will NOT:".to_string());
    lines.push("  - delete any files or data".to_string());
    lines.push("  - modify the source disk".to_string());
    lines.push("  - attempt to repair file system corruption".to_string());
    lines.push("  - bypass FileVault encryption".to_string());
    lines.push("  - access system-protected volumes without explicit user consent".to_string());
    lines.push("  - recover files to the same disk being scanned".to_string());
    lines.push("  - run without root/sudo for raw devices (it will explain why if missing)".to_string());
    lines.push("".to_string());
    lines.push(labelled("Source: ", device));
    lines.push(labelled("Output: ", output));
    lines.push("Recover only your OWN data — see --help / README for legal terms.".to_string());
    lines.push("======================================================================".to_string());
    assert(texts(lines@) =~= warnings(device@, output@));
    lines
}

/// The value of the field `name` in the report on a disk: that of the first
/// line that begins with the name, after white space; what stands around it,
/// colons first, does not count.
pub open spec fn field_in(report: Seq<Seq<char>>, name: Seq<char>) -> Option<Seq<char>>
    decreases report.len(),
{
    if report.len() == 0 {
        None
    } else {
        match after_prefix(trimmed_start(report[0]), name) {
            Some(rest) => Some(trimmed(without_leading(rest, ':'))),
            None => field_in(report.drop_first(), name),
        }
    }
}

/// Whether the field `name` of a report has the value "Yes".
fn field_is_yes(report: &Vec<Vec<char>>, name: &str) -> (yes: bool)
    ensures
        yes == (field_in(pieces(report@), name@) == Some("Yes"@)),
{
    let wanted: Vec<char> = chars_of(name);
    let ghost all: Seq<Seq<char>> = pieces(report@);
    let mut k: usize = 0;
    assert(all.skip(0) =~= all);
    while k < report.len()
        invariant
            k <= report@.len(),
            wanted@ == name@,
            all == pieces(report@),
            field_in(all, name@) == field_in(all.skip(k as int), name@),
        decreases report@.len() - k,
    {
        assert(all.skip(k as int)[0] == report@[k as int]@);
        assert(all.skip(k as int).drop_first() =~= all.skip(k + 1));
        if let Some(rest) = strip_prefix(trim_start(&report[k]), &wanted) {
            return same_chars(trim(trim_leading(rest, ':')), &chars_of("Yes"));
        }
        k = k + 1;
    }
    false
}

/// The warning that deleted content is encrypted.
pub open spec fn filevault_warning() -> Seq<char> {
    "WARNING: FileVault is ENABLED on this volume — deleted content is encrypted at rest and carved bytes will very likely be unrecoverable ciphertext."@
}

/// The warning that deleted blocks may be gone.
pub open spec fn solid_state_warning() -> Seq<char> {
    "WARNING: This is a solid-state device. TRIM may have already permanently zeroed deleted blocks — recovery may not be possible."@
}

/// The warning that the source may change.
pub open spec fn mounted_warning() -> Seq<char> {
    "WARNING: The source volume is currently MOUNTED. Live writes can overwrite recoverable data at any moment. For best results, unmount it or scan from an external boot / Target Disk Mode."@
}

/// The warning that the running system lives on the source.
pub open spec fn boot_disk_warning(disk: Seq<char>) -> Seq<char> {
    "WARNING: The source appears to be the LIVE BOOT DISK ("@ + disk
        + "). Scanning the running system disk is the worst case for recovery — every running process may overwrite deleted data. Strongly consider booting from an external drive instead."@
}

/// `warning`, if it applies.
pub open spec fn if_so(applies: bool, warning: Seq<char>) -> Seq<Seq<char>> {
    if applies {
        seq![warning]
    } else {
        Seq::empty()
    }
}

/// What is said of the disk `device`: warnings that follow from the report on
/// it, if there is one, and from the disk that the system was started from, if
/// it is known.
pub open spec fn disk_warnings(
    device: Seq<char>,
    report: Option<Seq<char>>,
    boot: Option<Seq<char>>,
) -> Seq<Seq<char>> {
    let yes = |name: Seq<char>|
        report matches Some(r) && field_in(lines_of(r), name) == Some("Yes"@);
    if_so(yes("FileVault"@), filevault_warning()) + if_so(
        yes("Solid State"@),
        solid_state_warning(),
    ) + if_so(yes("Mounted"@), mounted_warning()) + (match (base_disk(device), boot) {
        (Some(s), Some(b)) => if_so(s == b, boot_disk_warning(b)),
        _ => Seq::empty(),
    })
}

/// What an optional string says.
pub open spec fn said(s: Option<&str>) -> Option<Seq<char>> {
    match s {
        Some(x) => Some(x@),
        None => None,
    }
}

/// Appends `warning` to `lines`, if it applies.
fn push_if(lines: &mut Vec<String>, applies: bool, warning: &str)
    ensures
        texts(final(lines)@) == texts(old(lines)@) + if_so(applies, warning@),
{
    if applies {
        lines.push(warning.to_string());
    }
    assert(texts(lines@) =~= texts(old(lines)@) + if_so(applies, warning@));
}

/// The warnings about the disk of a source, line by line. There are none about
/// image files.
pub fn environment_warnings(
    device: &str,
    kind: SourceKind,
    report: Option<&str>,
    boot: Option<&str>,
) -> (found: Vec<String>)
    ensures
        texts(found@) == (if kind == SourceKind::Device {
            disk_warnings(device@, said(report), said(boot))
        } else {
            Seq::<Seq<char>>::empty()
        }),
{
    let mut found: Vec<String> = Vec::new();
    if kind != SourceKind::Device {
        assert(texts(found@) =~= Seq::<Seq<char>>::empty());
        return found;
    }
    let rows: Vec<Vec<char>> = match report {
        Some(r) => lines(&chars_of(r)),
        None => Vec::new(),
    };
    let ghost none: Seq<Seq<char>> = Seq::empty();
    assert(report is None ==> pieces(rows@) =~= none);
    let encrypted: bool = field_is_yes(&rows, "FileVault");
    push_if(
        &mut found,
        encrypted,
        "WARNING: FileVault is ENABLED on this volume — deleted content is encrypted at rest and carved bytes will very likely be unrecoverable ciphertext.",
    );
    let solid: bool = field_is_yes(&rows, "Solid State");
    push_if(
        &mut found,
        solid,
        "WARNING: This is a solid-state device. TRIM may have already permanently zeroed deleted blocks — recovery may not be possible.",
    );
    let mounted: bool = field_is_yes(&rows, "Mounted");
    push_if(
        &mut found,
        mounted,
        "WARNING: The source volume is currently MOUNTED. Live writes can overwrite recoverable data at any moment. For best results, unmount it or scan from an external boot / Target Disk Mode.",
    );
    let ghost so_far: Seq<Seq<char>> = texts(found@);
    assert(so_far =~= if_so(encrypted, filevault_warning()) + if_so(solid, solid_state_warning())
        + if_so(mounted, mounted_warning()));
    if let (Some(s), Some(b)) = (base_disk_of(device), boot) {
        if same_text(s.as_str(), b) {
            let mut line: String = String::new();
            line.append("WARNING: The source appears to be the LIVE BOOT DISK (");
            line.append(b);
            line.append(
                "). Scanning the running system disk is the worst case for recovery — every running process may overwrite deleted data. Strongly consider booting from an external drive instead.",
            );
            assert(line@ =~= boot_disk_warning(b@));
            found.push(line);
            assert(texts(found@) =~= so_far + seq![boot_disk_warning(b@)]);
        }
    }
    assert(texts(found@) =~= disk_warnings(device@, said(report), said(boot)));
    found
}

// ---------------------------------------------------------------------------
// Confirmation
// ---------------------------------------------------------------------------

/// Whether the run may proceed: it may if it is forced, or if the user has
/// answered exactly "YES", in upper case. `reply` is the line that the user
/// has entered, or the failure to read it; there is none at the end of input.
pub fn confirm_or_abort(force: bool, reply: Option<Result<String, IoError>>) -> (r: Result<
    (),
    CarveError,
>)
    ensures
        r is Ok <==> force || (reply matches Some(Ok(line)) && trimmed(line@) == "YES"@),
        r matches Err(e) ==> e@ == (match reply {
            Some(Err(cause)) => CarveErrorView::Io { path: "<stdin>"@, source: cause@ },
            _ => CarveErrorView::Aborted,
        }),
{
    if force {
        return Ok(());
    }
    match reply {
        None => Err(CarveError::Aborted),
        Some(Err(cause)) => Err(CarveError::Io { path: "<stdin>".to_string(), source: cause }),
        Some(Ok(line)) => {
            if same_chars(trim(&chars_of(line.as_str())), &chars_of("YES")) {
                Ok(())
            } else {
                Err(CarveError::Aborted)
            }
        },
    }
}

// ---------------------------------------------------------------------------
// Disks
// ---------------------------------------------------------------------------

/// The disk that a device path belongs to: "disk2" for "/dev/rdisk2s1". `None`
/// if the path is not that of a disk.
pub open spec fn base_disk(path: Seq<char>) -> Option<Seq<char>> {
    let name = after_last(path, '/');
    let plain = match after_prefix(name, "r"@) {
        Some(rest) => rest,
        None => name,
    };
    match after_prefix(plain, "disk"@) {
        Some(rest) => if leading_digits(rest).len() > 0 {
            Some("disk"@ + leading_digits(rest))
        } else {
            None
        },
        None => None,
    }
}

/// What an optional string says.
pub open spec fn told(s: Option<String>) -> Option<Seq<char>> {
    match s {
        Some(x) => Some(x@),
        None => None,
    }
}

/// The disk that the device path `dev_path` belongs to.
pub fn base_disk_of(dev_path: &str) -> (disk: Option<String>)
    ensures
        told(disk) == base_disk(dev_path@),
{
    let chars: Vec<char> = chars_of(dev_path);
    let name: &[char] = tail_after(&chars, '/');
    let plain: &[char] = match strip_prefix(name, &chars_of("r")) {
        Some(rest) => rest,
        None => name,
    };
    match strip_prefix(plain, &chars_of("disk")) {
        Some(rest) => {
            let digits: &[char] = take_digits(rest);
            if digits.len() == 0 {
                return None;
            }
            let mut disk: String = String::new();
            disk.append("disk");
            disk.append(string_of(digits).as_str());
            assert(disk@ =~= "disk"@ + digits@);
            Some(disk)
        },
        None => None,
    }
}

/// The file system that a table of file systems names last: the first word of
/// its last line.
pub open spec fn filesystem_in(table: Seq<char>) -> Option<Seq<char>> {
    let rows = lines_of(table);
    if rows.len() == 0 {
        None
    } else {
        first_word_of(rows.last())
    }
}

/// The file system that the table `text` names last.
pub fn df_filesystem(text: &str) -> (name: Option<String>)
    ensures
        told(name) == filesystem_in(text@),
{
    let rows: Vec<Vec<char>> = lines(&chars_of(text));
    if rows.len() == 0 {
        return None;
    }
    let last: &Vec<char> = &rows[rows.len() - 1];
    assert(pieces(rows@).last() == last@);
    match first_word(last) {
        Some(w) => Some(string_of(w)),
        None => None,
    }
}

/// The note on an image file in the file system of the output.
pub open spec fn same_filesystem_note() -> Seq<char> {
    "NOTE: the disk-image file and the output directory are on the same filesystem. This is safe for image files (the source is an ordinary file), but for real device scans this would be refused."@
}

/// The warning that the disks could not be told apart for certain.
pub open spec fn unverified_warning() -> Seq<char> {
    "WARNING: could not fully verify that the output disk differs from the source disk. Double-check this yourself before proceeding — writing to the source disk destroys recoverable data."@
}

/// The disk that the file system of the output is on.
pub open spec fn disk_of_filesystem(filesystem: Option<Seq<char>>) -> Option<Seq<char>> {
    match filesystem {
        Some(fs) => base_disk(fs),
        None => None,
    }
}

/// Whether output would go to the disk that is the source: by the names of the
/// disks or by the device numbers of source and output.
pub open spec fn on_same_disk(
    source: Seq<char>,
    filesystem: Option<Seq<char>>,
    source_number: Option<u64>,
    output_number: Option<u64>,
) -> bool {
    ||| base_disk(source) is Some && base_disk(source) == disk_of_filesystem(filesystem)
    ||| source_number is Some && source_number == output_number && source_number != Some(0u64)
}

/// What is to be said if output does not go to the disk that is the source.
pub open spec fn disk_note(
    kind: SourceKind,
    source: Seq<char>,
    filesystem: Option<Seq<char>>,
    source_number: Option<u64>,
    output_number: Option<u64>,
) -> Option<Seq<char>> {
    match kind {
        SourceKind::ImageFile => if source_number is Some && source_number == output_number {
            Some(same_filesystem_note())
        } else {
            None
        },
        SourceKind::Device => if base_disk(source) is None || disk_of_filesystem(
            filesystem,
        ) is None {
            Some(unverified_warning())
        } else {
            None
        },
    }
}

/// Checks that output to `output` does not go to the disk that is the source.
/// `filesystem` is the file system of the output, as far as it is known;
/// `output_number` is the number of the device that it is on. `source_number`
/// is the device number of a device that is the source, or that of the device
/// that holds an image file. Output next to an image file is safe. Returns what
/// is to be said if the check is passed.
pub fn check_same_disk(
    source: &str,
    kind: SourceKind,
    output: &str,
    filesystem: Option<&str>,
    source_number: Option<u64>,
    output_number: Option<u64>,
) -> (r: Result<Option<&'static str>, CarveError>)
    ensures
        match r {
            Ok(note) => said(note) == disk_note(
                kind,
                source@,
                said(filesystem),
                source_number,
                output_number,
            ),
            Err(e) => e@ == (CarveErrorView::SameDisk { device: source@, output: output@ }),
        },
        r is Err <==> kind == SourceKind::Device && on_same_disk(
            source@,
            said(filesystem),
            source_number,
            output_number,
        ),
{
    let same_number: bool = match (source_number, output_number) {
        (Some(s), Some(o)) => s == o,
        _ => false,
    };
    match kind {
        SourceKind::ImageFile => {
            if same_number {
                Ok(
                    Some(
                        "NOTE: the disk-image file and the output directory are on the same filesystem. This is safe for image files (the source is an ordinary file), but for real device scans this would be refused.",
                    ),
                )
            } else {
                Ok(None)
            }
        },
        SourceKind::Device => {
            let src_base: Option<String> = base_disk_of(source);
            let out_base: Option<String> = match filesystem {
                Some(fs) => base_disk_of(fs),
                None => None,
            };
            let same_name: bool = match (&src_base, &out_base) {
                (Some(s), Some(o)) => same_text(s.as_str(), o.as_str()),
                _ => false,
            };
            let zero: bool = match source_number {
                Some(s) => s == 0,
                None => true,
            };
            if same_name || (same_number && !zero) {
                return Err(
                    CarveError::SameDisk {
                        device: source.to_string(),
                        output: output.to_string(),
                    },
                );
            }
            if src_base.is_none() || out_base.is_none() {
                Ok(
                    Some(
                        "WARNING: could not fully verify that the output disk differs from the source disk. Double-check this yourself before proceeding — writing to the source disk destroys recoverable data.",
                    ),
                )
            } else {
                Ok(None)
            }
        },
    }
}

/// What follows the last separator is found whatever stands before it.
proof fn name_after_directory(dir: Seq<char>, name: Seq<char>)
    requires
        !name.contains('/'),
    ensures
        after_last(dir.push('/') + name, '/') == name,
    decreases name.len(),
{
    let path = dir.push('/') + name;
    if name.len() == 0 {
        assert(path =~= dir.push('/'));
        assert(after_last(path, '/') =~= name);
    } else {
        let rest = name.drop_last();
        assert(!rest.contains('/')) by {
            if rest.contains('/') {
                let k = rest.index_of('/');
                assert(name[k] == '/');
            }
        }
        name_after_directory(dir, rest);
        assert(path.drop_last() =~= dir.push('/') + rest);
        assert(name[name.len() - 1] != '/');
        assert(path.last() == name.last());
        assert(rest.push(name.last()) =~= name);
    }
}

/// A name without a separator stands for itself.
proof fn name_alone(name: Seq<char>)
    requires
        !name.contains('/'),
    ensures
        after_last(name, '/') == name,
    decreases name.len(),
{
    if name.len() > 0 {
        let rest = name.drop_last();
        assert(!rest.contains('/')) by {
            if rest.contains('/') {
                let k = rest.index_of('/');
                assert(name[k] == '/');
            }
        }
        name_alone(rest);
        assert(name[name.len() - 1] != '/');
        assert(rest.push(name.last()) =~= name);
    } else {
        assert(after_last(name, '/') =~= name);
    }
}

/// Digits end where something else begins.
proof fn digits_before_rest(digits: Seq<char>, rest: Seq<char>)
    requires
        forall|k: int| 0 <= k < digits.len() ==> is_digit(#[trigger] digits[k]),
        rest.len() > 0 ==> !is_digit(rest[0]),
    ensures
        leading_digits(digits + rest) == digits,
    decreases digits.len(),
{
    let all = digits + rest;
    if digits.len() == 0 {
        assert(all =~= rest);
        assert(leading_digits(all) =~= digits);
    } else {
        let fewer = digits.drop_first();
        assert(is_digit(digits[0]));
        assert forall|k: int| 0 <= k < fewer.len() implies is_digit(#[trigger] fewer[k]) by {
            assert(fewer[k] == digits[k + 1]);
        }
        digits_before_rest(fewer, rest);
        assert(all.drop_first() =~= fewer + rest);
        assert(seq![digits[0]] + fewer =~= digits);
    }
}

/// A disk, its partitions, and its raw devices all belong to that disk, in any
/// directory and by their bare names: `part` is what follows the number of the
/// disk, such as "s1".
pub proof fn partitions_belong_to_their_disk(
    dir: Seq<char>,
    digits: Seq<char>,
    part: Seq<char>,
)
    requires
        all_digits(digits),
        part.len() > 0 ==> !is_digit(part[0]),
        !part.contains('/'),
    ensures
        base_disk(dir.push('/') + ("disk"@ + digits + part)) == Some("disk"@ + digits),
        base_disk(dir.push('/') + ("rdisk"@ + digits + part)) == Some("disk"@ + digits),
        base_disk("disk"@ + digits + part) == Some("disk"@ + digits),
        base_disk("rdisk"@ + digits + part) == Some("disk"@ + digits),
        base_disk("disk"@ + digits) == Some("disk"@ + digits),
{
    reveal_strlit("disk");
    reveal_strlit("rdisk");
    reveal_strlit("r");
    let plain = "disk"@ + digits + part;
    let raw = "rdisk"@ + digits + part;
    assert forall|k: int| 0 <= k < raw.len() implies raw[k] != '/' by {
        if k < 5 {
        } else if k < 5 + digits.len() {
            assert(is_digit(digits[k - 5]));
            assert(raw[k] == digits[k - 5]);
        } else {
            assert(raw[k] == part[k - 5 - digits.len()]);
            assert(part.contains(part[k - 5 - digits.len()]));
        }
    }
    assert(raw =~= "r"@ + plain);
    assert forall|k: int| 0 <= k < plain.len() implies plain[k] != '/' by {
        assert(raw[k + 1] == plain[k]);
    }
    name_after_directory(dir, plain);
    name_after_directory(dir, raw);
    name_alone(plain);
    name_alone(raw);
    digits_before_rest(digits, part);
    assert(plain[0] == 'd');
    assert(!"r"@.is_prefix_of(plain)) by {
        assert("r"@[0] == 'r');
    }
    assert("r"@.is_prefix_of(raw));
    assert(raw.skip(1) =~= plain);
    assert("disk"@.is_prefix_of(plain));
    assert(plain.skip(4) =~= digits + part);
    // The disk itself is the case of no part.
    let disk = "disk"@ + digits;
    let none = Seq::<char>::empty();
    assert forall|k: int| 0 <= k < disk.len() implies disk[k] != '/' by {
        assert(plain[k] == disk[k]);
    }
    name_alone(disk);
    digits_before_rest(digits, none);
    assert(!"r"@.is_prefix_of(disk)) by {
        assert("r"@[0] == 'r' && disk[0] == 'd');
    }
    assert("disk"@.is_prefix_of(disk));
    assert(disk.skip(4) =~= digits);
    assert(digits + none =~= digits);
}

/// Leading digits are digits.
proof fn leading_are_digits(s: Seq<char>)
    ensures
        forall|k: int|
            0 <= k < leading_digits(s).len() ==> is_digit(#[trigger] leading_digits(s)[k]),
    decreases s.len(),
{
    if s.len() > 0 && is_digit(s[0]) {
        let rest = s.drop_first();
        leading_are_digits(rest);
        assert forall|k: int| 0 <= k < leading_digits(s).len() implies is_digit(
            #[trigger] leading_digits(s)[k],
        ) by {
            if k > 0 {
                assert(leading_digits(s)[k] == leading_digits(rest)[k - 1]);
            }
        }
    }
}

/// The disk that a path belongs to belongs to itself.
pub proof fn disks_belong_to_themselves(path: Seq<char>)
    ensures
        base_disk(path) matches Some(disk) ==> base_disk(disk) == Some(disk),
{
    if base_disk(path) is Some {
        let name = after_last(path, '/');
        let plain = match after_prefix(name, "r"@) {
            Some(rest) => rest,
            None => name,
        };
        let rest = after_prefix(plain, "disk"@)->0;
        let digits = leading_digits(rest);
        leading_are_digits(rest);
        partitions_belong_to_their_disk(Seq::empty(), digits, Seq::empty());
    }
}

} // verus!
