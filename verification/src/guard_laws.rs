//! What stands between a run and the disk that it reads: what is taken for a
//! source, what is warned of, and what is refused.

use vstd::prelude::*;

use crate::clearance::{is_cleared, is_rightly_passed, Passed};
use crate::disk::{kind_of, size_of_source, PathType, SourceKind};
use crate::error::{CarveError, CarveErrorView, IoErrorView};
use crate::options::size_complaint;
use crate::pieces::{
    after_last, after_prefix, is_digit, is_space, leading_digits, lines_of, trimmed, trimmed_start,
};
use crate::safety::{
    base_disk, disk_note, disk_warnings, field_in, filesystem_in, on_same_disk,
    partitions_belong_to_their_disk, root_words, warnings,
};
use crate::scanner::{block_note, region_note};
use crate::text::{all_digits, decimal};
use crate::text_laws::{
    blanks_in_front, first_words_are_found, is_blank, leading_characters_are_taken_off, lines_follow,
    prefixes_come_off, trimming_takes_off_white_space,
};

verus! {

// ---------------------------------------------------------------------------
// Sources
// ---------------------------------------------------------------------------

/// Devices are always taken, as such; files are taken if they are allowed, as
/// images; nothing else is.
pub proof fn sources_are_devices_or_allowed_files(meta: PathType, allow_file: bool)
    ensures
        kind_of(meta, allow_file) == Some(SourceKind::Device) <==> meta.is_block_device
            || meta.is_char_device,
        kind_of(meta, allow_file) == Some(SourceKind::ImageFile) <==> meta.is_file && allow_file
            && !meta.is_block_device && !meta.is_char_device,
{
}

/// An image file has its length. A device has the size that it states, or else
/// where its end was found; a size of zero is none.
pub proof fn sizes_of_sources(stated: u64, end: Option<u64>, file_len: u64, any: Option<u64>)
    ensures
        size_of_source(SourceKind::ImageFile, any, end, file_len) == Some(file_len),
        stated > 0 ==> size_of_source(SourceKind::Device, Some(stated), end, file_len) == Some(
            stated,
        ),
        size_of_source(SourceKind::Device, Some(0), end, file_len) is None,
        end matches Some(e) && e > 0 ==> size_of_source(SourceKind::Device, None, end, file_len)
            == end,
        end is None || end == Some(0u64) ==> size_of_source(
            SourceKind::Device,
            None,
            end,
            file_len,
        ) is None,
{
}

// ---------------------------------------------------------------------------
// Warnings
// ---------------------------------------------------------------------------

/// The value of a field is what stands on the first line that begins with its
/// name, whatever white space and colons stand around it.
pub proof fn fields_are_found(
    a: Seq<Seq<char>>,
    front: Seq<char>,
    name: Seq<char>,
    colons: nat,
    gap: Seq<char>,
    value: Seq<char>,
    back: Seq<char>,
    b: Seq<Seq<char>>,
)
    requires
        forall|k: int|
            0 <= k < a.len() ==> after_prefix(trimmed_start(#[trigger] a[k]), name) is None,
        is_blank(front),
        is_blank(gap),
        is_blank(back),
        name.len() > 0,
        !is_space(name[0]),
        value.len() > 0 && !is_space(value[0]) && !is_space(value.last()),
        value[0] != ':',
    ensures
        field_in(
            a + seq![front + name + Seq::new(colons, |k: int| ':') + gap + value + back] + b,
            name,
        ) == Some(value),
        field_in(a, name) is None,
    decreases a.len(),
{
    let line = front + name + Seq::new(colons, |k: int| ':') + gap + value + back;
    let all = a + seq![line] + b;
    if a.len() > 0 {
        assert(all[0] == a[0]);
        assert(after_prefix(trimmed_start(a[0]), name) is None);
        let rest = a.drop_first();
        assert forall|k: int| 0 <= k < rest.len() implies after_prefix(
            trimmed_start(#[trigger] rest[k]),
            name,
        ) is None by {
            assert(rest[k] == a[k + 1]);
        }
        fields_are_found(rest, front, name, colons, gap, value, back, b);
        assert(all.drop_first() =~= rest + seq![line] + b);
    } else {
        assert(all[0] == line);
        let tail = Seq::new(colons, |k: int| ':') + gap + value + back;
        let body = name + tail;
        let after = gap + value + back;
        assert(line =~= front + body);
        assert(body[0] == name[0]);
        blanks_in_front(front, body);
        prefixes_come_off(body, name, tail);
        assert(tail =~= Seq::new(colons, |k: int| ':') + after);
        assert(after[0] != ':') by {
            if gap.len() > 0 {
                assert(after[0] == gap[0]);
                assert(is_space(gap[0]));
            } else {
                assert(after[0] == value[0]);
            }
        }
        leading_characters_are_taken_off(colons, ':', after);
        trimming_takes_off_white_space(gap, value, back);
    }
}

/// How many of four facts hold.
pub open spec fn count_of(a: bool, b: bool, c: bool, d: bool) -> int {
    (if a {
        1int
    } else {
        0int
    }) + (if b {
        1int
    } else {
        0int
    }) + (if c {
        1int
    } else {
        0int
    }) + (if d {
        1int
    } else {
        0int
    })
}

/// There is one warning for each danger, in this order, and no other: that the report on the disk
/// says "Yes" to encryption, to solid state or to being mounted, and that the disk
/// is the one that the system was started from.
pub proof fn dangers_are_warned_of(
    device: Seq<char>,
    report: Seq<char>,
    boot: Option<Seq<char>>,
)
    ensures
        ({
            let rows = lines_of(report);
            let encrypted = field_in(rows, "FileVault"@) == Some("Yes"@);
            let solid = field_in(rows, "Solid State"@) == Some("Yes"@);
            let mounted = field_in(rows, "Mounted"@) == Some("Yes"@);
            let live = boot is Some && base_disk(device) == boot;
            let said = disk_warnings(device, Some(report), boot);
            &&& said.len() == count_of(encrypted, solid, mounted, live)
            &&& encrypted ==> said[0]
                == "WARNING: FileVault is ENABLED on this volume — deleted content is encrypted at rest and carved bytes will very likely be unrecoverable ciphertext."@
            &&& solid ==> said[count_of(encrypted, false, false, false)]
                == "WARNING: This is a solid-state device. TRIM may have already permanently zeroed deleted blocks — recovery may not be possible."@
            &&& mounted ==> said[count_of(encrypted, solid, false, false)]
                == "WARNING: The source volume is currently MOUNTED. Live writes can overwrite recoverable data at any moment. For best results, unmount it or scan from an external boot / Target Disk Mode."@
            &&& live ==> said[count_of(encrypted, solid, mounted, false)]
                == "WARNING: The source appears to be the LIVE BOOT DISK ("@ + boot->0
                + "). Scanning the running system disk is the worst case for recovery — every running process may overwrite deleted data. Strongly consider booting from an external drive instead."@
        }),
        disk_warnings(device, None, None).len() == 0,
        disk_warnings(device, None, boot).len() == count_of(
            false,
            false,
            false,
            boot is Some && base_disk(device) == boot,
        ),
{
}

// ---------------------------------------------------------------------------
// Disks
// ---------------------------------------------------------------------------

/// Whether a path is one of a disk of number `digits`: the disk itself, a part of
/// it or its raw form, in some directory.
pub open spec fn is_path_of_disk(
    path: Seq<char>,
    dir: Seq<char>,
    raw: bool,
    digits: Seq<char>,
    part: Seq<char>,
) -> bool {
    &&& all_digits(digits)
    &&& part.len() > 0 ==> !is_digit(part[0])
    &&& !part.contains('/')
    &&& path == dir + seq!['/'] + (if raw {
        "rdisk"@
    } else {
        "disk"@
    }) + digits + part
}

/// The disk of such a path.
proof fn disk_of_path(
    path: Seq<char>,
    dir: Seq<char>,
    raw: bool,
    digits: Seq<char>,
    part: Seq<char>,
)
    requires
        is_path_of_disk(path, dir, raw, digits, part),
    ensures
        base_disk(path) == Some("disk"@ + digits),
{
    partitions_belong_to_their_disk(dir, digits, part);
    if raw {
        assert(path =~= dir.push('/') + ("rdisk"@ + digits + part));
    } else {
        assert(path =~= dir.push('/') + ("disk"@ + digits + part));
    }
}

/// Output to the disk that is the source is refused: to whatever part of it, and
/// however the two are named. So is output to a device of the same number, other
/// than zero. Output to another disk is not, unless the numbers are the same.
pub proof fn output_to_the_source_is_refused(
    source: Seq<char>,
    dir: Seq<char>,
    raw: bool,
    digits: Seq<char>,
    part: Seq<char>,
    target: Seq<char>,
    target_dir: Seq<char>,
    target_raw: bool,
    target_digits: Seq<char>,
    target_part: Seq<char>,
    source_number: Option<u64>,
    output_number: Option<u64>,
)
    requires
        is_path_of_disk(source, dir, raw, digits, part),
        is_path_of_disk(target, target_dir, target_raw, target_digits, target_part),
    ensures
        on_same_disk(source, Some(target), source_number, output_number) <==> digits
            == target_digits || (source_number matches Some(n) && n != 0 && output_number
            == source_number),
        disk_note(
            SourceKind::Device,
            source,
            Some(target),
            source_number,
            output_number,
        ) is None,
        disk_note(
            SourceKind::Device,
            source,
            None,
            source_number,
            output_number,
        ) is Some,
{
    disk_of_path(source, dir, raw, digits, part);
    disk_of_path(target, target_dir, target_raw, target_digits, target_part);
    reveal_strlit("disk");
    let s = "disk"@ + digits;
    let t = "disk"@ + target_digits;
    if s == t {
        assert(s.skip(4) =~= digits);
        assert(t.skip(4) =~= target_digits);
    }
}

/// Nothing but a disk, its parts and its raw forms belongs to a disk: such a path
/// ends, after its last separator, with "disk", or "rdisk", and a number.
pub proof fn only_disks_have_a_disk(path: Seq<char>) -> (parts: (bool, Seq<char>, Seq<char>))
    requires
        base_disk(path) is Some,
    ensures
        all_digits(parts.1),
        parts.2.len() > 0 ==> !is_digit(parts.2[0]),
        base_disk(path) == Some("disk"@ + parts.1),
        after_last(path, '/') == (if parts.0 {
            "rdisk"@
        } else {
            "disk"@
        }) + parts.1 + parts.2,
{
    reveal_strlit("r");
    reveal_strlit("disk");
    reveal_strlit("rdisk");
    let name = after_last(path, '/');
    let raw = after_prefix(name, "r"@) is Some;
    let plain = if raw {
        after_prefix(name, "r"@)->0
    } else {
        name
    };
    if raw {
        prefixes_come_off(name, "r"@, plain);
    }
    let rest = after_prefix(plain, "disk"@)->0;
    prefixes_come_off(plain, "disk"@, rest);
    let digits = leading_digits(rest);
    let part = digits_are_in_front(rest);
    assert("rdisk"@ =~= "r"@ + "disk"@);
    assert(name =~= (if raw {
        "rdisk"@
    } else {
        "disk"@
    }) + digits + part);
    (raw, digits, part)
}

/// What follows the digits in front of a text.
proof fn digits_are_in_front(s: Seq<char>) -> (rest: Seq<char>)
    ensures
        s == leading_digits(s) + rest,
        rest.len() > 0 ==> !is_digit(rest[0]),
        forall|k: int|
            0 <= k < leading_digits(s).len() ==> is_digit(#[trigger] leading_digits(s)[k]),
    decreases s.len(),
{
    if s.len() > 0 && is_digit(s[0]) {
        let tail = s.drop_first();
        let rest = digits_are_in_front(tail);
        let all = leading_digits(s);
        assert forall|k: int| 0 <= k < all.len() implies is_digit(#[trigger] all[k]) by {
            if k > 0 {
                assert(all[k] == leading_digits(tail)[k - 1]);
            }
        }
        assert(tail =~= leading_digits(tail) + rest);
        assert(s =~= seq![s[0]] + tail);
        assert(s =~= all + rest);
        rest
    } else {
        assert(s =~= leading_digits(s) + s);
        s
    }
}

/// Where nothing is known of the disk of the output, device numbers decide; what
/// then passes is not verified, which is said. Of an image file, only that the
/// output lies in its file system is said.
pub proof fn unknown_disks_are_warned_of(
    source: Seq<char>,
    filesystem: Option<Seq<char>>,
    source_number: Option<u64>,
    output_number: Option<u64>,
)
    ensures
        on_same_disk(source, None, source_number, output_number) <==> (source_number matches Some(
            n,
        ) && n != 0 && output_number == source_number),
        disk_note(SourceKind::Device, source, None, source_number, output_number) == Some(
            "WARNING: could not fully verify that the output disk differs from the source disk. Double-check this yourself before proceeding — writing to the source disk destroys recoverable data."@,
        ),
        disk_note(SourceKind::ImageFile, source, filesystem, source_number, output_number)
            is Some <==> source_number is Some && source_number == output_number,
        source_number is Some && source_number == output_number ==> disk_note(
            SourceKind::ImageFile,
            source,
            filesystem,
            source_number,
            output_number,
        ) == Some(
            "NOTE: the disk-image file and the output directory are on the same filesystem. This is safe for image files (the source is an ordinary file), but for real device scans this would be refused."@,
        ),
{
}

/// The file system is read from the last line of a table: its first word.
pub proof fn last_line_names_the_filesystem(
    a: Seq<char>,
    blank: Seq<char>,
    name: Seq<char>,
    rest: Seq<char>,
    line: Seq<char>,
)
    requires
        a.len() == 0 || a.last() == '\n',
        is_blank(blank),
        name.len() > 0,
        forall|k: int| 0 <= k < name.len() ==> !is_space(#[trigger] name[k]),
        rest.len() > 0 ==> is_space(rest[0]),
        line == blank + name + rest,
        !line.contains('\n'),
        line.last() != '\r',
    ensures
        filesystem_in(a + line + seq!['\n']) == Some(name),
        filesystem_in(a + line) == Some(name),
        filesystem_in(Seq::<char>::empty()) is None,
{
    lines_follow(a, line);
    first_words_are_found(blank, name, rest);
    assert(lines_of(a).push(line).last() == line);
}

// ---------------------------------------------------------------------------
// Clearance
// ---------------------------------------------------------------------------

/// Before a source is read, all of this has been passed, in this order: a device
/// is read by root; the warnings were shown; the output, and then a log elsewhere,
/// go to another disk than this source; and the user has said "YES", and nothing
/// else but white space, or has forced the run.
pub proof fn cleared_sources_have_passed_all(
    kind: SourceKind,
    path: Seq<char>,
    separate_log: bool,
    passed: Seq<Passed>,
)
    requires
        is_cleared(kind, path, separate_log, passed),
    ensures
        passed.len() == (if separate_log {
            5int
        } else {
            4int
        }),
        passed[0] matches Passed::Root { euid } && (kind == SourceKind::Device ==> euid == 0),
        passed[1] is Warnings,
        passed[2] matches Passed::Disk { source, output, filesystem, source_number, output_number }
            && source == path && (kind == SourceKind::Device ==> !on_same_disk(
            path,
            filesystem,
            source_number,
            output_number,
        )),
        separate_log ==> (passed[3] matches Passed::Disk {
            source,
            output,
            filesystem,
            source_number,
            output_number,
        } && source == path && (kind == SourceKind::Device ==> !on_same_disk(
            path,
            filesystem,
            source_number,
            output_number,
        ))),
        passed.last() matches Passed::Confirmation { force, reply } && (force || (
        reply matches Some(Ok(line)) && trimmed(line@) == "YES"@)),
{
    assert(is_rightly_passed(kind, path, passed[0]));
    assert(is_rightly_passed(kind, path, passed[2]));
    assert(is_rightly_passed(kind, path, passed[3]));
    assert(is_rightly_passed(kind, path, passed[passed.len() - 1]));
}

// ---------------------------------------------------------------------------
// Errors
// ---------------------------------------------------------------------------

/// Whether a text says `part`.
pub open spec fn says(text: Seq<char>, part: Seq<char>) -> bool {
    exists|a: Seq<char>, b: Seq<char>| text == #[trigger] (a + part + b)
}

/// What is said of an error names what it is about.
pub proof fn errors_name_their_subject(e: CarveErrorView)
    ensures
        e matches CarveErrorView::Io { path, source } ==> says(e.in_words(), path) && says(
            e.in_words(),
            source.message,
        ),
        e matches CarveErrorView::PermissionDenied { path } ==> says(e.in_words(), path),
        e matches CarveErrorView::NotADevice { path } ==> says(e.in_words(), path),
        e matches CarveErrorView::NotReadOnly { path } ==> says(e.in_words(), path),
        e matches CarveErrorView::SizeUnknown { path } ==> says(e.in_words(), path),
        e matches CarveErrorView::SameDisk { device, output } ==> says(
            e.in_words(),
            "output location `"@ + output + "` appears"@,
        ) && says(e.in_words(), "source `"@ + device + "`"@),
        e matches CarveErrorView::UnknownTypes(names) ==> says(e.in_words(), names),
        e matches CarveErrorView::DiskFull(path) ==> says(e.in_words(), path),
{
    let none = Seq::<char>::empty();
    match e {
        CarveErrorView::Io { path, source } => {
            said_between(e.in_words(), "I/O error on "@, path, ": "@ + source.message);
            said_between(e.in_words(), "I/O error on "@ + path + ": "@, source.message, none);
        },
        CarveErrorView::PermissionDenied { path } => {
            said_between(
                e.in_words(),
                "permission denied opening "@,
                path,
                " — raw device access requires root; re-run with sudo (e.g. `sudo file-recovery --device "@
                    + path + " ...`)"@,
            );
        },
        CarveErrorView::NotADevice { path } => {
            said_between(
                e.in_words(),
                none,
                path,
                " is not a block/character device (use --allow-file to scan a regular disk-image file)"@,
            );
        },
        CarveErrorView::NotReadOnly { path } => {
            said_between(
                e.in_words(),
                "internal error: "@,
                path,
                " was not opened read-only (O_RDONLY) — refusing to continue"@,
            );
        },
        CarveErrorView::SizeUnknown { path } => {
            said_between(
                e.in_words(),
                "could not determine the size of device "@,
                path,
                " (ioctl DKIOCGETBLOCK* failed)"@,
            );
        },
        CarveErrorView::SameDisk { device, output } => {
            reveal_strlit("SAFETY: output location `");
            reveal_strlit("SAFETY: ");
            reveal_strlit("output location `");
            reveal_strlit("` appears to be on the SAME physical disk as the source `");
            reveal_strlit("` appears");
            reveal_strlit(" to be on the SAME physical disk as the ");
            reveal_strlit("source `");
            reveal_strlit("`");
            reveal_strlit(
                "` — writing there could overwrite recoverable data. Aborting. Choose an output directory on a different physical disk.",
            );
            let start = "SAFETY: output location `"@;
            let middle = "` appears to be on the SAME physical disk as the source `"@;
            let end =
                "` — writing there could overwrite recoverable data. Aborting. Choose an output directory on a different physical disk."@;
            assert(start =~= "SAFETY: "@ + "output location `"@);
            assert(middle =~= "` appears"@ + " to be on the SAME physical disk as the "@
                + "source `"@);
            let rest = end.skip(1);
            assert(end =~= "`"@ + rest);
            said_between(
                e.in_words(),
                "SAFETY: "@,
                "output location `"@ + output + "` appears"@,
                " to be on the SAME physical disk as the "@ + "source `"@ + device + end,
            );
            said_between(
                e.in_words(),
                start + output + "` appears"@ + " to be on the SAME physical disk as the "@,
                "source `"@ + device + "`"@,
                rest,
            );
        },
        CarveErrorView::Aborted => {},
        CarveErrorView::UnknownTypes(names) => {
            said_between(
                e.in_words(),
                "unknown file type(s): "@,
                names,
                " — run with --list-types to see supported types"@,
            );
        },
        CarveErrorView::DiskFull(path) => {
            said_between(
                e.in_words(),
                "output disk is full — stopping recovery gracefully: "@,
                path,
                none,
            );
        },
    }
}

/// What stands between two texts is said.
proof fn said_between(text: Seq<char>, a: Seq<char>, part: Seq<char>, b: Seq<char>)
    requires
        text =~= a + part + b,
    ensures
        says(text, part),
{
    assert(text == a + part + b);
}

/// An error is told as what it holds.
pub proof fn errors_are_told_as_they_are(e: CarveError)
    ensures
        e matches CarveError::Io { path, source } ==> e@ == (CarveErrorView::Io {
            path: path@,
            source: IoErrorView {
                kind: source.kind,
                os_code: source.os_code,
                message: source.message@,
            },
        }),
        e matches CarveError::PermissionDenied { path } ==> e@ == (
        CarveErrorView::PermissionDenied { path: path@ }),
        e matches CarveError::NotADevice { path } ==> e@ == (CarveErrorView::NotADevice {
            path: path@,
        }),
        e matches CarveError::NotReadOnly { path } ==> e@ == (CarveErrorView::NotReadOnly {
            path: path@,
        }),
        e matches CarveError::SizeUnknown { path } ==> e@ == (CarveErrorView::SizeUnknown {
            path: path@,
        }),
        e matches CarveError::SameDisk { device, output } ==> e@ == (CarveErrorView::SameDisk {
            device: device@,
            output: output@,
        }),
        e is Aborted <==> e@ is Aborted,
        e matches CarveError::UnknownTypes(names) ==> e@ == CarveErrorView::UnknownTypes(names@),
        e matches CarveError::DiskFull(path) ==> e@ == CarveErrorView::DiskFull(path@),
{
}

/// What is said of a read that failed tells the place, in decimal digits, and the
/// reason, and whether a whole region or a block of one was skipped.
pub proof fn failed_reads_are_told(pos: nat, e: IoErrorView)
    ensures
        says(block_note(pos as int, e), "offset "@ + decimal(pos) + ":"@),
        says(block_note(pos as int, e), e.message),
        says(block_note(pos as int, e), "block skipped"@),
        says(region_note(pos as int, e), "offset "@ + decimal(pos) + ":"@),
        says(region_note(pos as int, e), e.message),
        says(region_note(pos as int, e), "region skipped"@),
{
    reveal_strlit("read error at offset ");
    reveal_strlit("read error at ");
    reveal_strlit("offset ");
    reveal_strlit(": ");
    reveal_strlit(":");
    reveal_strlit(" ");
    reveal_strlit(" — ");
    reveal_strlit(" — block skipped");
    reveal_strlit("block skipped");
    reveal_strlit(" — region skipped");
    reveal_strlit("region skipped");
    let none = Seq::<char>::empty();
    let place = "offset "@ + decimal(pos) + ":"@;
    let start = "read error at offset "@ + decimal(pos) + ": "@;
    assert(start =~= "read error at "@ + place + " "@);
    assert(" — block skipped"@ =~= " — "@ + "block skipped"@);
    assert(" — region skipped"@ =~= " — "@ + "region skipped"@);
    let b = block_note(pos as int, e);
    let r = region_note(pos as int, e);
    said_between(b, "read error at "@, place, " "@ + e.message + " — block skipped"@);
    said_between(b, start, e.message, " — block skipped"@);
    said_between(b, start + e.message + " — "@, "block skipped"@, none);
    said_between(r, "read error at "@, place, " "@ + e.message + " — region skipped"@);
    said_between(r, start, e.message, " — region skipped"@);
    said_between(r, start + e.message + " — "@, "region skipped"@, none);
}

/// What is said to someone who is not root names the device, and how to go on with
/// it; what is said of a size that cannot be read names what was given for it.
pub proof fn complaints_name_what_was_given(device: Seq<char>, given: Seq<char>)
    ensures
        says(root_words(device), "raw device "@ + device + " requires root"@),
        says(root_words(device), "sudo file-recovery --device "@ + device + " "@),
        says(size_complaint(given), "'"@ + given + "'"@),
{
    reveal_strlit("error: reading raw device ");
    reveal_strlit("error: reading ");
    reveal_strlit("raw device ");
    reveal_strlit(
        " requires root privileges.\nRaw block devices (/dev/rdisk*) are protected by macOS; without sudo the open will fail.\nRe-run with sudo, e.g.:\n  sudo file-recovery --device ",
    );
    reveal_strlit(" requires root");
    reveal_strlit("sudo file-recovery --device ");
    reveal_strlit(
        " --output /Volumes/External/recovered\n(Scanning a regular disk-image file with --allow-file does not require root.)",
    );
    reveal_strlit(" ");
    reveal_strlit("invalid size '");
    reveal_strlit("invalid size ");
    reveal_strlit("'");
    reveal_strlit("' (use bytes or a K/M/G/KB/MB/GB suffix)");
    let a = "error: reading raw device "@;
    let b =
        " requires root privileges.\nRaw block devices (/dev/rdisk*) are protected by macOS; without sudo the open will fail.\nRe-run with sudo, e.g.:\n  sudo file-recovery --device "@;
    let c =
        " --output /Volumes/External/recovered\n(Scanning a regular disk-image file with --allow-file does not require root.)"@;
    let need = " requires root"@;
    let sudo = "sudo file-recovery --device "@;
    assert(a =~= "error: reading "@ + "raw device "@);
    assert(b =~= need + b.skip(need.len() as int));
    assert(b =~= b.take(b.len() - sudo.len()) + sudo);
    assert(c =~= " "@ + c.skip(1));
    said_between(
        root_words(device),
        "error: reading "@,
        "raw device "@ + device + need,
        b.skip(need.len() as int) + device + c,
    );
    said_between(
        root_words(device),
        a + device + b.take(b.len() - sudo.len()),
        sudo + device + " "@,
        c.skip(1),
    );
    let d = "' (use bytes or a K/M/G/KB/MB/GB suffix)"@;
    assert("invalid size '"@ =~= "invalid size "@ + "'"@);
    assert(d =~= "'"@ + d.skip(1));
    said_between(size_complaint(given), "invalid size "@, "'"@ + given + "'"@, d.skip(1));
}

/// The warnings before every run name the source and the output, and say not to
/// write to the disk that is scanned.
pub proof fn warnings_name_source_and_output(device: Seq<char>, output: Seq<char>)
    ensures
        warnings(device, output).contains("Source: "@ + device),
        warnings(device, output).contains("Output: "@ + output),
        warnings(device, output).contains(
            "WARNING: Do not write recovered files to the same disk you are scanning — this can overwrite recoverable data."@,
        ),
        warnings(device, output).contains(
            "WARNING: If FileVault is enabled, deleted file content may be encrypted and unrecoverable without keys."@,
        ),
        warnings(device, output).contains(
            "WARNING: SSDs with TRIM enabled may have already permanently zeroed deleted blocks — recovery may not be possible."@,
        ),
{
    let w = warnings(device, output);
    assert(w.contains(w[5]));
    assert(w.contains(w[6]));
    assert(w.contains(w[7]));
    assert(w.contains(w[19]));
    assert(w.contains(w[20]));
}

} // verus!
