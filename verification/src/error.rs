//! Errors.

use vstd::prelude::*;

verus! {

/// The kinds of input/output failure that the library tells apart.
#[derive(Debug, Clone, Copy, PartialEq, Eq, Structural)]
pub enum IoErrorKind {
    PermissionDenied,
    Interrupted,
    UnexpectedEof,
    Other,
}

/// A failed input/output operation, as plain values.
#[derive(Debug, Clone)]
pub struct IoError {
    pub kind: IoErrorKind,
    /// The operating system's error number, if the failure came from there.
    pub os_code: Option<i32>,
    /// The failure in words.
    pub message: String,
}

/// What an [`IoError`] says.
pub struct IoErrorView {
    pub kind: IoErrorKind,
    pub os_code: Option<i32>,
    pub message: Seq<char>,
}

impl View for IoError {
    type V = IoErrorView;

    open spec fn view(&self) -> IoErrorView {
        IoErrorView { kind: self.kind, os_code: self.os_code, message: self.message@ }
    }
}

/// What can end a recovery, or the recovery of one file.
#[derive(Debug)]
pub enum CarveError {
    Io { path: String, source: IoError },
    PermissionDenied { path: String },
    NotADevice { path: String },
    NotReadOnly { path: String },
    SizeUnknown { path: String },
    SameDisk { device: String, output: String },
    Aborted,
    UnknownTypes(String),
    DiskFull(String),
}

/// What a [`CarveError`] says.
pub enum CarveErrorView {
    Io { path: Seq<char>, source: IoErrorView },
    PermissionDenied { path: Seq<char> },
    NotADevice { path: Seq<char> },
    NotReadOnly { path: Seq<char> },
    SizeUnknown { path: Seq<char> },
    SameDisk { device: Seq<char>, output: Seq<char> },
    Aborted,
    UnknownTypes(Seq<char>),
    DiskFull(Seq<char>),
}

impl View for CarveError {
    type V = CarveErrorView;

    open spec fn view(&self) -> CarveErrorView {
        match self {
            CarveError::Io { path, source } => CarveErrorView::Io {
                path: path@,
                source: source@,
            },
            CarveError::PermissionDenied { path } => CarveErrorView::PermissionDenied {
                path: path@,
            },
            CarveError::NotADevice { path } => CarveErrorView::NotADevice { path: path@ },
            CarveError::NotReadOnly { path } => CarveErrorView::NotReadOnly { path: path@ },
            CarveError::SizeUnknown { path } => CarveErrorView::SizeUnknown { path: path@ },
            CarveError::SameDisk { device, output } => CarveErrorView::SameDisk {
                device: device@,
                output: output@,
            },
            CarveError::Aborted => CarveErrorView::Aborted,
            CarveError::UnknownTypes(names) => CarveErrorView::UnknownTypes(names@),
            CarveError::DiskFull(path) => CarveErrorView::DiskFull(path@),
        }
    }
}

impl CarveErrorView {
    /// The error in words.
    pub open spec fn in_words(self) -> Seq<char> {
        match self {
            CarveErrorView::Io { path, source } => "I/O error on "@ + path + ": "@
                + source.message,
            CarveErrorView::PermissionDenied { path } => "permission denied opening "@ + path
                + " — raw device access requires root; re-run with sudo (e.g. `sudo file-recovery --device "@
                + path + " ...`)"@,
            CarveErrorView::NotADevice { path } => path
                + " is not a block/character device (use --allow-file to scan a regular disk-image file)"@,
            CarveErrorView::NotReadOnly { path } => "internal error: "@ + path
                + " was not opened read-only (O_RDONLY) — refusing to continue"@,
            CarveErrorView::SizeUnknown { path } => "could not determine the size of device "@
                + path + " (ioctl DKIOCGETBLOCK* failed)"@,
            CarveErrorView::SameDisk { device, output } => "SAFETY: output location `"@ + output
                + "` appears to be on the SAME physical disk as the source `"@ + device
                + "` — writing there could overwrite recoverable data. Aborting. Choose an output directory on a different physical disk."@,
            CarveErrorView::Aborted => "scan aborted by user"@,
            CarveErrorView::UnknownTypes(names) => "unknown file type(s): "@ + names
                + " — run with --list-types to see supported types"@,
            CarveErrorView::DiskFull(path) => "output disk is full — stopping recovery gracefully: "@
                + path,
        }
    }
}

impl CarveError {
    /// The error in words.
    pub fn message(&self) -> (text: String)
        ensures
            text@ == self@.in_words(),
    {
        let mut text: String = String::new();
        match self {
            CarveError::Io { path, source } => {
                text.append("I/O error on ");
                text.append(path.as_str());
                text.append(": ");
                text.append(source.message.as_str());
            },
            CarveError::PermissionDenied { path } => {
                text.append("permission denied opening ");
                text.append(path.as_str());
                text.append(
                    " — raw device access requires root; re-run with sudo (e.g. `sudo file-recovery --device ",
                );
                text.append(path.as_str());
                text.append(" ...`)");
            },
            CarveError::NotADevice { path } => {
                text.append(path.as_str());
                text.append(
                    " is not a block/character device (use --allow-file to scan a regular disk-image file)",
                );
            },
            CarveError::NotReadOnly { path } => {
                text.append("internal error: ");
                text.append(path.as_str());
                text.append(" was not opened read-only (O_RDONLY) — refusing to continue");
            },
            CarveError::SizeUnknown { path } => {
                text.append("could not determine the size of device ");
                text.append(path.as_str());
                text.append(" (ioctl DKIOCGETBLOCK* failed)");
            },
            CarveError::SameDisk { device, output } => {
                text.append("SAFETY: output location `");
                text.append(output.as_str());
                text.append("` appears to be on the SAME physical disk as the source `");
                text.append(device.as_str());
                text.append(
                    "` — writing there could overwrite recoverable data. Aborting. Choose an output directory on a different physical disk.",
                );
            },
            CarveError::Aborted => {
                text.append("scan aborted by user");
            },
            CarveError::UnknownTypes(names) => {
                text.append("unknown file type(s): ");
                text.append(names.as_str());
                text.append(" — run with --list-types to see supported types");
            },
            CarveError::DiskFull(path) => {
                text.append("output disk is full — stopping recovery gracefully: ");
                text.append(path.as_str());
            },
        }
        assert(text@ =~= self@.in_words());
        text
    }
}

} // verus!
