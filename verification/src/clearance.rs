//! The order of the safety rules: what has to be passed before a source may be
//! opened.

use vstd::prelude::*;

use crate::disk::SourceKind;
use crate::error::{CarveError, CarveErrorView, IoError};
use crate::pieces::trimmed;
use crate::safety::{
    check_same_disk, confirm_or_abort, disk_note, is_root, on_same_disk, root_explanation,
    root_words, said,
};

verus! {

/// What has to be passed next.
#[derive(Debug, Clone, Copy, PartialEq, Eq, Structural)]
pub enum Stage {
    /// Devices can only be read by root.
    Root,
    /// The warnings have to be shown.
    Warnings,
    /// Output must not go to the source disk.
    Output,
    /// Neither must the log, if it goes somewhere else.
    Log,
    /// The user has to confirm.
    Confirmation,
    /// The source may be opened.
    Ready,
}

/// What was passed.
pub enum Passed {
    Root { euid: u32 },
    Warnings,
    Disk {
        source: Seq<char>,
        output: Seq<char>,
        filesystem: Option<Seq<char>>,
        source_number: Option<u64>,
        output_number: Option<u64>,
    },
    Confirmation { force: bool, reply: Option<Result<String, IoError>> },
}

/// Whether what was passed is enough to pass it on the source at `path`, which
/// is of kind `kind`. Disks are compared with that of this source.
pub open spec fn is_rightly_passed(kind: SourceKind, path: Seq<char>, p: Passed) -> bool {
    match p {
        Passed::Root { euid } => kind == SourceKind::Device ==> euid == 0,
        Passed::Warnings => true,
        Passed::Disk { source, output, filesystem, source_number, output_number } => {
            &&& source == path
            &&& kind == SourceKind::Device ==> !on_same_disk(
                source,
                filesystem,
                source_number,
                output_number,
            )
        },
        Passed::Confirmation { force, reply } => force || (reply matches Some(Ok(line)) && trimmed(
            line@,
        ) == "YES"@),
    }
}

/// Whether everything was passed, in order, that has to be before the source at
/// `path` is opened: root, the warnings, the output disk, the disk of a separate
/// log if there is one, and the confirmation.
pub open spec fn is_cleared(
    kind: SourceKind,
    path: Seq<char>,
    separate_log: bool,
    passed: Seq<Passed>,
) -> bool {
    let last = if separate_log {
        4int
    } else {
        3int
    };
    &&& passed.len() == last + 1
    &&& passed[0] is Root
    &&& passed[1] is Warnings
    &&& passed[2] is Disk
    &&& separate_log ==> passed[3] is Disk
    &&& passed[last] is Confirmation
    &&& forall|i: int|
        0 <= i < passed.len() ==> is_rightly_passed(kind, path, #[trigger] passed[i])
}

/// How far the checks have got.
pub struct Clearance {
    kind: SourceKind,
    path: String,
    separate_log: bool,
    stage: Stage,
    passed: Ghost<Seq<Passed>>,
}

impl Clearance {
    /// What was passed so far follows from the stage.
    #[verifier::type_invariant]
    spec fn in_order(self) -> bool {
        let passed = self.passed@;
        &&& forall|i: int|
            0 <= i < passed.len() ==> is_rightly_passed(self.kind, self.path@, #[trigger] passed[i])
        &&& passed.len() > 0 ==> passed[0] is Root
        &&& passed.len() > 1 ==> passed[1] is Warnings
        &&& passed.len() > 2 ==> passed[2] is Disk
        &&& match self.stage {
            Stage::Root => passed.len() == 0,
            Stage::Warnings => passed.len() == 1,
            Stage::Output => passed.len() == 2,
            Stage::Log => passed.len() == 3 && self.separate_log,
            Stage::Confirmation => if self.separate_log {
                passed.len() == 4 && passed[3] is Disk
            } else {
                passed.len() == 3
            },
            Stage::Ready => is_cleared(self.kind, self.path@, self.separate_log, passed),
        }
    }

    /// The kind of the source.
    pub closed spec fn kind(&self) -> SourceKind {
        self.kind
    }

    /// The path of the source.
    pub closed spec fn subject(&self) -> Seq<char> {
        self.path@
    }

    /// Whether the log goes to another place than the output.
    pub closed spec fn has_separate_log(&self) -> bool {
        self.separate_log
    }

    /// What has to be passed next.
    pub closed spec fn next(&self) -> Stage {
        self.stage
    }

    /// What was passed so far.
    pub closed spec fn history(&self) -> Seq<Passed> {
        self.passed@
    }

    /// Whether `self` comes of `before` by passing `p`, and `next` is next.
    pub open spec fn follows(&self, before: Clearance, p: Passed, next: Stage) -> bool {
        &&& self.kind() == before.kind()
        &&& self.subject() == before.subject()
        &&& self.has_separate_log() == before.has_separate_log()
        &&& self.history() == before.history().push(p)
        &&& self.next() == next
    }

    /// Nothing is passed yet.
    pub fn new(kind: SourceKind, path: &str, separate_log: bool) -> (c: Clearance)
        ensures
            c.kind() == kind,
            c.subject() == path@,
            c.has_separate_log() == separate_log,
            c.next() == Stage::Root,
            c.history().len() == 0,
    {
        Clearance {
            kind,
            path: path.to_string(),
            separate_log,
            stage: Stage::Root,
            passed: Ghost(Seq::empty()),
        }
    }

    /// The path of the source that the checks are about.
    pub fn source(&self) -> (path: &str)
        ensures
            path@ == self.subject(),
    {
        self.path.as_str()
    }

    /// What has to be passed next.
    pub fn stage(&self) -> (stage: Stage)
        ensures
            stage == self.next(),
            stage == Stage::Ready ==> is_cleared(
                self.kind(),
                self.subject(),
                self.has_separate_log(),
                self.history(),
            ),
    {
        proof {
            use_type_invariant(self);
        }
        self.stage
    }

    /// Passes the check that root reads a device, or explains why it has to be
    /// root.
    pub fn check_root(self, euid: u32) -> (r: Result<Clearance, String>)
        requires
            self.next() == Stage::Root,
        ensures
            match r {
                Ok(c) => (self.kind() == SourceKind::Device ==> euid == 0) && c.follows(
                    self,
                    Passed::Root { euid },
                    Stage::Warnings,
                ),
                Err(text) => self.kind() == SourceKind::Device && euid != 0 && text@ == root_words(
                    self.subject(),
                ),
            },
    {
        proof {
            use_type_invariant(&self);
        }
        if self.kind == SourceKind::Device && !is_root(euid) {
            return Err(root_explanation(self.path.as_str()));
        }
        Ok(
            Clearance {
                kind: self.kind,
                path: self.path,
                separate_log: self.separate_log,
                stage: Stage::Warnings,
                passed: Ghost(self.passed@.push(Passed::Root { euid })),
            },
        )
    }

    /// The warnings were shown.
    pub fn warnings_shown(self) -> (c: Clearance)
        requires
            self.next() == Stage::Warnings,
        ensures
            c.follows(self, Passed::Warnings, Stage::Output),
    {
        proof {
            use_type_invariant(&self);
        }
        Clearance {
            kind: self.kind,
            path: self.path,
            separate_log: self.separate_log,
            stage: Stage::Output,
            passed: Ghost(self.passed@.push(Passed::Warnings)),
        }
    }

    /// Passes the check that what goes to `output`, first all output and next
    /// the log if it goes elsewhere, does not go to the source disk. The facts
    /// are those that [`check_same_disk`] asks for. Returns what is to be said.
    pub fn check_disk(
        self,
        output: &str,
        filesystem: Option<&str>,
        source_number: Option<u64>,
        output_number: Option<u64>,
    ) -> (r: Result<(Clearance, Option<&'static str>), CarveError>)
        requires
            self.next() == Stage::Output || self.next() == Stage::Log,
        ensures
            match r {
                Ok(p) => p.0.follows(
                    self,
                    Passed::Disk {
                        source: self.subject(),
                        output: output@,
                        filesystem: said(filesystem),
                        source_number,
                        output_number,
                    },
                    (if self.next() == Stage::Output && self.has_separate_log() {
                        Stage::Log
                    } else {
                        Stage::Confirmation
                    }),
                ) && said(p.1) == disk_note(
                    self.kind(),
                    self.subject(),
                    said(filesystem),
                    source_number,
                    output_number,
                ),
                Err(e) => e@ == (CarveErrorView::SameDisk { device: self.subject(), output: output@ }),
            },
            r is Err <==> self.kind() == SourceKind::Device && on_same_disk(
                self.subject(),
                said(filesystem),
                source_number,
                output_number,
            ),
    {
        proof {
            use_type_invariant(&self);
        }
        match check_same_disk(
            self.path.as_str(),
            self.kind,
            output,
            filesystem,
            source_number,
            output_number,
        ) {
            Err(e) => Err(e),
            Ok(note) => {
                let stage: Stage = if self.stage == Stage::Output && self.separate_log {
                    Stage::Log
                } else {
                    Stage::Confirmation
                };
                let ghost p: Passed = Passed::Disk {
                    source: self.path@,
                    output: output@,
                    filesystem: said(filesystem),
                    source_number,
                    output_number,
                };
                let next: Clearance = Clearance {
                    kind: self.kind,
                    path: self.path,
                    separate_log: self.separate_log,
                    stage,
                    passed: Ghost(self.passed@.push(p)),
                };
                Ok((next, note))
            },
        }
    }

    /// Passes the confirmation by the user.
    pub fn confirm(self, force: bool, reply: Option<Result<String, IoError>>) -> (r: Result<
        Clearance,
        CarveError,
    >)
        requires
            self.next() == Stage::Confirmation,
        ensures
            r is Ok <==> force || (reply matches Some(Ok(line)) && trimmed(line@) == "YES"@),
            match r {
                Ok(c) => c.follows(self, Passed::Confirmation { force, reply }, Stage::Ready),
                Err(e) => e@ == (match reply {
                    Some(Err(cause)) => CarveErrorView::Io { path: "<stdin>"@, source: cause@ },
                    _ => CarveErrorView::Aborted,
                }),
            },
    {
        proof {
            use_type_invariant(&self);
        }
        let ghost p: Passed = Passed::Confirmation { force, reply };
        match confirm_or_abort(force, reply) {
            Err(e) => Err(e),
            Ok(()) => Ok(
                Clearance {
                    kind: self.kind,
                    path: self.path,
                    separate_log: self.separate_log,
                    stage: Stage::Ready,
                    passed: Ghost(self.passed@.push(p)),
                },
            ),
        }
    }
}

} // verus!
