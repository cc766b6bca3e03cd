//! Output files: their names, and what becomes of them.

use vstd::prelude::*;

use crate::carver::CarvePlan;
use crate::error::{CarveError, CarveErrorView, IoError, IoErrorKind, IoErrorView};
use crate::pieces::is_digit;
use crate::text::{decimal, decimal_value, digits_value, four_digits, push_four_digits};

verus! {

/// A recovered file, as it stands in the recovery log.
#[derive(Debug)]
pub struct LogEntry {
    pub file: String,
    pub offset: u64,
    pub size: u64,
    pub file_type: String,
    pub truncated: bool,
    pub timestamp_unix: u64,
}

/// What a [`LogEntry`] says.
pub struct LogEntryView {
    pub file: Seq<char>,
    pub offset: int,
    pub size: int,
    pub file_type: Seq<char>,
    pub truncated: bool,
    pub timestamp_unix: int,
}

impl View for LogEntry {
    type V = LogEntryView;

    open spec fn view(&self) -> LogEntryView {
        LogEntryView {
            file: self.file@,
            offset: self.offset as int,
            size: self.size as int,
            file_type: self.file_type@,
            truncated: self.truncated,
            timestamp_unix: self.timestamp_unix as int,
        }
    }
}

/// How many files of a type there are, and how large they are together.
#[derive(Debug, Clone, Copy, PartialEq, Eq, Structural)]
pub struct TypeCount {
    pub files: u64,
    pub bytes: u64,
}

// ---------------------------------------------------------------------------
// Names
// ---------------------------------------------------------------------------

/// The name of the output file of number `n`.
pub open spec fn file_name(n: nat, extension: Seq<char>) -> Seq<char> {
    "recovered_"@ + four_digits(n) + "."@ + extension
}

/// Hands out names for output files.
pub struct OutputManager {
    organize: bool,
    counter: u64,
}

/// A search for a name that no file has yet. Numbers are tried one after the
/// other; each that turns out to be taken is reported.
pub struct NameSearch {
    extension: String,
    first: u64,
    number: u64,
    taken: Ghost<Set<u64>>,
}

impl OutputManager {
    /// Whether files are sorted into a directory for each type.
    pub closed spec fn organizes(&self) -> bool {
        self.organize
    }

    /// The number of the next file.
    pub closed spec fn next_number(&self) -> u64 {
        self.counter
    }

    /// Starts with file number one.
    pub fn prepare(organize: bool) -> (om: OutputManager)
        ensures
            om.organizes() == organize,
            om.next_number() == 1,
    {
        OutputManager { organize, counter: 1 }
    }

    /// The directory for the file of `plan`, below that of all output, if files
    /// are sorted by type.
    pub fn subdirectory(&self, plan: &CarvePlan) -> (dir: Option<String>)
        ensures
            match dir {
                Some(d) => self.organizes() && d@ == plan.file_type@,
                None => !self.organizes(),
            },
    {
        if self.organize {
            Some(plan.file_type.clone())
        } else {
            None
        }
    }

    /// Starts a search for the name of the file of `plan`, with the number after
    /// the last that was given.
    pub fn search(&self, plan: &CarvePlan) -> (search: NameSearch)
        ensures
            search.first() == self.next_number(),
            search.number() == self.next_number(),
            search.extension() == plan.extension@,
            search.reported() == Set::<u64>::empty(),
    {
        NameSearch {
            extension: plan.extension.clone(),
            first: self.counter,
            number: self.counter,
            taken: Ghost(Set::empty()),
        }
    }

    /// Gives the name that `search` has come to, which is not taken. Its number
    /// is the least after the last one given that was not reported as taken.
    pub fn give(&mut self, search: NameSearch) -> (name: String)
        requires
            search.first() == old(self).next_number(),
            search.number() < u64::MAX,
        ensures
            name@ == file_name(search.number() as nat, search.extension()),
            old(self).next_number() <= search.number(),
            !search.reported().contains(search.number()),
            forall|m: u64|
                old(self).next_number() <= m < search.number() ==> #[trigger]
                    search.reported().contains(m),
            final(self).next_number() == search.number() + 1,
            final(self).organizes() == old(self).organizes(),
    {
        proof {
            use_type_invariant(&search);
        }
        let name: String = search.name();
        self.counter = search.number + 1;
        name
    }
}

impl NameSearch {
    #[verifier::type_invariant]
    spec fn inv(self) -> bool {
        &&& self.first <= self.number
        &&& forall|m: u64|
            #[trigger] self.taken@.contains(m) <==> self.first <= m < self.number
    }

    /// The number that the search began with.
    pub closed spec fn first(&self) -> u64 {
        self.first
    }

    /// The number that is tried now.
    pub closed spec fn number(&self) -> u64 {
        self.number
    }

    /// The numbers that were reported as taken.
    pub closed spec fn reported(&self) -> Set<u64> {
        self.taken@
    }

    /// The extension of the name.
    pub closed spec fn extension(&self) -> Seq<char> {
        self.extension@
    }

    /// The name that is tried now.
    pub fn name(&self) -> (name: String)
        ensures
            name@ == file_name(self.number() as nat, self.extension()),
    {
        let mut name: String = String::new();
        name.append("recovered_");
        push_four_digits(&mut name, self.number);
        name.append(".");
        name.append(self.extension.as_str());
        assert(name@ =~= file_name(self.number as nat, self.extension@));
        name
    }

    /// Whether there are numbers left.
    pub fn has_next(&self) -> (yes: bool)
        ensures
            yes == (self.number() < u64::MAX),
    {
        self.number < u64::MAX
    }

    /// Reports that a file with the name that is tried now exists. The search
    /// goes on with the next number.
    pub fn report_taken(self) -> (next: NameSearch)
        requires
            self.number() < u64::MAX,
        ensures
            next.first() == self.first(),
            next.number() == self.number() + 1,
            next.extension() == self.extension(),
            next.reported() == self.reported().insert(self.number()),
    {
        proof {
            use_type_invariant(&self);
        }
        NameSearch {
            extension: self.extension,
            first: self.first,
            number: self.number + 1,
            taken: Ghost(self.taken@.insert(self.number)),
        }
    }
}

/// How many digits a number has.
proof fn decimal_length(n: nat)
    ensures
        n < 10 ==> decimal(n).len() == 1,
        10 <= n < 100 ==> decimal(n).len() == 2,
        100 <= n < 1000 ==> decimal(n).len() == 3,
        n >= 1000 ==> decimal(n).len() >= 4,
    decreases n,
{
    if n >= 10 {
        decimal_length(n / 10);
    }
}

/// Four digits, or more, are digits.
proof fn four_digits_are_digits(n: nat)
    ensures
        four_digits(n).len() >= 4,
        forall|k: int| 0 <= k < four_digits(n).len() ==> is_digit(#[trigger] four_digits(n)[k]),
{
    reveal_strlit("000");
    reveal_strlit("00");
    reveal_strlit("0");
    decimal_value(n);
    decimal_length(n);
    let zeros = four_digits(n).len() - decimal(n).len();
    assert forall|k: int| 0 <= k < four_digits(n).len() implies is_digit(
        #[trigger] four_digits(n)[k],
    ) by {
        if k >= zeros {
            assert(four_digits(n)[k] == decimal(n)[k - zeros]);
        }
    }
}

/// A zero in front does not count.
proof fn leading_zero(s: Seq<char>)
    ensures
        digits_value(seq!['0'] + s) == digits_value(s),
    decreases s.len(),
{
    let t = seq!['0'] + s;
    if s.len() == 0 {
        assert(t.drop_last() =~= Seq::<char>::empty());
        assert(digits_value(t.drop_last()) == 0);
    } else {
        leading_zero(s.drop_last());
        assert(t.drop_last() =~= seq!['0'] + s.drop_last());
    }
}

/// Four digits, or more, stand for their number.
proof fn four_digits_value(n: nat)
    ensures
        digits_value(four_digits(n)) == n,
{
    reveal_strlit("000");
    reveal_strlit("00");
    reveal_strlit("0");
    decimal_value(n);
    let d = decimal(n);
    let one = seq!['0'] + d;
    let two = seq!['0'] + one;
    let three = seq!['0'] + two;
    leading_zero(d);
    leading_zero(one);
    leading_zero(two);
    assert("0"@ + d =~= one);
    assert("00"@ + d =~= two);
    assert("000"@ + d =~= three);
}

/// Files of different numbers have different names, whatever their extensions.
pub proof fn file_names_are_unique(m: nat, n: nat, a: Seq<char>, b: Seq<char>)
    requires
        file_name(m, a) == file_name(n, b),
    ensures
        m == n,
        a == b,
{
    reveal_strlit("recovered_");
    reveal_strlit(".");
    let x = four_digits(m);
    let y = four_digits(n);
    let p = file_name(m, a);
    let q = file_name(n, b);
    let start = "recovered_"@.len() as int;
    four_digits_are_digits(m);
    four_digits_are_digits(n);
    assert(p[start + x.len()] == '.');
    assert(q[start + y.len()] == '.');
    if x.len() < y.len() {
        assert(q[start + x.len()] == y[x.len() as int]);
        assert(is_digit(y[x.len() as int]));
    }
    if y.len() < x.len() {
        assert(p[start + y.len()] == x[y.len() as int]);
        assert(is_digit(x[y.len() as int]));
    }
    assert(x =~= p.subrange(start, start + x.len()));
    assert(y =~= q.subrange(start, start + y.len()));
    four_digits_value(m);
    four_digits_value(n);
    assert(a =~= p.skip(start + x.len() + 1));
    assert(b =~= q.skip(start + y.len() + 1));
}

// ---------------------------------------------------------------------------
// Saving
// ---------------------------------------------------------------------------

/// What is to be done after an attempt to save a file.
#[derive(Debug)]
pub struct SaveVerdict {
    /// Whether the output file is to be removed.
    pub remove: bool,
    pub result: Result<(), CarveError>,
}

/// What is said of a recovered file that holds nothing.
pub open spec fn zero_length() -> IoErrorView {
    IoErrorView { kind: IoErrorKind::Other, os_code: None, message: "carved file is zero-length"@ }
}

/// Whether the output file at `path` is to be removed, and the error of the
/// attempt if it failed.
pub open spec fn save_verdict(
    path: Seq<char>,
    copied: Result<u64, IoError>,
    len: Option<u64>,
    no_space: i32,
) -> (bool, Option<CarveErrorView>) {
    match copied {
        Err(e) => if e.os_code == Some(no_space) {
            (true, Some(CarveErrorView::DiskFull(path)))
        } else {
            (len == Some(0u64), Some(CarveErrorView::Io { path, source: e@ }))
        },
        Ok(n) => if n == 0 || len is None || len == Some(0u64) {
            (true, Some(CarveErrorView::Io { path, source: zero_length() }))
        } else {
            (false, None)
        },
    }
}

/// Judges an attempt to save a file at `path`: copying ended in `copied`, with
/// the number of bytes copied or with an error, and the file then had `len`
/// bytes; there is no `len` if the file was never created or its length cannot be
/// told. If the output disk is full, which the error number `no_space` tells, the
/// partial file goes; so does one that holds nothing, however copying ended. A
/// copy of which no length can be told counts as empty; after a failure, nothing
/// is removed that is not known to be empty.
pub fn judge_save(
    path: &str,
    copied: Result<u64, IoError>,
    len: Option<u64>,
    no_space: i32,
) -> (v: SaveVerdict)
    ensures
        v.remove == save_verdict(path@, copied, len, no_space).0,
        match v.result {
            Ok(()) => save_verdict(path@, copied, len, no_space).1 is None,
            Err(e) => save_verdict(path@, copied, len, no_space).1 == Some(e@),
        },
{
    let empty: bool = match len {
        Some(n) => n == 0,
        None => false,
    };
    match copied {
        Err(e) => {
            let full: bool = match e.os_code {
                Some(code) => code == no_space,
                None => false,
            };
            if full {
                SaveVerdict { remove: true, result: Err(CarveError::DiskFull(path.to_string())) }
            } else {
                SaveVerdict {
                    remove: empty,
                    result: Err(CarveError::Io { path: path.to_string(), source: e }),
                }
            }
        },
        Ok(n) => {
            if n == 0 || empty || len.is_none() {
                SaveVerdict {
                    remove: true,
                    result: Err(
                        CarveError::Io {
                            path: path.to_string(),
                            source: IoError {
                                kind: IoErrorKind::Other,
                                os_code: None,
                                message: "carved file is zero-length".to_string(),
                            },
                        },
                    ),
                }
            } else {
                SaveVerdict { remove: false, result: Ok(()) }
            }
        },
    }
}

} // verus!
