//! Fixed-width integers inside byte buffers.

use vstd::prelude::*;

verus! {

/// The little-endian 16-bit integer at `at`.
pub open spec fn le16_at(b: Seq<u8>, at: int) -> int {
    b[at] + 0x100 * b[at + 1]
}

/// The big-endian 16-bit integer at `at`.
pub open spec fn be16_at(b: Seq<u8>, at: int) -> int {
    0x100 * b[at] + b[at + 1]
}

/// The little-endian 32-bit integer at `at`.
pub open spec fn le32_at(b: Seq<u8>, at: int) -> int {
    le16_at(b, at) + 0x1_0000 * le16_at(b, at + 2)
}

/// The big-endian 32-bit integer at `at`.
pub open spec fn be32_at(b: Seq<u8>, at: int) -> int {
    0x1_0000 * be16_at(b, at) + be16_at(b, at + 2)
}

/// The little-endian 64-bit integer at `at`.
pub open spec fn le64_at(b: Seq<u8>, at: int) -> int {
    le32_at(b, at) + 0x1_0000_0000 * le32_at(b, at + 4)
}

/// The big-endian 64-bit integer at `at`.
pub open spec fn be64_at(b: Seq<u8>, at: int) -> int {
    0x1_0000_0000 * be32_at(b, at) + be32_at(b, at + 4)
}

/// Reads the little-endian 16-bit integer at `at`.
pub fn le16(b: &[u8], at: usize) -> (n: u64)
    requires
        at + 2 <= b@.len(),
    ensures
        n == le16_at(b@, at as int),
        n <= 0xffff,
{
    assert(b.len() <= usize::MAX);
    b[at] as u64 + 0x100 * (b[at + 1] as u64)
}

/// Reads the big-endian 16-bit integer at `at`.
pub fn be16(b: &[u8], at: usize) -> (n: u64)
    requires
        at + 2 <= b@.len(),
    ensures
        n == be16_at(b@, at as int),
        n <= 0xffff,
{
    assert(b.len() <= usize::MAX);
    0x100 * (b[at] as u64) + b[at + 1] as u64
}

/// Reads the little-endian 32-bit integer at `at`.
pub fn le32(b: &[u8], at: usize) -> (n: u64)
    requires
        at + 4 <= b@.len(),
    ensures
        n == le32_at(b@, at as int),
        n <= 0xffff_ffff,
{
    assert(b.len() <= usize::MAX);
    le16(b, at) + 0x1_0000 * le16(b, at + 2)
}

/// Reads the big-endian 32-bit integer at `at`.
pub fn be32(b: &[u8], at: usize) -> (n: u64)
    requires
        at + 4 <= b@.len(),
    ensures
        n == be32_at(b@, at as int),
        n <= 0xffff_ffff,
{
    assert(b.len() <= usize::MAX);
    0x1_0000 * be16(b, at) + be16(b, at + 2)
}

/// Reads the little-endian 64-bit integer at `at`.
pub fn le64(b: &[u8], at: usize) -> (n: u64)
    requires
        at + 8 <= b@.len(),
    ensures
        n == le64_at(b@, at as int),
{
    assert(b.len() <= usize::MAX);
    le32(b, at) + 0x1_0000_0000 * le32(b, at + 4)
}

/// Reads the big-endian 64-bit integer at `at`.
pub fn be64(b: &[u8], at: usize) -> (n: u64)
    requires
        at + 8 <= b@.len(),
    ensures
        n == be64_at(b@, at as int),
{
    assert(b.len() <= usize::MAX);
    0x1_0000_0000 * be32(b, at) + be32(b, at + 4)
}

/// Whether `needle` stands in `haystack` at `at`.
pub open spec fn occurs_at(haystack: Seq<u8>, needle: Seq<u8>, at: int) -> bool {
    &&& 0 <= at
    &&& at + needle.len() <= haystack.len()
    &&& haystack.subrange(at, at + needle.len()) == needle
}

/// Whether `needle` stands in `haystack` at `at`.
pub fn matches_at(haystack: &[u8], needle: &[u8], at: usize) -> (found: bool)
    ensures
        found == occurs_at(haystack@, needle@, at as int),
{
    let len: usize = haystack.len();
    if at > len || len - at < needle.len() {
        return false;
    }
    let mut k: usize = 0;
    while k < needle.len()
        invariant
            k <= needle@.len(),
            at + needle@.len() <= haystack@.len(),
            haystack@.len() == len,
            forall|j: int| 0 <= j < k ==> haystack@[at + j] == needle@[j],
        decreases needle@.len() - k,
    {
        if haystack[at + k] != needle[k] {
            proof {
                assert(haystack@.subrange(at as int, at + needle@.len())[k as int] != needle@[k as int]);
            }
            return false;
        }
        k = k + 1;
    }
    assert(haystack@.subrange(at as int, at + needle@.len()) =~= needle@);
    true
}

/// Whether `needle`, which must not be empty, occurs anywhere in `haystack`.
pub open spec fn occurs(haystack: Seq<u8>, needle: Seq<u8>) -> bool {
    needle.len() > 0 && exists|at: int| occurs_at(haystack, needle, at)
}

/// Whether the non-empty `needle` occurs anywhere in `haystack`. An empty
/// needle is never found.
pub fn contains(haystack: &[u8], needle: &[u8]) -> (found: bool)
    ensures
        found == occurs(haystack@, needle@),
{
    if needle.len() == 0 || haystack.len() < needle.len() {
        return false;
    }
    let last: usize = haystack.len() - needle.len();
    let mut at: usize = 0;
    while at <= last
        invariant
            at <= last + 1,
            last + needle@.len() == haystack@.len(),
            needle@.len() > 0,
            haystack@.len() <= usize::MAX,
            forall|j: int| 0 <= j < at ==> !occurs_at(haystack@, needle@, j),
        decreases last + 1 - at,
    {
        if matches_at(haystack, needle, at) {
            return true;
        }
        at = at + 1;
    }
    false
}

// ---------------------------------------------------------------------------
// Byte order
// ---------------------------------------------------------------------------

/// The number that `n` bytes from `at` on stand for, least significant first.
pub open spec fn little(b: Seq<u8>, at: int, n: nat) -> int
    decreases n,
{
    if n == 0 {
        0
    } else {
        b[at] + 256 * little(b, at + 1, (n - 1) as nat)
    }
}

/// The number that `n` bytes from `at` on stand for, most significant first.
pub open spec fn big(b: Seq<u8>, at: int, n: nat) -> int
    decreases n,
{
    if n == 0 {
        0
    } else {
        256 * big(b, at, (n - 1) as nat) + b[at + n - 1]
    }
}

/// Integers are read in their byte order, whatever their width.
pub proof fn integers_are_read_in_order(b: Seq<u8>, at: int)
    ensures
        le16_at(b, at) == little(b, at, 2),
        le32_at(b, at) == little(b, at, 4),
        le64_at(b, at) == little(b, at, 8),
        be16_at(b, at) == big(b, at, 2),
        be32_at(b, at) == big(b, at, 4),
        be64_at(b, at) == big(b, at, 8),
{
    reveal_with_fuel(little, 9);
    reveal_with_fuel(big, 9);
}

/// Where the same bytes stand, the same number is read.
pub proof fn same_bytes_same_number(a: Seq<u8>, at: int, b: Seq<u8>, place: int, n: nat)
    requires
        forall|k: int| 0 <= k < n ==> #[trigger] a[at + k] == b[place + k],
    ensures
        little(a, at, n) == little(b, place, n),
        big(a, at, n) == big(b, place, n),
    decreases n,
{
    if n > 0 {
        let m = (n - 1) as nat;
        assert(a[at + 0] == b[place + 0]);
        assert(a[at + m] == b[place + m]);
        assert forall|k: int| 0 <= k < m implies #[trigger] a[at + 1 + k] == b[place + 1 + k] by {
            assert(a[at + (k + 1)] == b[place + (k + 1)]);
        }
        same_bytes_same_number(a, at, b, place, m);
        little_tails(a, at + 1, b, place + 1, m);
    }
}

/// The little-endian half of [`same_bytes_same_number`].
proof fn little_tails(a: Seq<u8>, at: int, b: Seq<u8>, place: int, n: nat)
    requires
        forall|k: int| 0 <= k < n ==> #[trigger] a[at + k] == b[place + k],
    ensures
        little(a, at, n) == little(b, place, n),
    decreases n,
{
    if n > 0 {
        let m = (n - 1) as nat;
        assert(a[at + 0] == b[place + 0]);
        assert forall|k: int| 0 <= k < m implies #[trigger] a[at + 1 + k] == b[place + 1 + k] by {
            assert(a[at + (k + 1)] == b[place + (k + 1)]);
        }
        little_tails(a, at + 1, b, place + 1, m);
    }
}

/// What occurs somewhere stands between what is before and what is after it.
pub proof fn occurrences_are_parts(haystack: Seq<u8>, needle: Seq<u8>)
    ensures
        occurs(haystack, needle) <==> needle.len() > 0 && exists|a: Seq<u8>, b: Seq<u8>|
            haystack == #[trigger] (a + needle + b),
        forall|a: Seq<u8>, b: Seq<u8>|
            #![trigger (a + needle + b)]
            haystack == a + needle + b ==> occurs_at(haystack, needle, a.len() as int),
{
    assert forall|a: Seq<u8>, b: Seq<u8>|
        #![trigger (a + needle + b)]
        haystack == a + needle + b implies occurs_at(haystack, needle, a.len() as int) by {
        assert(haystack.subrange(a.len() as int, (a.len() + needle.len()) as int) =~= needle);
    }
    if occurs(haystack, needle) {
        let at = choose|at: int| occurs_at(haystack, needle, at);
        let a = haystack.take(at);
        let b = haystack.skip(at + needle.len());
        assert(haystack =~= a + haystack.subrange(at, at + needle.len()) + b);
        assert(haystack == a + needle + b);
    }
    if needle.len() > 0 && exists|a: Seq<u8>, b: Seq<u8>| haystack == #[trigger] (a + needle + b) {
        let (a, b) = choose|a: Seq<u8>, b: Seq<u8>| haystack == #[trigger] (a + needle + b);
        assert(occurs_at(haystack, needle, a.len() as int));
    }
}

} // verus!
