//! Sizes and bytes as users write and read them.

use vstd::arithmetic::div_mod::{
    lemma_fundamental_div_mod, lemma_mod_bound, lemma_mod_multiples_basic,
};
use vstd::arithmetic::mul::lemma_mul_is_commutative;
use vstd::prelude::*;

use crate::pieces::{
    after_prefix, ascii_digit, before_suffix, is_digit, lowercase, lowered, strip_prefix,
    strip_suffix, to_lowercase, trim, trimmed, trimmed_end, trimmed_start,
};
use crate::scanner::larger;
use crate::signatures::{GB, KB, MB};
use crate::text::{
    all_digits, chars_of, decimal, decimal_value, digit, digit_char, digits_value, same_text,
};

verus! {

// ---------------------------------------------------------------------------
// Reading sizes
// ---------------------------------------------------------------------------

/// The 64-bit number that a text gives: digits, with or without a plus sign in
/// front.
pub open spec fn number(s: Seq<char>) -> Option<u64> {
    let digits = match after_prefix(s, seq!['+']) {
        Some(t) => t,
        None => s,
    };
    if all_digits(digits) && digits_value(digits) <= u64::MAX {
        Some(digits_value(digits) as u64)
    } else {
        None
    }
}

/// More digits never make a number smaller.
proof fn digits_grow(s: Seq<char>, n: int)
    requires
        0 <= n <= s.len(),
        forall|k: int| 0 <= k < s.len() ==> is_digit(#[trigger] s[k]),
    ensures
        digits_value(s.take(n)) <= digits_value(s),
    decreases s.len() - n,
{
    if n < s.len() {
        digits_grow(s, n + 1);
        assert(s.take(n + 1).drop_last() =~= s.take(n));
    } else {
        assert(s.take(n) =~= s);
    }
}

/// Reads a number.
pub fn parse_number(s: &[char]) -> (n: Option<u64>)
    ensures
        n == number(s@),
{
    let plus: [char; 1] = ['+'];
    assert(plus@ =~= seq!['+']);
    let digits: &[char] = match strip_prefix(s, &plus) {
        Some(t) => t,
        None => s,
    };
    if digits.len() == 0 {
        return None;
    }
    let mut value: u64 = 0;
    let mut k: usize = 0;
    assert(digits_value(digits@.take(0)) == 0);
    while k < digits.len()
        invariant
            k <= digits@.len(),
            value == digits_value(digits@.take(k as int)),
            forall|j: int| 0 <= j < k ==> is_digit(#[trigger] digits@[j]),
            digits@.len() > 0,
            number(s@) == (if all_digits(digits@) && digits_value(digits@) <= u64::MAX {
                Some(digits_value(digits@) as u64)
            } else {
                None::<u64>
            }),
        decreases digits@.len() - k,
    {
        let c: char = digits[k];
        if !ascii_digit(c) {
            assert(!is_digit(digits@[k as int]));
            return None;
        }
        let d: u64 = (c as u32 - 48) as u64;
        assert(digits@.take(k + 1).drop_last() =~= digits@.take(k as int));
        assert(digits_value(digits@.take(k + 1)) == 10 * value + d);
        if value > u64::MAX / 10 || 10 * value > u64::MAX - d {
            proof {
                if all_digits(digits@) {
                    digits_grow(digits@, k + 1);
                }
            }
            return None;
        }
        value = 10 * value + d;
        k = k + 1;
    }
    assert(digits@.take(k as int) =~= digits@);
    Some(value)
}

/// The units that a size can be given in, longest names first, with the number
/// of bytes in each.
pub open spec fn units() -> Seq<(Seq<char>, u64)> {
    seq![
        (seq!['k', 'b'], KB),
        (seq!['m', 'b'], MB),
        (seq!['g', 'b'], GB),
        (seq!['k'], KB),
        (seq!['m'], MB),
        (seq!['g'], GB),
        (seq!['b'], 1),
    ]
}

/// What stands before the unit of a size, and the number of bytes in the unit:
/// that of the first unit, from the one of index `from` on, that the size ends
/// with; single bytes if there is none.
pub open spec fn number_and_unit(s: Seq<char>, from: int) -> (Seq<char>, u64)
    decreases units().len() - from,
{
    if from < 0 || from >= units().len() {
        (s, 1)
    } else {
        match before_suffix(s, units()[from].0) {
            Some(t) => (t, units()[from].1),
            None => number_and_unit(s, from + 1),
        }
    }
}

/// The number in a size and the number of bytes in its unit. Neither case nor
/// white space around size and number count.
pub open spec fn size_terms_of(s: Seq<char>) -> Option<(u64, u64)> {
    let (digits, unit) = number_and_unit(lowercase(trimmed(s)), 0);
    match number(trimmed(digits)) {
        Some(n) => Some((n, unit)),
        None => None,
    }
}

/// Takes a size, in lower case, apart.
fn split_unit(s: &[char]) -> (r: (&[char], u64))
    ensures
        (r.0@, r.1) == number_and_unit(s@, 0),
{
    let kb: [char; 2] = ['k', 'b'];
    let mb: [char; 2] = ['m', 'b'];
    let gb: [char; 2] = ['g', 'b'];
    let k: [char; 1] = ['k'];
    let m: [char; 1] = ['m'];
    let g: [char; 1] = ['g'];
    let b: [char; 1] = ['b'];
    proof {
        assert(kb@ =~= units()[0].0);
        assert(mb@ =~= units()[1].0);
        assert(gb@ =~= units()[2].0);
        assert(k@ =~= units()[3].0);
        assert(m@ =~= units()[4].0);
        assert(g@ =~= units()[5].0);
        assert(b@ =~= units()[6].0);
        reveal_with_fuel(number_and_unit, 8);
    }
    if let Some(t) = strip_suffix(s, &kb) {
        return (t, KB);
    }
    if let Some(t) = strip_suffix(s, &mb) {
        return (t, MB);
    }
    if let Some(t) = strip_suffix(s, &gb) {
        return (t, GB);
    }
    if let Some(t) = strip_suffix(s, &k) {
        return (t, KB);
    }
    if let Some(t) = strip_suffix(s, &m) {
        return (t, MB);
    }
    if let Some(t) = strip_suffix(s, &g) {
        return (t, GB);
    }
    if let Some(t) = strip_suffix(s, &b) {
        return (t, 1);
    }
    (s, 1)
}

/// The number in the size `s` and the number of bytes in its unit; `None` if
/// it is no size.
pub fn size_terms(s: &str) -> (terms: Option<(u64, u64)>)
    ensures
        terms == size_terms_of(s@),
{
    let chars: Vec<char> = chars_of(s);
    let lower: Vec<char> = to_lowercase(trim(&chars));
    let (digits, unit) = split_unit(&lower);
    match parse_number(trim(digits)) {
        Some(n) => Some((n, unit)),
        None => None,
    }
}

/// What is said of a size that cannot be read.
pub open spec fn size_complaint(s: Seq<char>) -> Seq<char> {
    "invalid size '"@ + s + "' (use bytes or a K/M/G/KB/MB/GB suffix)"@
}

/// Reads a size in bytes. It may be given in units of 1024, 1024² and 1024³
/// bytes. The size must fit in 64 bits; see [`size_terms`].
pub fn parse_size(s: &str) -> (r: Result<u64, String>)
    requires
        size_terms_of(s@) matches Some(t) ==> t.0 * t.1 <= u64::MAX,
    ensures
        match size_terms_of(s@) {
            Some(t) => r == Ok::<u64, String>((t.0 * t.1) as u64),
            None => r matches Err(e) && e@ == size_complaint(s@),
        },
{
    match size_terms(s) {
        Some((n, unit)) => Ok(n * unit),
        None => {
            let mut e: String = String::new();
            e.append("invalid size '");
            e.append(s);
            e.append("' (use bytes or a K/M/G/KB/MB/GB suffix)");
            assert(e@ =~= size_complaint(s@));
            Err(e)
        },
    }
}

/// Digits are neither trimmed nor changed by lower case.
proof fn digits_stay(s: Seq<char>)
    requires
        all_digits(s),
    ensures
        trimmed(s) == s,
        lowercase(s) == s,
{
    assert(is_digit(s[0]));
    assert(is_digit(s[s.len() - 1]));
    assert(trimmed_start(s) == s);
    assert(trimmed_end(s) == s);
    assert(lowercase(s) =~= s) by {
        assert forall|k: int| 0 <= k < s.len() implies lowered(s[k]) == s[k] by {
            assert(is_digit(s[k]));
        }
    }
}

/// A plain number of bytes, written in decimal digits, is read as that number.
pub proof fn plain_sizes_are_read(n: u64)
    ensures
        size_terms_of(decimal(n as nat)) == Some((n, 1u64)),
{
    let s = decimal(n as nat);
    decimal_value(n as nat);
    digits_stay(s);
    reveal_with_fuel(number_and_unit, 8);
    let end = s[s.len() - 1];
    assert(is_digit(end));
    assert forall|u: int| 0 <= u < 7 implies before_suffix(s, #[trigger] units()[u].0) is None by {
        let unit = units()[u].0;
        if unit.is_suffix_of(s) {
            assert(s.subrange(s.len() - unit.len(), s.len() as int)[unit.len() - 1] == end);
            assert(unit[unit.len() - 1] == end);
        }
    }
    assert(number_and_unit(s, 0) == (s, 1u64)) by {
        assert(before_suffix(s, units()[0].0) is None);
        assert(before_suffix(s, units()[1].0) is None);
        assert(before_suffix(s, units()[2].0) is None);
        assert(before_suffix(s, units()[3].0) is None);
        assert(before_suffix(s, units()[4].0) is None);
        assert(before_suffix(s, units()[5].0) is None);
        assert(before_suffix(s, units()[6].0) is None);
    }
    assert(is_digit(s[0]));
    if seq!['+'].is_prefix_of(s) {
        assert(seq!['+'][0] == s[0]);
    }
}

/// A number in decimal digits followed by a unit is read as that number of
/// units.
pub proof fn sizes_with_units_are_read(n: u64, u: int)
    requires
        0 <= u < units().len(),
    ensures
        size_terms_of(decimal(n as nat) + units()[u].0) == Some((n, units()[u].1)),
{
    let digits = decimal(n as nat);
    let unit = units()[u].0;
    let s = digits + unit;
    decimal_value(n as nat);
    digits_stay(digits);
    assert(is_digit(digits[0]));
    assert(s[0] == digits[0]);
    assert(s.last() == unit.last());
    assert(trimmed_start(s) == s);
    assert(trimmed_end(s) == s);
    assert(lowercase(s) =~= s) by {
        assert forall|k: int| 0 <= k < s.len() implies lowered(s[k]) == s[k] by {
            if k < digits.len() {
                assert(is_digit(digits[k]));
            } else {
                assert(s[k] == unit[k - digits.len()]);
            }
        }
    }
    let last = s[s.len() - 1];
    let one_before = s[s.len() - 2];
    assert(is_digit(digits[digits.len() - 1]));
    assert(unit.len() == 1 ==> is_digit(one_before));
    assert forall|v: int| 0 <= v < u implies before_suffix(s, #[trigger] units()[v].0) is None by {
        let other = units()[v].0;
        if other.is_suffix_of(s) {
            let end = s.subrange(s.len() - other.len(), s.len() as int);
            assert(end[other.len() - 1] == last);
            assert(other.len() == 2 ==> end[0] == one_before);
        }
    }
    assert(unit.is_suffix_of(s)) by {
        assert(s.subrange(s.len() - unit.len(), s.len() as int) =~= unit);
    }
    assert(s.take(s.len() - unit.len()) =~= digits);
    reveal_with_fuel(number_and_unit, 8);
    assert(number_and_unit(s, 0) == (digits, units()[u].1)) by {
        if u > 0 {
            assert(before_suffix(s, units()[0].0) is None);
        }
        if u > 1 {
            assert(before_suffix(s, units()[1].0) is None);
        }
        if u > 2 {
            assert(before_suffix(s, units()[2].0) is None);
        }
        if u > 3 {
            assert(before_suffix(s, units()[3].0) is None);
        }
        if u > 4 {
            assert(before_suffix(s, units()[4].0) is None);
        }
        if u > 5 {
            assert(before_suffix(s, units()[5].0) is None);
        }
    }
    if seq!['+'].is_prefix_of(digits) {
        assert(seq!['+'][0] == digits[0]);
    }
}

// ---------------------------------------------------------------------------
// Scanning in chunks
// ---------------------------------------------------------------------------

/// How much is read at once, unless blocks are larger.
pub const SCAN_CHUNK: u64 = 67108864;

/// The size of the chunks in which a source is scanned: as many whole blocks as
/// 64 megabytes hold, but at least one.
pub open spec fn scan_chunk(block: int) -> int {
    larger(SCAN_CHUNK as int, block) / block * block
}

/// Chunks are whole blocks, as many as 64 megabytes hold, but at least one.
pub proof fn chunks_are_whole_blocks(block: int)
    requires
        block > 0,
    ensures
        scan_chunk(block) % block == 0,
        scan_chunk(block) >= block,
        block <= SCAN_CHUNK ==> scan_chunk(block) <= SCAN_CHUNK < scan_chunk(block) + block,
        block > SCAN_CHUNK ==> scan_chunk(block) == block,
{
    let most = larger(SCAN_CHUNK as int, block);
    let count = most / block;
    lemma_fundamental_div_mod(most, block);
    lemma_mod_bound(most, block);
    lemma_mul_is_commutative(block, count);
    lemma_mod_multiples_basic(count, block);
    assert(count >= 1) by (nonlinear_arith)
        requires
            block * count + most % block == most,
            0 <= most % block < block,
            most >= block,
            block > 0,
    ;
    assert(count * block >= block) by (nonlinear_arith)
        requires
            count >= 1,
            block > 0,
    ;
    if most == block {
        assert(count == 1) by (nonlinear_arith)
            requires
                block * count + most % block == most,
                0 <= most % block < block,
                most == block,
                block > 0,
                count >= 1,
        ;
    }
}

/// The size of the chunks in which a source with blocks of `block_size` bytes
/// is scanned.
pub fn scan_chunk_size(block_size: u64) -> (chunk: u64)
    requires
        block_size > 0,
    ensures
        chunk == scan_chunk(block_size as int),
{
    let most: u64 = if SCAN_CHUNK >= block_size {
        SCAN_CHUNK
    } else {
        block_size
    };
    proof {
        chunks_are_whole_blocks(block_size as int);
    }
    most / block_size * block_size
}

// ---------------------------------------------------------------------------
// Showing sizes and bytes
// ---------------------------------------------------------------------------

/// The unit in which a number of bytes is shown, and the number of bytes in
/// it: the largest unit that the number reaches.
pub fn shown_unit(n: u64) -> (unit: (u64, &'static str))
    ensures
        n >= GB ==> unit.0 == GB && unit.1@ == "GB"@,
        MB <= n < GB ==> unit.0 == MB && unit.1@ == "MB"@,
        KB <= n < MB ==> unit.0 == KB && unit.1@ == "KB"@,
        n < KB ==> unit.0 == 1 && unit.1@ == "B"@,
{
    if n >= GB {
        (GB, "GB")
    } else if n >= MB {
        (MB, "MB")
    } else if n >= KB {
        (KB, "KB")
    } else {
        (1, "B")
    }
}

/// Bytes as pairs of hexadecimal digits with spaces between them.
pub open spec fn hex_of(b: Seq<u8>) -> Seq<char>
    decreases b.len(),
{
    if b.len() == 0 {
        Seq::empty()
    } else {
        let pair = seq![digit_char(b.last() as int / 16), digit_char(b.last() as int % 16)];
        if b.len() == 1 {
            pair
        } else {
            hex_of(b.drop_last()) + seq![' '] + pair
        }
    }
}

/// Bytes as pairs of hexadecimal digits with spaces between them.
pub fn hex(b: &[u8]) -> (s: String)
    ensures
        s@ == hex_of(b@),
{
    let mut s: String = String::new();
    let mut k: usize = 0;
    while k < b.len()
        invariant
            k <= b@.len(),
            s@ == hex_of(b@.take(k as int)),
        decreases b@.len() - k,
    {
        let x: u64 = b[k] as u64;
        assert(b@.take(k + 1).drop_last() =~= b@.take(k as int));
        assert(b@.take(k + 1).last() == b@[k as int]);
        if k > 0 {
            s.push(' ');
        }
        s.push(digit(x / 16));
        s.push(digit(x % 16));
        assert(s@ =~= hex_of(b@.take(k + 1)));
        k = k + 1;
    }
    assert(b@.take(k as int) =~= b@);
    s
}

/// The name under which a database entry is listed.
pub fn listed_name(name: &'static str) -> (shown: &'static str)
    ensures
        shown@ == (if name@ == "ftyp"@ {
            "mp4/mov"@
        } else {
            name@
        }),
{
    if same_text(name, "ftyp") {
        "mp4/mov"
    } else {
        name
    }
}

} // verus!
