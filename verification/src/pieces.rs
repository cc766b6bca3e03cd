//! Taking text apart: trimming, splitting, prefixes and suffixes. The functions
//! work on slices of characters.

use vstd::prelude::*;
use vstd::slice::slice_subrange;

verus! {

// ---------------------------------------------------------------------------
// Characters
// ---------------------------------------------------------------------------

/// Whether a character counts as white space in Unicode.
pub open spec fn is_space(c: char) -> bool {
    let n = c as int;
    ||| 0x9 <= n <= 0xD
    ||| n == 0x20
    ||| n == 0x85
    ||| n == 0xA0
    ||| n == 0x1680
    ||| 0x2000 <= n <= 0x200A
    ||| n == 0x2028
    ||| n == 0x2029
    ||| n == 0x202F
    ||| n == 0x205F
    ||| n == 0x3000
}

/// Whether `c` is white space.
pub fn space(c: char) -> (yes: bool)
    ensures
        yes == is_space(c),
{
    let n: u32 = c as u32;
    (0x9 <= n && n <= 0xD) || n == 0x20 || n == 0x85 || n == 0xA0 || n == 0x1680 || (0x2000 <= n
        && n <= 0x200A) || n == 0x2028 || n == 0x2029 || n == 0x202F || n == 0x205F || n == 0x3000
}

/// Whether a character is a decimal digit of ASCII.
pub open spec fn is_digit(c: char) -> bool {
    '0' as int <= c as int <= '9' as int
}

/// Whether `c` is a decimal digit of ASCII.
pub fn ascii_digit(c: char) -> (yes: bool)
    ensures
        yes == is_digit(c),
{
    let n: u32 = c as u32;
    48 <= n && n <= 57
}

/// The lower-case form of an ASCII letter; other characters stay.
pub open spec fn lowered(c: char) -> char {
    if 'A' as int <= c as int <= 'Z' as int {
        (c as int + 32) as char
    } else {
        c
    }
}

/// The lower-case form of `c` if it is an ASCII letter, else `c`.
pub fn ascii_lower(c: char) -> (l: char)
    ensures
        l == lowered(c),
{
    let n: u32 = c as u32;
    if 65 <= n && n <= 90 {
        (n as u8 + 32) as char
    } else {
        c
    }
}

/// A text with its ASCII letters in lower case.
pub open spec fn lowercase(s: Seq<char>) -> Seq<char> {
    s.map_values(|c: char| lowered(c))
}

/// `s` with its ASCII letters in lower case.
pub fn to_lowercase(s: &[char]) -> (v: Vec<char>)
    ensures
        v@ == lowercase(s@),
{
    let mut v: Vec<char> = Vec::new();
    let mut k: usize = 0;
    while k < s.len()
        invariant
            k <= s@.len(),
            v@ =~= lowercase(s@).take(k as int),
        decreases s@.len() - k,
    {
        v.push(ascii_lower(s[k]));
        k = k + 1;
    }
    assert(v@ =~= lowercase(s@));
    v
}

// ---------------------------------------------------------------------------
// Trimming
// ---------------------------------------------------------------------------

/// A text without the white space at its start.
pub open spec fn trimmed_start(s: Seq<char>) -> Seq<char>
    decreases s.len(),
{
    if s.len() > 0 && is_space(s[0]) {
        trimmed_start(s.drop_first())
    } else {
        s
    }
}

/// A text without the white space at its end.
pub open spec fn trimmed_end(s: Seq<char>) -> Seq<char>
    decreases s.len(),
{
    if s.len() > 0 && is_space(s.last()) {
        trimmed_end(s.drop_last())
    } else {
        s
    }
}

/// A text without the white space around it.
pub open spec fn trimmed(s: Seq<char>) -> Seq<char> {
    trimmed_end(trimmed_start(s))
}

/// `s` without the white space at its start.
pub fn trim_start(s: &[char]) -> (t: &[char])
    ensures
        t@ == trimmed_start(s@),
{
    let mut k: usize = 0;
    assert(s@.skip(0) =~= s@);
    while k < s.len() && space(s[k])
        invariant
            k <= s@.len(),
            trimmed_start(s@) == trimmed_start(s@.skip(k as int)),
        decreases s@.len() - k,
    {
        assert(s@.skip(k as int).drop_first() =~= s@.skip(k + 1));
        k = k + 1;
    }
    assert(s@.skip(k as int) =~= s@.subrange(k as int, s@.len() as int));
    slice_subrange(s, k, s.len())
}

/// `s` without the white space at its end.
pub fn trim_end(s: &[char]) -> (t: &[char])
    ensures
        t@ == trimmed_end(s@),
{
    let mut k: usize = s.len();
    assert(s@.take(k as int) =~= s@);
    while k > 0 && space(s[k - 1])
        invariant
            k <= s@.len(),
            trimmed_end(s@) == trimmed_end(s@.take(k as int)),
        decreases k,
    {
        assert(s@.take(k as int).drop_last() =~= s@.take(k - 1));
        k = k - 1;
    }
    assert(s@.take(k as int) =~= s@.subrange(0, k as int));
    slice_subrange(s, 0, k)
}

/// `s` without the white space around it.
pub fn trim(s: &[char]) -> (t: &[char])
    ensures
        t@ == trimmed(s@),
{
    trim_end(trim_start(s))
}

/// A text without any `c` at its start.
pub open spec fn without_leading(s: Seq<char>, c: char) -> Seq<char>
    decreases s.len(),
{
    if s.len() > 0 && s[0] == c {
        without_leading(s.drop_first(), c)
    } else {
        s
    }
}

/// `s` without any `c` at its start.
pub fn trim_leading(s: &[char], c: char) -> (t: &[char])
    ensures
        t@ == without_leading(s@, c),
{
    let mut k: usize = 0;
    assert(s@.skip(0) =~= s@);
    while k < s.len() && s[k] == c
        invariant
            k <= s@.len(),
            without_leading(s@, c) == without_leading(s@.skip(k as int), c),
        decreases s@.len() - k,
    {
        assert(s@.skip(k as int).drop_first() =~= s@.skip(k + 1));
        k = k + 1;
    }
    assert(s@.skip(k as int) =~= s@.subrange(k as int, s@.len() as int));
    slice_subrange(s, k, s.len())
}

// ---------------------------------------------------------------------------
// Prefixes and suffixes
// ---------------------------------------------------------------------------

/// A text without the prefix `p`, if it begins with it.
pub open spec fn after_prefix(s: Seq<char>, p: Seq<char>) -> Option<Seq<char>> {
    if p.is_prefix_of(s) {
        Some(s.skip(p.len() as int))
    } else {
        None
    }
}

/// A text without the suffix `p`, if it ends with it.
pub open spec fn before_suffix(s: Seq<char>, p: Seq<char>) -> Option<Seq<char>> {
    if p.is_suffix_of(s) {
        Some(s.take(s.len() - p.len()))
    } else {
        None
    }
}

/// What an optional piece of text says.
pub open spec fn piece(t: Option<&[char]>) -> Option<Seq<char>> {
    match t {
        Some(x) => Some(x@),
        None => None,
    }
}

/// Whether `p` stands in `s` at `at`.
fn stands_there(s: &[char], p: &[char], at: usize) -> (yes: bool)
    requires
        at + p@.len() <= s@.len(),
    ensures
        yes == (s@.subrange(at as int, at + p@.len()) == p@),
{
    let len: usize = s.len();
    let mut k: usize = 0;
    while k < p.len()
        invariant
            k <= p@.len(),
            at + p@.len() <= s@.len(),
            s@.len() == len,
            forall|j: int| 0 <= j < k ==> s@[at + j] == p@[j],
        decreases p@.len() - k,
    {
        if s[at + k] != p[k] {
            assert(s@.subrange(at as int, at + p@.len())[k as int] != p@[k as int]);
            return false;
        }
        k = k + 1;
    }
    assert(s@.subrange(at as int, at + p@.len()) =~= p@);
    true
}

/// `s` without the prefix `p`, if it begins with it.
pub fn strip_prefix<'a>(s: &'a [char], p: &[char]) -> (t: Option<&'a [char]>)
    ensures
        piece(t) == after_prefix(s@, p@),
{
    if s.len() < p.len() {
        return None;
    }
    if stands_there(s, p, 0) {
        assert(s@.skip(p@.len() as int) =~= s@.subrange(p@.len() as int, s@.len() as int));
        Some(slice_subrange(s, p.len(), s.len()))
    } else {
        None
    }
}

/// `s` without the suffix `p`, if it ends with it.
pub fn strip_suffix<'a>(s: &'a [char], p: &[char]) -> (t: Option<&'a [char]>)
    ensures
        piece(t) == before_suffix(s@, p@),
{
    if s.len() < p.len() {
        return None;
    }
    let keep: usize = s.len() - p.len();
    if stands_there(s, p, keep) {
        assert(s@.take(keep as int) =~= s@.subrange(0, keep as int));
        Some(slice_subrange(s, 0, keep))
    } else {
        None
    }
}

/// What stands after the last `c` of a text; all of it if there is none.
pub open spec fn after_last(s: Seq<char>, c: char) -> Seq<char>
    decreases s.len(),
{
    if s.len() == 0 || s.last() == c {
        Seq::empty()
    } else {
        after_last(s.drop_last(), c).push(s.last())
    }
}

/// What stands after the last `c` of `s`; all of it if there is none.
pub fn tail_after(s: &[char], c: char) -> (t: &[char])
    ensures
        t@ == after_last(s@, c),
{
    let mut k: usize = s.len();
    assert(s@.take(k as int) =~= s@);
    assert(s@.skip(k as int) =~= Seq::<char>::empty());
    assert(after_last(s@, c) =~= after_last(s@, c) + s@.skip(k as int));
    while k > 0 && s[k - 1] != c
        invariant
            k <= s@.len(),
            after_last(s@, c) == after_last(s@.take(k as int), c) + s@.skip(k as int),
        decreases k,
    {
        let ghost shorter: Seq<char> = s@.take(k - 1);
        assert(s@.take(k as int).drop_last() =~= shorter);
        assert(after_last(shorter, c).push(s@[k - 1]) + s@.skip(k as int) =~= after_last(
            shorter,
            c,
        ) + s@.skip(k - 1));
        k = k - 1;
    }
    assert(after_last(s@.take(k as int), c) =~= Seq::<char>::empty());
    assert(s@.skip(k as int) =~= s@.subrange(k as int, s@.len() as int));
    assert(after_last(s@, c) =~= s@.skip(k as int));
    slice_subrange(s, k, s.len())
}

/// The digits at the start of a text.
pub open spec fn leading_digits(s: Seq<char>) -> Seq<char>
    decreases s.len(),
{
    if s.len() > 0 && is_digit(s[0]) {
        seq![s[0]] + leading_digits(s.drop_first())
    } else {
        Seq::empty()
    }
}

/// The digits at the start of `s`.
pub fn take_digits(s: &[char]) -> (t: &[char])
    ensures
        t@ == leading_digits(s@),
{
    let mut k: usize = 0;
    assert(s@.skip(0) =~= s@);
    assert(s@.take(0) + leading_digits(s@) =~= leading_digits(s@));
    while k < s.len() && ascii_digit(s[k])
        invariant
            k <= s@.len(),
            leading_digits(s@) == s@.take(k as int) + leading_digits(s@.skip(k as int)),
        decreases s@.len() - k,
    {
        assert(s@.skip(k as int).drop_first() =~= s@.skip(k + 1));
        assert(s@.take(k as int) + (seq![s@[k as int]] + leading_digits(s@.skip(k + 1)))
            =~= s@.take(k + 1) + leading_digits(s@.skip(k + 1)));
        k = k + 1;
    }
    assert(s@.take(k as int) + Seq::<char>::empty() =~= s@.subrange(0, k as int));
    slice_subrange(s, 0, k)
}

// ---------------------------------------------------------------------------
// Splitting
// ---------------------------------------------------------------------------

/// The pieces of a text between the separators `c`. There is always one piece
/// more than there are separators.
pub open spec fn split_at_each(s: Seq<char>, c: char) -> Seq<Seq<char>>
    decreases s.len(),
{
    if s.len() == 0 {
        seq![Seq::empty()]
    } else {
        let before = split_at_each(s.drop_last(), c);
        if s.last() == c {
            before.push(Seq::empty())
        } else {
            before.drop_last().push(before.last().push(s.last()))
        }
    }
}

/// What each piece of a list says.
pub open spec fn pieces(v: Seq<Vec<char>>) -> Seq<Seq<char>> {
    v.map_values(|p: Vec<char>| p@)
}

/// The pieces of `s` between the separators `c`.
pub fn split(s: &[char], c: char) -> (parts: Vec<Vec<char>>)
    ensures
        pieces(parts@) == split_at_each(s@, c),
        parts@.len() > 0,
{
    let mut parts: Vec<Vec<char>> = Vec::new();
    let mut last: Vec<char> = Vec::new();
    let mut k: usize = 0;
    assert(pieces(parts@).push(last@) =~= split_at_each(s@.take(0), c));
    while k < s.len()
        invariant
            k <= s@.len(),
            pieces(parts@).push(last@) == split_at_each(s@.take(k as int), c),
        decreases s@.len() - k,
    {
        let ghost before: Seq<Seq<char>> = split_at_each(s@.take(k as int), c);
        let ghost done: Seq<Seq<char>> = pieces(parts@);
        let ghost piece: Seq<char> = last@;
        assert(s@.take(k + 1).drop_last() =~= s@.take(k as int));
        assert(before.last() == piece);
        assert(before.drop_last() =~= done);
        if s[k] == c {
            parts.push(last);
            last = Vec::new();
            assert(pieces(parts@) =~= done.push(piece));
            assert(pieces(parts@).push(last@) =~= before.push(Seq::empty()));
        } else {
            last.push(s[k]);
            assert(pieces(parts@).push(last@) =~= done.push(piece.push(s@[k as int])));
        }
        k = k + 1;
    }
    assert(s@.take(k as int) =~= s@);
    let ghost done: Seq<Seq<char>> = pieces(parts@);
    let ghost piece: Seq<char> = last@;
    parts.push(last);
    assert(pieces(parts@) =~= done.push(piece));
    parts
}

/// A line without the carriage return that may stand before its line feed.
pub open spec fn without_return(line: Seq<char>) -> Seq<char> {
    if line.len() > 0 && line.last() == '\r' {
        line.drop_last()
    } else {
        line
    }
}

/// The lines of a text. A line ends with a line feed, or a carriage return and
/// a line feed; the last one may also end with the text.
pub open spec fn lines_of(s: Seq<char>) -> Seq<Seq<char>> {
    let parts = split_at_each(s, '\n');
    let whole = parts.drop_last().map_values(|l: Seq<char>| without_return(l));
    if parts.last().len() == 0 {
        whole
    } else {
        whole.push(parts.last())
    }
}

/// The lines of `s`.
pub fn lines(s: &[char]) -> (all: Vec<Vec<char>>)
    ensures
        pieces(all@) == lines_of(s@),
{
    let mut parts: Vec<Vec<char>> = split(s, '\n');
    let ghost whole: Seq<Seq<char>> = split_at_each(s@, '\n');
    let count: usize = parts.len() - 1;
    let mut all: Vec<Vec<char>> = Vec::new();
    let mut k: usize = 0;
    while k < count
        invariant
            k <= count,
            count + 1 == parts@.len(),
            pieces(parts@) == whole,
            pieces(all@) =~= whole.take(k as int).map_values(|l: Seq<char>| without_return(l)),
        decreases count - k,
    {
        let line: &Vec<char> = &parts[k];
        assert(whole[k as int] == line@);
        let len: usize = line.len();
        let keep: usize = if len > 0 && line[len - 1] == '\r' {
            len - 1
        } else {
            len
        };
        let mut kept: Vec<char> = Vec::new();
        let mut j: usize = 0;
        while j < keep
            invariant
                j <= keep <= line@.len(),
                kept@ =~= line@.take(j as int),
            decreases keep - j,
        {
            kept.push(line[j]);
            j = j + 1;
        }
        assert(kept@ =~= without_return(whole[k as int]));
        let ghost before: Seq<Seq<char>> = pieces(all@);
        all.push(kept);
        assert(pieces(all@) =~= before.push(without_return(whole[k as int])));
        assert(whole.take(k + 1) =~= whole.take(k as int).push(whole[k as int]));
        k = k + 1;
    }
    assert(whole.take(count as int) =~= whole.drop_last());
    let last: Option<Vec<char>> = parts.pop();
    if let Some(line) = last {
        assert(whole.last() == line@);
        let ghost before: Seq<Seq<char>> = pieces(all@);
        if line.len() > 0 {
            all.push(line);
            assert(pieces(all@) =~= before.push(whole.last()));
        }
    }
    all
}

/// The first word of a text: what stands between white space, or `None` if
/// there is nothing else.
pub open spec fn first_word_of(s: Seq<char>) -> Option<Seq<char>> {
    let t = trimmed_start(s);
    if t.len() == 0 {
        None
    } else {
        Some(until_space(t))
    }
}

/// A text up to its first white space.
pub open spec fn until_space(s: Seq<char>) -> Seq<char>
    decreases s.len(),
{
    if s.len() == 0 || is_space(s[0]) {
        Seq::empty()
    } else {
        seq![s[0]] + until_space(s.drop_first())
    }
}

/// The first word of `s`.
pub fn first_word(s: &[char]) -> (w: Option<&[char]>)
    ensures
        piece(w) == first_word_of(s@),
{
    let t: &[char] = trim_start(s);
    if t.len() == 0 {
        return None;
    }
    let mut k: usize = 0;
    assert(t@.skip(0) =~= t@);
    assert(t@.take(0) + until_space(t@) =~= until_space(t@));
    while k < t.len() && !space(t[k])
        invariant
            k <= t@.len(),
            until_space(t@) == t@.take(k as int) + until_space(t@.skip(k as int)),
        decreases t@.len() - k,
    {
        assert(t@.skip(k as int).drop_first() =~= t@.skip(k + 1));
        assert(t@.take(k as int) + (seq![t@[k as int]] + until_space(t@.skip(k + 1)))
            =~= t@.take(k + 1) + until_space(t@.skip(k + 1)));
        k = k + 1;
    }
    assert(t@.take(k as int) + Seq::<char>::empty() =~= t@.subrange(0, k as int));
    Some(slice_subrange(t, 0, k))
}

} // verus!
