//! What the functions on text are for, in terms of the texts that they take apart
//! and put together.

use vstd::prelude::*;

use crate::options::hex_of;
use crate::pieces::{
    after_last, after_prefix, before_suffix, first_word_of, is_digit, is_space, leading_digits,
    lines_of, lowercase, lowered, split_at_each, trimmed, trimmed_end, trimmed_start, until_space,
    without_leading, without_return,
};
use crate::text::{
    all_digits, ascending, before, before_is_irreflexive, decimal, decimal_value, digit_char,
    digits_value, four_digits, joined,
};

verus! {

// ---------------------------------------------------------------------------
// Characters
// ---------------------------------------------------------------------------

/// The decimal digits are the characters from `0` to `9`.
pub proof fn digits_are_ten(c: char)
    ensures
        is_digit(c) <==> "0123456789"@.contains(c),
{
    reveal_strlit("0123456789");
    let all = "0123456789"@;
    if is_digit(c) {
        let k = c as int - '0' as int;
        assert(k == 0 || k == 1 || k == 2 || k == 3 || k == 4 || k == 5 || k == 6 || k == 7 || k
            == 8 || k == 9);
        assert(all[k] == c);
    }
}

/// The digits that stand for the numbers below sixteen.
pub proof fn digits_stand_for_numbers(d: int)
    requires
        0 <= d < 16,
    ensures
        digit_char(d) == "0123456789ABCDEF"@[d],
{
    reveal_strlit("0123456789ABCDEF");
    assert(d == 0 || d == 1 || d == 2 || d == 3 || d == 4 || d == 5 || d == 6 || d == 7 || d == 8
        || d == 9 || d == 10 || d == 11 || d == 12 || d == 13 || d == 14 || d == 15);
}

/// White space is what Unicode takes for it: among the characters of ASCII the
/// blank, the tabs, the line ends and the form feed.
pub proof fn white_space_is_white(c: char)
    requires
        0 <= c as int,
    ensures
        (c as int) < 128 ==> (is_space(c) <==> c == ' ' || c == '\t' || c == '\n' || c == '\r'
            || c as int == 11 || c as int == 12),
        128 <= c as int ==> (is_space(c) <==> c as int == 0x85 || c as int == 0xA0 || c as int
            == 0x1680 || 0x2000 <= c as int <= 0x200A || c as int == 0x2028 || c as int == 0x2029
            || c as int == 0x202F || c as int == 0x205F || c as int == 0x3000),
{
}

/// A capital letter has its small letter as lower case; every other character
/// stays as it is.
pub proof fn capitals_become_small(c: char, k: int)
    ensures
        0 <= k < 26 ==> lowered("ABCDEFGHIJKLMNOPQRSTUVWXYZ"@[k])
            == "abcdefghijklmnopqrstuvwxyz"@[k],
        !"ABCDEFGHIJKLMNOPQRSTUVWXYZ"@.contains(c) ==> lowered(c) == c,
{
    reveal_strlit("ABCDEFGHIJKLMNOPQRSTUVWXYZ");
    reveal_strlit("abcdefghijklmnopqrstuvwxyz");
    let capitals = "ABCDEFGHIJKLMNOPQRSTUVWXYZ"@;
    if 0 <= k < 26 {
        assert(k == 0 || k == 1 || k == 2 || k == 3 || k == 4 || k == 5 || k == 6 || k == 7 || k
            == 8 || k == 9 || k == 10 || k == 11 || k == 12 || k == 13 || k == 14 || k == 15 || k
            == 16 || k == 17 || k == 18 || k == 19 || k == 20 || k == 21 || k == 22 || k == 23
            || k == 24 || k == 25);
    }
    if 'A' as int <= c as int <= 'Z' as int {
        let n = c as int - 'A' as int;
        assert(n == 0 || n == 1 || n == 2 || n == 3 || n == 4 || n == 5 || n == 6 || n == 7 || n
            == 8 || n == 9 || n == 10 || n == 11 || n == 12 || n == 13 || n == 14 || n == 15 || n
            == 16 || n == 17 || n == 18 || n == 19 || n == 20 || n == 21 || n == 22 || n == 23
            || n == 24 || n == 25);
        assert(capitals[n] == c);
    }
}

/// A text in lower case has as many characters, each in lower case.
pub proof fn lower_case_is_of_each(s: Seq<char>, k: int)
    requires
        0 <= k < s.len(),
    ensures
        lowercase(s).len() == s.len(),
        lowercase(s)[k] == lowered(s[k]),
{
}

// ---------------------------------------------------------------------------
// Order
// ---------------------------------------------------------------------------

/// Of two texts that first differ in one character, that with the lower character
/// comes first; and a text comes before what it begins.
pub proof fn first_difference_decides(p: Seq<char>, x: char, a: Seq<char>, y: char, b: Seq<char>)
    ensures
        (x as int) < (y as int) ==> before(p + seq![x] + a, p + seq![y] + b),
        before(p, p + seq![x] + a),
    decreases p.len(),
{
    let s = p + seq![x] + a;
    let t = p + seq![y] + b;
    if p.len() > 0 {
        let q = p.drop_first();
        first_difference_decides(q, x, a, y, b);
        assert(s.drop_first() =~= q + seq![x] + a);
        assert(t.drop_first() =~= q + seq![y] + b);
    }
}

/// In an ascending list every text comes before those after it.
pub proof fn ascending_lists_ascend(names: Seq<Seq<char>>, i: int, j: int)
    requires
        ascending(names),
        0 <= i < j < names.len(),
    ensures
        before(names[i], names[j]),
        names[i] != names[j],
{
    before_is_irreflexive(names[i]);
}

// ---------------------------------------------------------------------------
// Numbers
// ---------------------------------------------------------------------------

/// The digits of a number, but for the last, are those of a tenth of it.
pub proof fn decimal_digits_follow(n: nat, d: nat)
    requires
        d < 10,
    ensures
        decimal(d) == seq!["0123456789"@[d as int]],
        n > 0 ==> decimal(10 * n + d) == decimal(n) + seq!["0123456789"@[d as int]],
{
    reveal_strlit("0123456789");
    assert(d == 0 || d == 1 || d == 2 || d == 3 || d == 4 || d == 5 || d == 6 || d == 7 || d == 8
        || d == 9);
    assert(digit_char(d as int) == "0123456789"@[d as int]);
    if n > 0 {
        let m = 10 * n + d;
        assert(m / 10 == n && m % 10 == d);
        assert(decimal(m) =~= decimal(n) + seq!["0123456789"@[d as int]]);
    }
}

/// One digit more makes ten times the number, and the digit.
pub proof fn digits_are_worth_tenfold(s: Seq<char>, d: int)
    requires
        0 <= d < 10,
    ensures
        digits_value(Seq::<char>::empty()) == 0,
        digits_value(s + seq!["0123456789"@[d]]) == 10 * digits_value(s) + d,
{
    reveal_strlit("0123456789");
    let t = s + seq!["0123456789"@[d]];
    assert(d == 0 || d == 1 || d == 2 || d == 3 || d == 4 || d == 5 || d == 6 || d == 7 || d == 8
        || d == 9);
    assert(t.drop_last() =~= s);
}

/// A number filled up to four digits has four, or more if it needs them; they
/// stand for the number.
pub proof fn four_digits_stand_for_their_number(n: nat)
    ensures
        n < 10000 ==> four_digits(n).len() == 4,
        n >= 10000 ==> four_digits(n) == decimal(n),
        all_digits(four_digits(n)),
        digits_value(four_digits(n)) == n,
{
    reveal_strlit("000");
    reveal_strlit("00");
    reveal_strlit("0");
    decimal_value(n);
    lengths_of_numbers(n);
    let zeros = if n < 10 {
        "000"@
    } else if n < 100 {
        "00"@
    } else if n < 1000 {
        "0"@
    } else {
        Seq::<char>::empty()
    };
    assert(four_digits(n) =~= zeros + decimal(n));
    zeros_count_nothing(zeros, decimal(n));
    assert forall|k: int| 0 <= k < four_digits(n).len() implies is_digit(
        #[trigger] four_digits(n)[k],
    ) by {
        if k >= zeros.len() {
            assert(four_digits(n)[k] == decimal(n)[k - zeros.len()]);
        }
    }
}

/// How many digits small numbers have.
proof fn lengths_of_numbers(n: nat)
    ensures
        n < 10 ==> decimal(n).len() == 1,
        10 <= n < 100 ==> decimal(n).len() == 2,
        100 <= n < 1000 ==> decimal(n).len() == 3,
        1000 <= n < 10000 ==> decimal(n).len() == 4,
{
    reveal_with_fuel(decimal, 5);
}

/// Zeros in front change no number.
proof fn zeros_count_nothing(zeros: Seq<char>, s: Seq<char>)
    requires
        forall|k: int| 0 <= k < zeros.len() ==> #[trigger] zeros[k] == '0',
    ensures
        digits_value(zeros + s) == digits_value(s),
    decreases zeros.len() + s.len(),
{
    let t = zeros + s;
    if s.len() > 0 {
        assert(t.drop_last() =~= zeros + s.drop_last());
        zeros_count_nothing(zeros, s.drop_last());
    } else if zeros.len() > 0 {
        assert(t.drop_last() =~= zeros.drop_last() + s);
        zeros_count_nothing(zeros.drop_last(), s);
    }
}

/// Bytes are shown as two digits each, with one blank between them.
pub proof fn bytes_are_shown_in_pairs(a: Seq<u8>, x: u8)
    ensures
        hex_of(seq![x]) == seq![
            "0123456789ABCDEF"@[x as int / 16],
            "0123456789ABCDEF"@[x as int % 16],
        ],
        a.len() > 0 ==> hex_of(a + seq![x]) == hex_of(a) + seq![' '] + hex_of(seq![x]),
        hex_of(Seq::<u8>::empty()).len() == 0,
{
    digits_stand_for_numbers(x as int / 16);
    digits_stand_for_numbers(x as int % 16);
    let one = seq![x];
    assert(one.last() == x);
    let more = a + one;
    assert(more.drop_last() =~= a);
    assert(more.last() == x);
}

// ---------------------------------------------------------------------------
// Taking off
// ---------------------------------------------------------------------------

/// Whether a text consists of white space.
pub open spec fn is_blank(s: Seq<char>) -> bool {
    forall|k: int| 0 <= k < s.len() ==> is_space(#[trigger] s[k])
}

/// White space in front is taken off.
pub(crate) proof fn blanks_in_front(a: Seq<char>, t: Seq<char>)
    requires
        is_blank(a),
        t.len() > 0 ==> !is_space(t[0]),
    ensures
        trimmed_start(a + t) == t,
    decreases a.len(),
{
    let s = a + t;
    if a.len() > 0 {
        assert(s[0] == a[0]);
        assert(s.drop_first() =~= a.drop_first() + t);
        blanks_in_front(a.drop_first(), t);
    } else {
        assert(s =~= t);
    }
}

/// White space at the end is taken off.
proof fn blanks_at_end(t: Seq<char>, b: Seq<char>)
    requires
        is_blank(b),
        t.len() > 0 ==> !is_space(t.last()),
    ensures
        trimmed_end(t + b) == t,
    decreases b.len(),
{
    let s = t + b;
    if b.len() > 0 {
        assert(s.last() == b.last());
        assert(s.drop_last() =~= t + b.drop_last());
        blanks_at_end(t, b.drop_last());
    } else {
        assert(s =~= t);
    }
}

/// A text comes out of its surroundings of white space as it is.
pub proof fn trimming_takes_off_white_space(a: Seq<char>, t: Seq<char>, b: Seq<char>)
    requires
        is_blank(a),
        is_blank(b),
        t.len() > 0 ==> !is_space(t[0]) && !is_space(t.last()),
    ensures
        trimmed(a + t + b) == t,
{
    if t.len() > 0 {
        assert(a + t + b =~= a + (t + b));
        assert((t + b)[0] == t[0]);
        blanks_in_front(a, t + b);
        blanks_at_end(t, b);
    } else {
        let all = a + t + b;
        assert(is_blank(all));
        assert(all =~= all + t);
        blanks_in_front(all, t);
        assert(t =~= Seq::<char>::empty());
    }
}

/// Repetitions of a character in front are taken off, and nothing else.
pub proof fn leading_characters_are_taken_off(n: nat, c: char, t: Seq<char>)
    requires
        t.len() > 0 ==> t[0] != c,
    ensures
        without_leading(Seq::new(n, |k: int| c) + t, c) == t,
    decreases n,
{
    let s = Seq::new(n, |k: int| c) + t;
    if n > 0 {
        assert(s[0] == c);
        assert(s.drop_first() =~= Seq::new((n - 1) as nat, |k: int| c) + t);
        leading_characters_are_taken_off((n - 1) as nat, c, t);
    } else {
        assert(s =~= t);
    }
}

/// A prefix comes off where it stands, and only there.
pub proof fn prefixes_come_off(s: Seq<char>, p: Seq<char>, t: Seq<char>)
    ensures
        after_prefix(s, p) == Some(t) <==> s == p + t,
        after_prefix(s, p) is None ==> s != p + t,
{
    if s == p + t {
        assert(s.subrange(0, p.len() as int) =~= p);
        assert(s.skip(p.len() as int) =~= t);
    }
    if after_prefix(s, p) == Some(t) {
        assert(s.subrange(0, p.len() as int) =~= p);
        assert(s =~= p + t);
    }
}

/// A suffix comes off where it stands, and only there.
pub proof fn suffixes_come_off(s: Seq<char>, p: Seq<char>, t: Seq<char>)
    ensures
        before_suffix(s, p) == Some(t) <==> s == t + p,
        before_suffix(s, p) is None ==> s != t + p,
{
    if s == t + p {
        assert(s.subrange(s.len() - p.len(), s.len() as int) =~= p);
        assert(s.take(s.len() - p.len()) =~= t);
    }
    if before_suffix(s, p) == Some(t) {
        assert(s.subrange(s.len() - p.len(), s.len() as int) =~= p);
        assert(s =~= t + p);
    }
}

/// What follows the last of a character is told apart from what stands before it.
pub proof fn tails_follow_the_last(a: Seq<char>, c: char, t: Seq<char>)
    requires
        !t.contains(c),
    ensures
        after_last(a + seq![c] + t, c) == t,
        after_last(t, c) == t,
    decreases t.len(),
{
    let s = a + seq![c] + t;
    if t.len() > 0 {
        assert(t.last() == t[t.len() - 1]);
        assert(t.contains(t[t.len() - 1]));
        let u = t.drop_last();
        assert forall|x: char| u.contains(x) implies t.contains(x) by {
            let k = u.index_of(x);
            assert(t[k] == x);
        }
        tails_follow_the_last(a, c, u);
        assert(s.drop_last() =~= a + seq![c] + u);
        assert(s.last() == t.last());
        assert(u.push(t.last()) =~= t);
    } else {
        assert(s.last() == c);
        assert(t =~= Seq::<char>::empty());
    }
}

/// The digits that a text begins with are told apart from what follows them.
pub proof fn digits_in_front_are_taken(d: Seq<char>, t: Seq<char>)
    requires
        forall|k: int| 0 <= k < d.len() ==> is_digit(#[trigger] d[k]),
        t.len() > 0 ==> !is_digit(t[0]),
    ensures
        leading_digits(d + t) == d,
    decreases d.len(),
{
    let s = d + t;
    if d.len() > 0 {
        assert(s[0] == d[0]);
        assert(s.drop_first() =~= d.drop_first() + t);
        digits_in_front_are_taken(d.drop_first(), t);
        assert(seq![d[0]] + d.drop_first() =~= d);
    } else {
        assert(s =~= t);
        assert(d =~= Seq::<char>::empty());
    }
}

// ---------------------------------------------------------------------------
// Putting together and taking apart
// ---------------------------------------------------------------------------

/// Texts are put together in their order with the separator between them.
pub proof fn joined_texts_follow(a: Seq<Seq<char>>, b: Seq<Seq<char>>, x: Seq<char>, sep: Seq<char>)
    ensures
        joined(Seq::<Seq<char>>::empty(), sep).len() == 0,
        joined(seq![x], sep) == x,
        a.len() > 0 && b.len() > 0 ==> joined(a + b, sep) == joined(a, sep) + sep + joined(b, sep),
    decreases b.len(),
{
    if a.len() > 0 && b.len() > 0 {
        let all = a + b;
        assert(all.last() == b.last());
        if b.len() == 1 {
            assert(all.drop_last() =~= a);
        } else {
            let c = b.drop_last();
            joined_texts_follow(a, c, x, sep);
            assert(all.drop_last() =~= a + c);
            assert(joined(all, sep) =~= joined(a, sep) + sep + joined(b, sep));
        }
    }
}

/// A piece without the separator, after a separator, is one piece more.
proof fn one_piece_more(a: Seq<char>, c: char, t: Seq<char>)
    requires
        !t.contains(c),
    ensures
        split_at_each(a + seq![c] + t, c) == split_at_each(a, c).push(t),
        split_at_each(t, c) == seq![t],
    decreases t.len(),
{
    let s = a + seq![c] + t;
    if t.len() > 0 {
        let u = t.drop_last();
        assert(t.contains(t[t.len() - 1]));
        assert forall|x: char| u.contains(x) implies t.contains(x) by {
            let k = u.index_of(x);
            assert(t[k] == x);
        }
        one_piece_more(a, c, u);
        assert(s.drop_last() =~= a + seq![c] + u);
        assert(s.last() == t.last());
        assert(u.push(t.last()) =~= t);
        let before = split_at_each(a, c).push(u);
        assert(before.drop_last() =~= split_at_each(a, c));
        assert(before.last() == u);
        assert(seq![u].drop_last().push(u.push(t.last())) =~= seq![t]);
    } else {
        assert(s.drop_last() =~= a);
        assert(s.last() == c);
        assert(t =~= Seq::<char>::empty());
    }
}

/// Taking apart undoes putting together: texts that hold no separator come back.
pub proof fn split_undoes_join(parts: Seq<Seq<char>>, c: char)
    requires
        parts.len() > 0,
        forall|k: int| 0 <= k < parts.len() ==> !(#[trigger] parts[k]).contains(c),
    ensures
        split_at_each(joined(parts, seq![c]), c) == parts,
    decreases parts.len(),
{
    let t = parts.last();
    assert(t == parts[parts.len() - 1]);
    if parts.len() == 1 {
        one_piece_more(t, c, t);
        assert(seq![t] =~= parts);
    } else {
        let rest = parts.drop_last();
        assert forall|k: int| 0 <= k < rest.len() implies !(#[trigger] rest[k]).contains(c) by {
            assert(rest[k] == parts[k]);
        }
        split_undoes_join(rest, c);
        one_piece_more(joined(rest, seq![c]), c, t);
        assert(rest.push(t) =~= parts);
    }
}

/// Putting together undoes taking apart.
pub proof fn join_undoes_split(s: Seq<char>, c: char)
    ensures
        split_at_each(s, c).len() > 0,
        joined(split_at_each(s, c), seq![c]) == s,
    decreases s.len(),
{
    let parts = split_at_each(s, c);
    if s.len() > 0 {
        let r = s.drop_last();
        join_undoes_split(r, c);
        let before = split_at_each(r, c);
        if s.last() == c {
            assert(parts.drop_last() =~= before);
            assert(joined(parts, seq![c]) =~= s);
        } else {
            assert(parts.drop_last() =~= before.drop_last());
            assert(parts.last() == before.last().push(s.last()));
            assert(r.push(s.last()) =~= s);
            if before.len() == 1 {
                assert(before.last() == r);
            } else {
                assert(joined(parts, seq![c]) =~= joined(before, seq![c]).push(s.last()));
            }
        }
    } else {
        assert(joined(parts, seq![c]) =~= s);
    }
}

/// Lines are read one after another: one that a line feed ends, with or without a
/// carriage return before it, and a last one that the end of the text ends.
pub proof fn lines_follow(a: Seq<char>, line: Seq<char>)
    requires
        a.len() == 0 || a.last() == '\n',
        !line.contains('\n'),
    ensures
        lines_of(Seq::<char>::empty()).len() == 0,
        line.len() == 0 || line.last() != '\r' ==> lines_of(a + line + seq!['\n']) == lines_of(
            a,
        ).push(line),
        lines_of(a + line + seq!['\r', '\n']) == lines_of(a).push(line),
        line.len() > 0 ==> lines_of(a + line) == lines_of(a).push(line),
{
    let c = '\n';
    let none = Seq::<char>::empty();
    let back = line + seq!['\r'];
    assert(split_at_each(none, c) =~= seq![none]);
    assert(lines_of(none).len() == 0);
    assert(!back.contains(c)) by {
        if back.contains(c) {
            let k = back.index_of(c);
            if k < line.len() {
                assert(line[k] == c);
                assert(line.contains(c));
            }
        }
    }
    one_line_more(a, line);
    one_line_more(a, back);
    assert(a + line + seq!['\r', '\n'] =~= a + back + seq!['\n']);
    assert(back.drop_last() =~= line);
}

/// The lines of a text with one line more.
proof fn one_line_more(a: Seq<char>, line: Seq<char>)
    requires
        a.len() == 0 || a.last() == '\n',
        !line.contains('\n'),
    ensures
        lines_of(a + line + seq!['\n']) == lines_of(a).push(without_return(line)),
        line.len() > 0 ==> lines_of(a + line) == lines_of(a).push(line),
{
    let c = '\n';
    let none = Seq::<char>::empty();
    let f = |l: Seq<char>| without_return(l);
    assert(!none.contains(c));
    if a.len() == 0 {
        one_piece_more(none, c, line);
        one_piece_more(line, c, none);
        let s = a + line + seq![c];
        assert(s =~= line + seq![c] + none);
        assert(a + line =~= line);
        assert(split_at_each(none, c) =~= seq![none]);
        assert(split_at_each(s, c).drop_last() =~= seq![line]);
        assert(lines_of(s) =~= lines_of(none).push(without_return(line)));
        assert(a =~= none);
        if line.len() > 0 {
            assert(lines_of(line) =~= lines_of(none).push(line));
        }
    } else {
        let b = a.drop_last();
        let parts = split_at_each(b, c);
        assert(a =~= b + seq![c] + none);
        one_piece_more(b, c, none);
        one_piece_more(b, c, line);
        assert(a + line =~= b + seq![c] + line);
        one_piece_more(a + line, c, none);
        assert(a + line + seq![c] =~= (a + line) + seq![c] + none);
        assert(parts.push(none).drop_last() =~= parts);
        assert(lines_of(a) =~= parts.map_values(f));
        assert(parts.push(line).push(none).drop_last() =~= parts.push(line));
        assert(parts.push(line).map_values(f) =~= parts.map_values(f).push(without_return(line)));
        assert(lines_of(a + line + seq![c]) =~= lines_of(a).push(without_return(line)));
        if line.len() > 0 {
            assert(parts.push(line).drop_last() =~= parts);
            assert(lines_of(a + line) =~= lines_of(a).push(line));
        }
    }
}

/// The first word is what stands between white space and white space, or the end;
/// white space alone has none.
pub proof fn first_words_are_found(a: Seq<char>, w: Seq<char>, b: Seq<char>)
    requires
        is_blank(a),
        w.len() > 0,
        forall|k: int| 0 <= k < w.len() ==> !is_space(#[trigger] w[k]),
        b.len() > 0 ==> is_space(b[0]),
    ensures
        first_word_of(a + w + b) == Some(w),
        first_word_of(a) is None,
{
    let t = w + b;
    assert(t[0] == w[0]);
    assert(a + w + b =~= a + t);
    blanks_in_front(a, t);
    word_ends(w, b);
    let none = Seq::<char>::empty();
    blanks_in_front(a, none);
    assert(a + none =~= a);
}

/// A word ends before white space.
proof fn word_ends(w: Seq<char>, b: Seq<char>)
    requires
        forall|k: int| 0 <= k < w.len() ==> !is_space(#[trigger] w[k]),
        b.len() > 0 ==> is_space(b[0]),
    ensures
        until_space(w + b) == w,
    decreases w.len(),
{
    let s = w + b;
    if w.len() > 0 {
        assert(s[0] == w[0]);
        assert(s.drop_first() =~= w.drop_first() + b);
        word_ends(w.drop_first(), b);
        assert(seq![w[0]] + w.drop_first() =~= w);
    } else {
        assert(s =~= b);
        assert(w =~= Seq::<char>::empty());
    }
}

} // verus!
