//! Text: comparing, joining and ordering it, and writing numbers.
//!
//! Text is a sequence of characters. [`crate::pieces`] takes it apart.

use vstd::prelude::*;

use crate::pieces::is_digit;

verus! {

/// `String::push` appends the given character to the end of the string.
pub assume_specification[ String::push ](s: &mut String, c: char)
    ensures
        final(s)@ == old(s)@.push(c),
;

/// The characters of `s`.
pub fn chars_of(s: &str) -> (v: Vec<char>)
    ensures
        v@ == s@,
{
    let mut v: Vec<char> = Vec::new();
    for c in it: s.chars()
        invariant
            v@ == s@.take(it.index() as int),
            it.seq() == s@,
    {
        v.push(c);
    }
    v
}

/// The string of the characters `c`.
pub fn string_of(c: &[char]) -> (s: String)
    ensures
        s@ == c@,
{
    let mut s: String = String::new();
    let mut k: usize = 0;
    while k < c.len()
        invariant
            k <= c@.len(),
            s@ == c@.take(k as int),
        decreases c@.len() - k,
    {
        s.push(c[k]);
        k = k + 1;
        assert(c@.take(k as int) =~= c@.take(k - 1).push(c@[k - 1]));
    }
    assert(c@.take(k as int) =~= c@);
    s
}

/// Whether two slices hold the same characters.
pub fn same_chars(a: &[char], b: &[char]) -> (same: bool)
    ensures
        same == (a@ == b@),
{
    if a.len() != b.len() {
        return false;
    }
    let mut k: usize = 0;
    while k < a.len()
        invariant
            k <= a@.len(),
            a@.len() == b@.len(),
            forall|j: int| 0 <= j < k ==> a@[j] == b@[j],
        decreases a@.len() - k,
    {
        if a[k] != b[k] {
            return false;
        }
        k = k + 1;
    }
    assert(a@ =~= b@);
    true
}

/// Whether two strings are the same text.
pub fn same_text(a: &str, b: &str) -> (same: bool)
    ensures
        same == (a@ == b@),
{
    same_chars(&chars_of(a), &chars_of(b))
}

/// What each string of a list says.
pub open spec fn texts(list: Seq<String>) -> Seq<Seq<char>> {
    list.map_values(|s: String| s@)
}

/// Texts put together, with `sep` between them.
pub open spec fn joined(list: Seq<Seq<char>>, sep: Seq<char>) -> Seq<char>
    decreases list.len(),
{
    if list.len() == 0 {
        Seq::empty()
    } else if list.len() == 1 {
        list[0]
    } else {
        joined(list.drop_last(), sep) + sep + list.last()
    }
}

/// Puts texts together, with `sep` between them.
pub fn join(list: &[String], sep: &str) -> (s: String)
    ensures
        s@ == joined(texts(list@), sep@),
{
    let mut s: String = String::new();
    let ghost all: Seq<Seq<char>> = texts(list@);
    let mut k: usize = 0;
    while k < list.len()
        invariant
            k <= list@.len(),
            all == texts(list@),
            s@ == joined(all.take(k as int), sep@),
        decreases list@.len() - k,
    {
        assert(all.take(k + 1).drop_last() =~= all.take(k as int));
        assert(all[k as int] == list@[k as int]@);
        if k > 0 {
            s.append(sep);
        }
        s.append(list[k].as_str());
        assert(s@ =~= joined(all.take(k + 1), sep@));
        k = k + 1;
    }
    assert(all.take(k as int) =~= all);
    s
}

// ---------------------------------------------------------------------------
// Order
// ---------------------------------------------------------------------------

/// Lexicographic order: whether `a` comes before `b`.
pub open spec fn before(a: Seq<char>, b: Seq<char>) -> bool
    decreases a.len(),
{
    if b.len() == 0 {
        false
    } else if a.len() == 0 {
        true
    } else if a[0] == b[0] {
        before(a.drop_first(), b.drop_first())
    } else {
        (a[0] as int) < (b[0] as int)
    }
}

/// No text comes before itself.
pub proof fn before_is_irreflexive(a: Seq<char>)
    ensures
        !before(a, a),
    decreases a.len(),
{
    if a.len() > 0 {
        before_is_irreflexive(a.drop_first());
    }
}

/// The order is transitive.
pub proof fn before_is_transitive(a: Seq<char>, b: Seq<char>, c: Seq<char>)
    requires
        before(a, b),
        before(b, c),
    ensures
        before(a, c),
    decreases a.len(),
{
    if a.len() > 0 && a[0] == b[0] && b[0] == c[0] {
        before_is_transitive(a.drop_first(), b.drop_first(), c.drop_first());
    }
}

/// Of two different texts one comes before the other.
pub proof fn before_is_total(a: Seq<char>, b: Seq<char>)
    requires
        a != b,
    ensures
        before(a, b) || before(b, a),
    decreases a.len(),
{
    if a.len() == 0 {
        if b.len() == 0 {
            assert(a =~= b);
        }
    } else if b.len() > 0 && a[0] == b[0] {
        if a.drop_first() == b.drop_first() {
            assert(a =~= seq![a[0]] + a.drop_first());
            assert(b =~= seq![b[0]] + b.drop_first());
        }
        before_is_total(a.drop_first(), b.drop_first());
    }
}

/// Whether the code point of `p` is below that of `q`.
fn lower_char(p: char, q: char) -> (yes: bool)
    ensures
        yes == ((p as int) < (q as int)),
{
    (p as u32) < (q as u32)
}

/// Whether `a` comes before `b`.
pub fn comes_before(a: &str, b: &str) -> (yes: bool)
    ensures
        yes == before(a@, b@),
{
    let x: Vec<char> = chars_of(a);
    let y: Vec<char> = chars_of(b);
    let mut k: usize = 0;
    assert(x@.skip(0) =~= x@);
    assert(y@.skip(0) =~= y@);
    while k < x.len() && k < y.len()
        invariant
            x@ == a@,
            y@ == b@,
            k <= x@.len(),
            k <= y@.len(),
            before(x@, y@) == before(x@.skip(k as int), y@.skip(k as int)),
        decreases x@.len() - k,
    {
        assert(x@.skip(k as int)[0] == x@[k as int]);
        assert(y@.skip(k as int)[0] == y@[k as int]);
        if x[k] != y[k] {
            return lower_char(x[k], y[k]);
        }
        assert(x@.skip(k as int).drop_first() =~= x@.skip(k + 1));
        assert(y@.skip(k as int).drop_first() =~= y@.skip(k + 1));
        k = k + 1;
    }
    k < y.len()
}

/// Whether a list of texts is strictly ascending, and so free of repetitions.
pub open spec fn ascending(names: Seq<Seq<char>>) -> bool {
    forall|i: int, j: int| 0 <= i < j < names.len() ==> before(#[trigger] names[i], #[trigger] names[j])
}

/// There is only one ascending list of the texts of a set.
pub proof fn ascending_list_is_unique(a: Seq<Seq<char>>, b: Seq<Seq<char>>)
    requires
        ascending(a),
        ascending(b),
        a.to_set() == b.to_set(),
    ensures
        a == b,
    decreases a.len(),
{
    if a.len() == 0 || b.len() == 0 {
        if a.len() > 0 {
            assert(a.to_set().contains(a[0]));
        }
        if b.len() > 0 {
            assert(b.to_set().contains(b[0]));
        }
        assert(a =~= b);
    } else {
        let x = a.last();
        let y = b.last();
        assert(a.to_set().contains(x));
        assert(b.to_set().contains(y));
        let i = choose|i: int| 0 <= i < b.len() && b[i] == x;
        let j = choose|j: int| 0 <= j < a.len() && a[j] == y;
        if x != y {
            assert(before(x, y));
            assert(before(y, x));
            before_is_transitive(x, y, x);
            before_is_irreflexive(x);
        }
        let fewer_a = a.drop_last();
        let fewer_b = b.drop_last();
        last_is_not_repeated(a);
        last_is_not_repeated(b);
        assert forall|n: Seq<char>| fewer_a.to_set().contains(n) <==> fewer_b.to_set().contains(
            n,
        ) by {
            if fewer_a.contains(n) {
                assert(a[fewer_a.index_of(n)] == n);
                assert(a.to_set().contains(n));
                let m = choose|m: int| 0 <= m < b.len() && b[m] == n;
                assert(fewer_b[m] == n);
            }
            if fewer_b.contains(n) {
                assert(b[fewer_b.index_of(n)] == n);
                assert(b.to_set().contains(n));
                let m = choose|m: int| 0 <= m < a.len() && a[m] == n;
                assert(fewer_a[m] == n);
            }
        }
        assert(fewer_a.to_set() =~= fewer_b.to_set());
        ascending_list_is_unique(fewer_a, fewer_b);
        assert(a =~= fewer_a.push(x));
        assert(b =~= fewer_b.push(y));
    }
}

/// The last of an ascending list stands in it only once.
proof fn last_is_not_repeated(a: Seq<Seq<char>>)
    requires
        ascending(a),
        a.len() > 0,
    ensures
        !a.drop_last().contains(a.last()),
{
    if a.drop_last().contains(a.last()) {
        let i = a.drop_last().index_of(a.last());
        assert(before(a[i], a[a.len() - 1]));
        before_is_irreflexive(a.last());
    }
}

/// A name inserted where it belongs leaves the list ascending, and is added to
/// the set of its names.
pub proof fn inserted_in_order(names: Seq<Seq<char>>, k: int, name: Seq<char>)
    requires
        ascending(names),
        0 <= k <= names.len(),
        forall|j: int| 0 <= j < k ==> before(#[trigger] names[j], name),
        k < names.len() ==> names[k] != name && !before(names[k], name),
    ensures
        !names.contains(name),
        ascending(names.insert(k, name)),
        names.insert(k, name).to_set() == names.to_set().insert(name),
{
    let now = names.insert(k, name);
    if k < names.len() {
        before_is_total(names[k], name);
        assert forall|j: int| k < j < names.len() implies before(name, #[trigger] names[j]) by {
            before_is_transitive(name, names[k], names[j]);
        }
    }
    before_is_irreflexive(name);
    assert forall|n: Seq<char>| now.to_set().contains(n) <==> names.to_set().insert(
        name,
    ).contains(n) by {
        if now.contains(n) {
            let i = choose|i: int| 0 <= i < now.len() && now[i] == n;
            if i < k {
                assert(names[i] == n);
            } else if i > k {
                assert(names[i - 1] == n);
            }
        }
        if names.contains(n) {
            let i = choose|i: int| 0 <= i < names.len() && names[i] == n;
            if i < k {
                assert(now[i] == n);
            } else {
                assert(now[i + 1] == n);
            }
        }
        if n == name {
            assert(now[k] == n);
        }
    }
    assert(now.to_set() =~= names.to_set().insert(name));
}

// ---------------------------------------------------------------------------
// Numbers
// ---------------------------------------------------------------------------

/// The character of a digit below sixteen.
pub open spec fn digit_char(d: int) -> char {
    if d < 10 {
        ('0' as int + d) as char
    } else {
        ('A' as int + d - 10) as char
    }
}

/// `n` in decimal digits.
pub open spec fn decimal(n: nat) -> Seq<char>
    decreases n,
{
    if n < 10 {
        seq![digit_char(n as int)]
    } else {
        decimal(n / 10).push(digit_char((n % 10) as int))
    }
}

/// The character of a digit below sixteen.
pub fn digit(d: u64) -> (c: char)
    requires
        d < 16,
    ensures
        c == digit_char(d as int),
{
    if d < 10 {
        (48u8 + d as u8) as char
    } else {
        (55u8 + d as u8) as char
    }
}

/// Appends `n` in decimal digits.
pub fn push_decimal(s: &mut String, n: u64)
    ensures
        final(s)@ == old(s)@ + decimal(n as nat),
    decreases n,
{
    if n >= 10 {
        push_decimal(s, n / 10);
    }
    let ghost half: Seq<char> = s@;
    s.push(digit(n % 10));
    proof {
        if n >= 10 {
            assert(s@ =~= old(s)@ + decimal((n / 10) as nat).push(digit_char((n % 10) as int)));
        } else {
            assert(s@ =~= old(s)@ + seq![digit_char(n as int)]);
        }
    }
}

/// The number that decimal digits stand for.
pub open spec fn digits_value(s: Seq<char>) -> nat
    decreases s.len(),
{
    if s.len() == 0 {
        0
    } else {
        10 * digits_value(s.drop_last()) + (s.last() as int - '0' as int) as nat
    }
}

/// Whether a text consists of one or more decimal digits.
pub open spec fn all_digits(s: Seq<char>) -> bool {
    s.len() > 0 && forall|k: int| 0 <= k < s.len() ==> is_digit(#[trigger] s[k])
}

/// The digits of a number stand for that number.
pub proof fn decimal_value(n: nat)
    ensures
        all_digits(decimal(n)),
        digits_value(decimal(n)) == n,
    decreases n,
{
    let last = digit_char((n % 10) as int);
    assert(last as int == '0' as int + n % 10);
    if n < 10 {
        let s = decimal(n);
        assert(s =~= seq![digit_char(n as int)]);
        assert(s.drop_last() =~= Seq::<char>::empty());
        assert(digits_value(s.drop_last()) == 0);
    } else {
        decimal_value(n / 10);
        let s = decimal(n);
        assert(s.drop_last() =~= decimal(n / 10));
        assert(s.last() == last);
        assert forall|k: int| 0 <= k < s.len() implies is_digit(#[trigger] s[k]) by {
            if k < s.len() - 1 {
                assert(s[k] == decimal(n / 10)[k]);
            }
        }
    }
}

/// `n` in decimal digits, filled up with zeros in front to four digits.
pub open spec fn four_digits(n: nat) -> Seq<char> {
    if n < 10 {
        "000"@ + decimal(n)
    } else if n < 100 {
        "00"@ + decimal(n)
    } else if n < 1000 {
        "0"@ + decimal(n)
    } else {
        decimal(n)
    }
}

/// Appends `n` in at least four decimal digits.
pub fn push_four_digits(s: &mut String, n: u64)
    ensures
        final(s)@ == old(s)@ + four_digits(n as nat),
{
    if n < 10 {
        s.append("000");
    } else if n < 100 {
        s.append("00");
    } else if n < 1000 {
        s.append("0");
    }
    push_decimal(s, n);
    assert(s@ =~= old(s)@ + four_digits(n as nat));
}

} // verus!
