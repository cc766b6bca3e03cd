//! What the choices of a user mean: lists of types, and sizes.

use vstd::prelude::*;

use crate::filter::{active_among, listed_names, says_choice, unknown_among};
use crate::options::{chunks_are_whole_blocks, number_and_unit, scan_chunk, size_terms_of, units};
use crate::pieces::{
    after_prefix, before_suffix, is_digit, is_space, lowercase, lowered, trimmed, trimmed_end,
    trimmed_start,
};
use crate::plan_laws::{active_are_in_order, database_can_be_scanned};
use crate::signatures::{signature_table, type_names, type_names_listed, GB, KB, MB};
use crate::text::{all_digits, ascending, ascending_list_is_unique, digits_value, joined};
use crate::text_laws::{
    is_blank, prefixes_come_off, split_undoes_join, suffixes_come_off,
    trimming_takes_off_white_space,
};
use crate::whole_laws::entries_are_plain;

verus! {

// ---------------------------------------------------------------------------
// Types
// ---------------------------------------------------------------------------

/// The names in a list are those between its commas, whatever white space stands
/// around them, in lower case.
pub proof fn listed_names_are_read(
    fronts: Seq<Seq<char>>,
    names: Seq<Seq<char>>,
    backs: Seq<Seq<char>>,
    parts: Seq<Seq<char>>,
    k: int,
)
    requires
        parts.len() == names.len(),
        parts.len() == fronts.len(),
        parts.len() == backs.len(),
        forall|i: int|
            0 <= i < parts.len() ==> is_blank(#[trigger] fronts[i]) && is_blank(backs[i])
                && parts[i] == fronts[i] + names[i] + backs[i] && !parts[i].contains(','),
        forall|i: int|
            0 <= i < names.len() && (#[trigger] names[i]).len() > 0 ==> !is_space(names[i][0])
                && !is_space(names[i].last()),
        0 <= k < names.len(),
    ensures
        listed_names(joined(parts, seq![','])).len() == names.len(),
        listed_names(joined(parts, seq![',']))[k] == lowercase(names[k]),
{
    assert forall|i: int| 0 <= i < parts.len() implies !(#[trigger] parts[i]).contains(',') by {
        assert(is_blank(fronts[i]));
    }
    split_undoes_join(parts, ',');
    assert(is_blank(fronts[k]));
    assert(names[k].len() > 0 ==> !is_space(names[k][0]));
    trimming_takes_off_white_space(fronts[k], names[k], backs[k]);
}

/// The names in a list that are unknown are told in their order; the known ones
/// are those of the types.
pub proof fn unknown_names_are_told(a: Seq<Seq<char>>, b: Seq<Seq<char>>, name: Seq<char>)
    ensures
        unknown_among(a + b) == unknown_among(a) + unknown_among(b),
        unknown_among(seq![name]) == (if set![
            "jpg"@,
            "png"@,
            "pdf"@,
            "gif"@,
            "mp4"@,
            "mov"@,
            "zip"@,
            "docx"@,
            "xlsx"@,
            "pptx"@,
            "mp3"@,
            "wav"@,
            "sqlite"@,
            "bmp"@,
            "tiff"@,
            "rar"@,
            "7z"@,
            "gz"@,
            "bz2"@,
            "plist"@,
        ].contains(name) {
            Seq::empty()
        } else {
            seq![name]
        }),
    decreases b.len(),
{
    type_names_listed();
    let one = seq![name];
    assert(one.drop_last() =~= Seq::<Seq<char>>::empty());
    assert(one.last() == name);
    assert(unknown_among(one.drop_last()) =~= Seq::<Seq<char>>::empty());
    assert(Seq::<Seq<char>>::empty().push(name) =~= one);
    let all = a + b;
    if b.len() > 0 {
        assert(all.drop_last() =~= a + b.drop_last());
        assert(all.last() == b.last());
        unknown_names_are_told(a, b.drop_last(), name);
        assert(unknown_among(all) =~= unknown_among(a) + unknown_among(b));
    } else {
        assert(all =~= a);
        assert(unknown_among(all) =~= unknown_among(a) + unknown_among(b));
    }
}

/// The names of types are made of small letters and digits.
proof fn type_names_are_plain(name: Seq<char>, k: int)
    requires
        type_names().contains(name),
    ensures
        name.len() > 0,
        0 <= k < name.len() ==> 'a' as int <= name[k] as int <= 'z' as int || is_digit(name[k]),
{
    type_names_listed();
    reveal_strlit("jpg");
    reveal_strlit("png");
    reveal_strlit("pdf");
    reveal_strlit("gif");
    reveal_strlit("mp4");
    reveal_strlit("mov");
    reveal_strlit("zip");
    reveal_strlit("docx");
    reveal_strlit("xlsx");
    reveal_strlit("pptx");
    reveal_strlit("mp3");
    reveal_strlit("wav");
    reveal_strlit("sqlite");
    reveal_strlit("bmp");
    reveal_strlit("tiff");
    reveal_strlit("rar");
    reveal_strlit("7z");
    reveal_strlit("gz");
    reveal_strlit("bz2");
    reveal_strlit("plist");
    assert("jpg"@.len() == 3);
    assert("png"@.len() == 3);
    assert("pdf"@.len() == 3);
    assert("gif"@.len() == 3);
    assert("mp4"@.len() == 3);
    assert("mov"@.len() == 3);
    assert("zip"@.len() == 3);
    assert("docx"@.len() == 4);
    assert("xlsx"@.len() == 4);
    assert("pptx"@.len() == 4);
    assert("mp3"@.len() == 3);
    assert("wav"@.len() == 3);
    assert("sqlite"@.len() == 6);
    assert("bmp"@.len() == 3);
    assert("tiff"@.len() == 4);
    assert("rar"@.len() == 3);
    assert("7z"@.len() == 2);
    assert("gz"@.len() == 2);
    assert("bz2"@.len() == 3);
    assert("plist"@.len() == 5);
    if 0 <= k < name.len() {
        assert(k == 0 || k == 1 || k == 2 || k == 3 || k == 4 || k == 5);
    }
}

/// What is said of a choice of types, given as a list, is that choice again.
pub proof fn choices_can_be_read_back(f: Set<Seq<char>>, label: Seq<char>)
    requires
        says_choice(Some(f), label),
        f.subset_of(type_names()),
        f != Set::<Seq<char>>::empty(),
    ensures
        unknown_among(listed_names(label)).len() == 0,
        listed_names(label).to_set() == f,
        forall|other: Seq<char>| says_choice(Some(f), other) ==> other == label,
        forall|other: Seq<char>| says_choice(None, other) ==> other == "all"@,
{
    let names = choose|names: Seq<Seq<char>>|
        ascending(names) && names.to_set() == f && label == #[trigger] joined(names, ","@);
    reveal_strlit(",");
    assert(","@ =~= seq![',']);
    assert(names.len() > 0) by {
        if names.len() == 0 {
            assert(names.to_set() =~= Set::<Seq<char>>::empty());
        }
    }
    assert forall|i: int| 0 <= i < names.len() implies !(#[trigger] names[i]).contains(',')
        && lowercase(
        trimmed(names[i]),
    ) == names[i] by {
        let name = names[i];
        assert(names.to_set().contains(name));
        type_names_are_plain(name, 0);
        type_names_are_plain(name, name.len() - 1);
        if name.contains(',') {
            type_names_are_plain(name, name.index_of(','));
        }
        let none = Seq::<char>::empty();
        trimming_takes_off_white_space(none, name, none);
        assert(none + name + none =~= name);
        assert forall|k: int| 0 <= k < name.len() implies lowered(#[trigger] name[k])
            == name[k] by {
            type_names_are_plain(name, k);
        }
        assert(lowercase(name) =~= name);
    }
    split_undoes_join(names, ',');
    assert(listed_names(label) =~= names);
    all_known(names);
    assert forall|other: Seq<char>| says_choice(Some(f), other) implies other == label by {
        let again = choose|again: Seq<Seq<char>>|
            ascending(again) && again.to_set() == f && other == #[trigger] joined(again, ","@);
        ascending_list_is_unique(names, again);
    }
}

/// Among names of types none is unknown.
proof fn all_known(names: Seq<Seq<char>>)
    requires
        forall|i: int| 0 <= i < names.len() ==> type_names().contains(#[trigger] names[i]),
    ensures
        unknown_among(names).len() == 0,
    decreases names.len(),
{
    if names.len() > 0 {
        let rest = names.drop_last();
        assert forall|i: int| 0 <= i < rest.len() implies type_names().contains(
            #[trigger] rest[i],
        ) by {
            assert(rest[i] == names[i]);
        }
        all_known(rest);
        assert(names.last() == names[names.len() - 1]);
    }
}

/// The entries of the database that are scanned for are those that can lead to a
/// type that is wanted; without a choice, all.
pub proof fn wanted_entries_are_scanned_for(filter: Option<Set<Seq<char>>>, k: int)
    requires
        0 <= k < signature_table().len(),
    ensures
        filter is None ==> active_among(
            signature_table(),
            filter,
            signature_table().len() as int,
        ).contains(k as usize),
        filter matches Some(f) ==> (active_among(
            signature_table(),
            filter,
            signature_table().len() as int,
        ).contains(k as usize) <==> if signature_table()[k].header == seq![
            0x66u8,
            0x74,
            0x79,
            0x70,
        ] {
            f.contains("mp4"@) || f.contains("mov"@)
        } else if signature_table()[k].header == seq![0x50u8, 0x4B, 0x03, 0x04] {
            f.contains("zip"@) || f.contains("docx"@) || f.contains("xlsx"@) || f.contains(
                "pptx"@,
            )
        } else {
            f.contains(signature_table()[k].name)
        }),
{
    database_can_be_scanned(filter);
    entries_are_plain(k);
    reveal_strlit("zip");
    reveal_strlit("ftyp");
    assert("zip"@.len() == 3 && "ftyp"@.len() == 4);
    let table = signature_table();
    let boxes: Seq<u8> = seq![0x66, 0x74, 0x79, 0x70];
    let members: Seq<u8> = seq![0x50, 0x4B, 0x03, 0x04];
    assert(table[5].header =~= boxes);
    assert(table[6].header =~= members);
    assert(k != 5 ==> table[k].header != boxes) by {
        if k != 5 && table[k].header == boxes {
            assert(table[k].header[0] == 0x66);
        }
    }
    assert(k != 6 ==> table[k].header != members) by {
        if k != 6 && table[k].header == members {
            assert(table[k].header[0] == 0x50);
        }
    }
}

/// The entries that are scanned for stand in the order of the database, each once.
pub proof fn scanned_entries_stand_in_order(filter: Option<Set<Seq<char>>>, i: int, j: int)
    requires
        0 <= i < j < active_among(signature_table(), filter, signature_table().len() as int).len(),
    ensures
        active_among(signature_table(), filter, signature_table().len() as int)[i] < active_among(
            signature_table(),
            filter,
            signature_table().len() as int,
        )[j],
{
    active_are_in_order(signature_table(), filter, signature_table().len() as int);
}

// ---------------------------------------------------------------------------
// Sizes
// ---------------------------------------------------------------------------

/// Kilobytes, megabytes and gigabytes are counted by 1024.
pub proof fn units_are_counted_by_1024()
    ensures
        KB == 1024,
        MB == 1048576,
        GB == 1073741824,
{
}

/// Chunks are whole blocks, as many as 67108864 bytes hold, but at least one.
pub proof fn chunks_fill_64_megabytes(block: int)
    requires
        block > 0,
    ensures
        scan_chunk(block) % block == 0,
        block <= 67108864 ==> scan_chunk(block) <= 67108864 < scan_chunk(block) + block,
        block > 67108864 ==> scan_chunk(block) == block,
{
    chunks_are_whole_blocks(block);
}

/// Whether a text is a unit of `factor` bytes, in small or capital letters.
pub open spec fn is_unit(unit: Seq<char>, factor: u64) -> bool {
    let low = lowercase(unit);
    ||| factor == 1 && (low == ""@ || low == "b"@)
    ||| factor == 1024 && (low == "k"@ || low == "kb"@)
    ||| factor == 1048576 && (low == "m"@ || low == "mb"@)
    ||| factor == 1073741824 && (low == "g"@ || low == "gb"@)
}

/// The units in the table.
proof fn units_are_units(low: Seq<char>, factor: u64)
    ensures
        (low == ""@ && factor == 1 || exists|u: int|
            #![trigger units()[u]]
            0 <= u < 7 && units()[u] == (low, factor)) <==> {
            ||| factor == 1 && (low == ""@ || low == "b"@)
            ||| factor == 1024 && (low == "k"@ || low == "kb"@)
            ||| factor == 1048576 && (low == "m"@ || low == "mb"@)
            ||| factor == 1073741824 && (low == "g"@ || low == "gb"@)
        },
{
    reveal_strlit("");
    reveal_strlit("b");
    reveal_strlit("k");
    reveal_strlit("kb");
    reveal_strlit("m");
    reveal_strlit("mb");
    reveal_strlit("g");
    reveal_strlit("gb");
    assert(units()[0].0 =~= "kb"@ && units()[0].1 == 1024);
    assert(units()[1].0 =~= "mb"@ && units()[1].1 == 1048576);
    assert(units()[2].0 =~= "gb"@ && units()[2].1 == 1073741824);
    assert(units()[3].0 =~= "k"@ && units()[3].1 == 1024);
    assert(units()[4].0 =~= "m"@ && units()[4].1 == 1048576);
    assert(units()[5].0 =~= "g"@ && units()[5].1 == 1073741824);
    assert(units()[6].0 =~= "b"@ && units()[6].1 == 1);
}

/// What a size is taken for, once it is split: the first unit that it ends with.
proof fn split_off(s: Seq<char>, from: int)
    requires
        0 <= from <= 7,
    ensures
        ({
            let (t, factor) = number_and_unit(s, from);
            ||| t == s && factor == 1
            ||| exists|u: int|
                #![trigger units()[u]]
                from <= u < 7 && s == t + units()[u].0 && factor == units()[u].1
        }),
    decreases 7 - from,
{
    if from < 7 {
        let t = number_and_unit(s, from).0;
        match before_suffix(s, units()[from].0) {
            Some(x) => {
                suffixes_come_off(s, units()[from].0, x);
                assert(s == t + units()[from].0);
            },
            None => {
                split_off(s, from + 1);
            },
        }
    }
}

/// A number of up to 64 bits with a unit behind it, with or without a plus sign
/// in front and white space around number and size, is read as that number of
/// units.
pub proof fn sizes_are_read(
    a: Seq<char>,
    plus: bool,
    digits: Seq<char>,
    b: Seq<char>,
    unit: Seq<char>,
    c: Seq<char>,
    factor: u64,
)
    requires
        is_blank(a),
        is_blank(b),
        is_blank(c),
        all_digits(digits),
        digits_value(digits) <= u64::MAX,
        is_unit(unit, factor),
    ensures
        size_terms_of(
            a + (if plus {
                seq!['+']
            } else {
                Seq::empty()
            }) + digits + b + unit + c,
        ) == Some((digits_value(digits) as u64, factor)),
{
    let sign = if plus {
        seq!['+']
    } else {
        Seq::<char>::empty()
    };
    let none = Seq::<char>::empty();
    let number_part = sign + digits;
    let whole = a + sign + digits + b + unit + c;
    let low = lowercase(unit);
    assert(number_part[0] == (if plus {
        '+'
    } else {
        digits[0]
    }));
    assert(number_part.last() == digits[digits.len() - 1]);
    assert(is_digit(digits[0]) && is_digit(digits[digits.len() - 1]));
    units_are_units(low, factor);
    reveal_strlit("");
    // White space around the size.
    let inner = number_part + (if unit.len() > 0 {
        b + unit
    } else {
        none
    });
    let tail = if unit.len() > 0 {
        c
    } else {
        b + c
    };
    assert(whole =~= a + inner + tail);
    if unit.len() > 0 {
        let u = choose|u: int|
            #![trigger units()[u]]
            0 <= u < 7 && units()[u] == (low, factor);
        assert(low[low.len() - 1] == units()[u].0[low.len() - 1]);
        assert(inner.last() == unit.last());
        assert(low[low.len() - 1] == lowered(unit[unit.len() - 1]));
        assert(!is_space(unit[unit.len() - 1]));
    } else {
        assert(inner =~= number_part);
        assert(low =~= none);
    }
    assert(inner[0] == number_part[0]);
    trimming_takes_off_white_space(a, inner, tail);
    // Lower case.
    let small = lowercase(inner);
    assert forall|k: int| 0 <= k < number_part.len() implies lowered(number_part[k])
        == number_part[k] by {
        if k >= sign.len() {
            assert(is_digit(digits[k - sign.len()]));
        }
    }
    let middle = lowercase(if unit.len() > 0 {
        b
    } else {
        none
    });
    assert(small =~= number_part + middle + low);
    assert forall|k: int| 0 <= k < middle.len() implies is_space(#[trigger] middle[k]) by {
        assert(is_space(b[k]));
    }
    // The unit.
    unit_comes_off(number_part + middle, low, factor);
    assert(none + number_part + middle =~= number_part + middle);
    trimming_takes_off_white_space(none, number_part, middle);
    // The number.
    let p = seq!['+'];
    if plus {
        prefixes_come_off(number_part, p, digits);
    } else {
        assert(number_part =~= digits);
        if p.is_prefix_of(digits) {
            assert(p[0] == digits[0]);
        }
    }
}

/// A unit comes off behind a number and white space.
proof fn unit_comes_off(t: Seq<char>, low: Seq<char>, factor: u64)
    requires
        t.len() > 0,
        is_digit(t.last()) || is_space(t.last()),
        low == ""@ && factor == 1 || exists|u: int|
            #![trigger units()[u]]
            0 <= u < 7 && units()[u] == (low, factor),
    ensures
        number_and_unit(t + low, 0) == (t, factor),
{
    reveal_strlit("");
    let s = t + low;
    let u: int = if low.len() == 0 {
        7
    } else {
        choose|u: int|
            #![trigger units()[u]]
            0 <= u < 7 && units()[u] == (low, factor)
    };
    let last = s[s.len() - 1];
    let end = t[t.len() - 1];
    assert(low.len() > 0 ==> last == low[low.len() - 1]);
    assert(low.len() == 1 ==> s[s.len() - 2] == end);
    assert(low.len() == 0 ==> s =~= t);
    assert forall|v: int| 0 <= v < u implies before_suffix(s, #[trigger] units()[v].0) is None by {
        let other = units()[v].0;
        if other.is_suffix_of(s) {
            let part = s.subrange(s.len() - other.len(), s.len() as int);
            assert(part[other.len() - 1] == last);
            assert(other.len() == 2 ==> part[0] == s[s.len() - 2]);
        }
    }
    if u < 7 {
        suffixes_come_off(s, units()[u].0, t);
    }
    skipped_units(s, 0, u);
}

/// Units that a size does not end with are passed over.
proof fn skipped_units(s: Seq<char>, from: int, u: int)
    requires
        0 <= from <= u <= 7,
        forall|v: int| from <= v < u ==> before_suffix(s, #[trigger] units()[v].0) is None,
    ensures
        number_and_unit(s, from) == number_and_unit(s, u),
    decreases u - from,
{
    if from < u {
        assert(before_suffix(s, units()[from].0) is None);
        skipped_units(s, from + 1, u);
    }
}

/// What a size is made of.
pub struct SizeParts {
    pub front: Seq<char>,
    pub plus: bool,
    pub digits: Seq<char>,
    pub gap: Seq<char>,
    pub unit: Seq<char>,
    pub back: Seq<char>,
}

/// Nothing else is read as a size: what is, is a number with a unit behind it,
/// with or without a plus sign in front and white space around number and size.
pub proof fn only_sizes_are_read(s: Seq<char>, n: u64, factor: u64) -> (parts: SizeParts)
    requires
        size_terms_of(s) == Some((n, factor)),
    ensures
        s == parts.front + (if parts.plus {
            seq!['+']
        } else {
            Seq::empty()
        }) + parts.digits + parts.gap + parts.unit + parts.back,
        is_blank(parts.front),
        is_blank(parts.gap),
        is_blank(parts.back),
        all_digits(parts.digits),
        digits_value(parts.digits) == n,
        is_unit(parts.unit, factor),
{
    let (front, back) = around_trimmed(s);
    let inner = trimmed(s);
    let low = lowercase(inner);
    let (t, f) = number_and_unit(low, 0);
    split_off(low, 0);
    reveal_strlit("");
    let unit_low = if t == low && f == 1 {
        Seq::<char>::empty()
    } else {
        let u = choose|u: int|
            #![trigger units()[u]]
            0 <= u < 7 && low == t + units()[u].0 && f == units()[u].1;
        units()[u].0
    };
    assert(""@ =~= Seq::<char>::empty());
    units_are_units(unit_low, factor);
    assert(low =~= t + unit_low);
    let at = t.len() as int;
    let head = inner.take(at);
    let unit = inner.skip(at);
    assert forall|k: int| 0 <= k < inner.len() implies #[trigger] low[k] == lowered(inner[k]) by {}
    assert(low.len() == inner.len());
    assert forall|k: int| 0 <= k < at implies lowered(head[k]) == #[trigger] t[k] by {
        assert(low[k] == t[k]);
    }
    assert forall|k: int| 0 <= k < unit.len()
        implies lowered(unit[k]) == #[trigger] unit_low[k] by {
        assert(low[at + k] == unit_low[k]);
    }
    assert(lowercase(head) =~= t);
    assert(lowercase(unit) =~= unit_low);
    assert(inner =~= head + unit);
    // The number.
    let (before_number, gap) = around_trimmed(t);
    let m = trimmed(t);
    let a = before_number.len() as int;
    let b = a + m.len();
    assert(t =~= before_number + m + gap);
    let p = seq!['+'];
    let plus = after_prefix(m, p) is Some;
    let digits = if plus {
        after_prefix(m, p)->0
    } else {
        m
    };
    if plus {
        prefixes_come_off(m, p, digits);
    }
    let sign = if plus {
        p
    } else {
        Seq::<char>::empty()
    };
    assert(m =~= sign + digits);
    // Lower case has changed no more than the unit.
    assert forall|k: int| 0 <= k < at implies head[k] == #[trigger] t[k] by {
        assert(t[k] == lowered(head[k]));
        if k < a {
            assert(t[k] == before_number[k]);
            assert(is_space(before_number[k]));
        } else if k < b {
            assert(t[k] == m[k - a]);
            if k - a >= sign.len() {
                assert(m[k - a] == digits[k - a - sign.len()]);
                assert(is_digit(digits[k - a - sign.len()]));
            } else {
                assert(m[k - a] == '+');
            }
        } else {
            assert(t[k] == gap[k - b]);
            assert(is_space(gap[k - b]));
        }
    }
    assert(head =~= t);
    let parts = SizeParts { front: front + before_number, plus, digits, gap, unit, back };
    assert(s =~= parts.front + sign + parts.digits + parts.gap + parts.unit + parts.back);
    parts
}

/// A text is its trimmed form with white space around it.
proof fn around_trimmed(s: Seq<char>) -> (around: (Seq<char>, Seq<char>))
    ensures
        s == around.0 + trimmed(s) + around.1,
        is_blank(around.0),
        is_blank(around.1),
{
    let a = before_trimmed(s);
    let t = trimmed_start(s);
    let b = after_trimmed(t);
    assert(s =~= a + trimmed(s) + b);
    (a, b)
}

/// What trimming takes off in front is white space.
proof fn before_trimmed(s: Seq<char>) -> (a: Seq<char>)
    ensures
        s == a + trimmed_start(s),
        is_blank(a),
    decreases s.len(),
{
    if s.len() > 0 && is_space(s[0]) {
        let rest = s.drop_first();
        let a = before_trimmed(rest);
        let all = seq![s[0]] + a;
        assert(s =~= seq![s[0]] + rest);
        assert(rest =~= a + trimmed_start(rest));
        assert(s =~= all + trimmed_start(s));
        all
    } else {
        let a = Seq::<char>::empty();
        assert(s =~= a + s);
        a
    }
}

/// What trimming takes off at the end is white space.
proof fn after_trimmed(s: Seq<char>) -> (b: Seq<char>)
    ensures
        s == trimmed_end(s) + b,
        is_blank(b),
    decreases s.len(),
{
    if s.len() > 0 && is_space(s.last()) {
        let rest = s.drop_last();
        let b = after_trimmed(rest);
        let all = b.push(s.last());
        assert(s =~= rest.push(s.last()));
        assert(rest =~= trimmed_end(rest) + b);
        assert(s =~= trimmed_end(s) + all);
        all
    } else {
        let b = Seq::<char>::empty();
        assert(s =~= s + b);
        b
    }
}

} // verus!
