//! Which files are taken for a burst by their names, and what maker notes say.

use crate::metadata::{
    are_sequential, by_text, decimal, digits_start, find_from, firsts, has_header, is_digit,
    lemma_last_run, lemma_members, lemma_runs, note_facts, runs_are_sequential, scan, Listing,
    PixelShiftPattern,
};
use crate::order::{arranged, arranged_is_ascending, arranged_keeps_items};
use crate::text::{lex_is_total, lex_is_transitive};
use vstd::prelude::*;
use vstd::utf8::{encode_utf8, is_ascii_chars_encode_utf8};

verus! {

/// The number that decimal digits make.
pub open spec fn number_of(digits: Seq<int>) -> int
    decreases digits.len(),
{
    if digits.len() == 0 {
        0
    } else {
        10 * number_of(digits.drop_last()) + digits.last()
    }
}

/// Whether all are decimal digits.
pub open spec fn are_digits(digits: Seq<int>) -> bool {
    forall|i: int| 0 <= i < digits.len() ==> 0 <= #[trigger] digits[i] <= 9
}

/// A stem that ends in a number.
pub open spec fn numbered_stem(name: Seq<char>, digits: Seq<int>) -> Seq<char> {
    name + Seq::new(digits.len(), |i: int| ('0' as int + digits[i]) as char)
}

proof fn lemma_numbered_stem(name: Seq<char>, digits: Seq<int>)
    requires
        are_digits(digits),
        name.len() == 0 || !is_digit(name.last()),
    ensures
        digits_start(numbered_stem(name, digits)) == name.len(),
        decimal(numbered_stem(name, digits).skip(name.len() as int)) == number_of(digits),
        numbered_stem(name, digits).take(name.len() as int) == name,
    decreases digits.len(),
{
    let s = numbered_stem(name, digits);
    assert(s.take(name.len() as int) =~= name);
    if digits.len() == 0 {
        assert(s =~= name);
        assert(s.skip(name.len() as int) =~= Seq::<char>::empty());
    } else {
        let d = digits.drop_last();
        assert forall|i: int| 0 <= i < d.len() implies 0 <= #[trigger] d[i] <= 9 by {
            assert(d[i] == digits[i]);
        }
        lemma_numbered_stem(name, d);
        let last = digits[digits.len() - 1];
        assert(digits.last() == last && 0 <= last <= 9);
        assert(s.last() == ('0' as int + last) as char);
        assert(is_digit(s.last()));
        assert(s.drop_last() =~= numbered_stem(name, d));
        let t = s.skip(name.len() as int);
        assert(t.drop_last() =~= numbered_stem(name, d).skip(name.len() as int));
        assert(t.last() == s.last());
    }
}

/// Two stems that end in numbers are sequential exactly if they are the same before their numbers, and
/// the numbers differ by one.
pub proof fn next_numbers_are_sequential(
    name: Seq<char>,
    digits: Seq<int>,
    other_name: Seq<char>,
    other_digits: Seq<int>,
)
    requires
        are_digits(digits),
        are_digits(other_digits),
        digits.len() > 0,
        other_digits.len() > 0,
        name.len() == 0 || !is_digit(name.last()),
        other_name.len() == 0 || !is_digit(other_name.last()),
        number_of(digits) <= u32::MAX,
        number_of(other_digits) <= u32::MAX,
    ensures
        are_sequential(numbered_stem(name, digits), numbered_stem(other_name, other_digits)) <==> name
            == other_name && (number_of(digits) - number_of(other_digits) == 1 || number_of(
            other_digits,
        ) - number_of(digits) == 1),
{
    lemma_numbered_stem(name, digits);
    lemma_numbered_stem(other_name, other_digits);
}

/// Stems without a number at their end are not sequential with any.
pub proof fn unnumbered_stems_are_not_sequential(a: Seq<char>, b: Seq<char>)
    requires
        a.len() == 0 || !is_digit(a.last()),
    ensures
        !are_sequential(a, b),
        !are_sequential(b, a),
{
}

/// Whether `needle` stands in `data` at `i`.
pub open spec fn stands_at(data: Seq<u8>, needle: Seq<u8>, i: int) -> bool {
    &&& 0 <= i
    &&& i + needle.len() <= data.len()
    &&& forall|k: int| 0 <= k < needle.len() ==> #[trigger] needle[k] == data[i + k]
}

proof fn lemma_found(data: Seq<u8>, needle: Seq<u8>, from: int)
    requires
        0 <= from,
    ensures
        match find_from(data, needle, from) {
            Some(i) => from <= i && stands_at(data, needle, i) && forall|j: int|
                from <= j < i ==> !#[trigger] stands_at(data, needle, j),
            None => forall|j: int| from <= j ==> !#[trigger] stands_at(data, needle, j),
        },
    decreases data.len() + 1 - from,
{
    if from + needle.len() <= data.len() {
        let here = data.subrange(from, from + needle.len());
        if here == needle {
            assert forall|k: int| 0 <= k < needle.len() implies #[trigger] needle[k] == data[from
                + k] by {
                assert(here[k] == data[from + k]);
            }
        } else {
            if stands_at(data, needle, from) {
                assert(here =~= needle);
            }
            lemma_found(data, needle, from + 1);
        }
    }
}

/// A search finds the first place where a marker stands, and nothing exactly where it stands nowhere.
pub proof fn searches_find_the_first_place(data: Seq<u8>, needle: Seq<u8>)
    ensures
        match find_from(data, needle, 0) {
            Some(i) => stands_at(data, needle, i) && forall|j: int|
                j < i ==> !#[trigger] stands_at(data, needle, j),
            None => forall|j: int| !#[trigger] stands_at(data, needle, j),
        },
{
    lemma_found(data, needle, 0);
}

/// What stands behind the first marker tells a burst: whether it is active eleven bytes on, the number of
/// shots in the next byte and the number of the frame in the one behind, if the note goes on for twenty
/// bytes and is active or counts shots. Only bursts of four, eight, sixteen and thirty-two shots have a
/// pattern.
pub proof fn marked_notes_tell_their_burst(data: Seq<u8>, i: int)
    requires
        stands_at(data, encode_utf8("PixelShift"@), i),
        forall|j: int| j < i ==> !#[trigger] stands_at(data, encode_utf8("PixelShift"@), j),
        i + 20 < data.len(),
        data[i + 11] == 1 || data[i + 12] > 0,
    ensures
        scan(data) matches Some(facts) && {
            let shots = data[i + 12];
            &&& facts.is_pixel_shift == (data[i + 11] == 1)
            &&& facts.sequence_number == Some(data[i + 13] as u16)
            &&& facts.total_frames == (if shots == 4 || shots == 8 || shots == 16 || shots == 32 {
                Some(shots as u16)
            } else {
                None
            })
            &&& facts.pattern == (match shots {
                4u8 => Some(PixelShiftPattern::FourShot),
                8u8 => Some(PixelShiftPattern::EightShot),
                16u8 => Some(PixelShiftPattern::SixteenShot),
                32u8 => Some(PixelShiftPattern::ThirtyTwoShot),
                _ => None,
            })
        },
{
    let needle = encode_utf8("PixelShift"@);
    searches_find_the_first_place(data, needle);
    match find_from(data, needle, 0) {
        Some(k) => {
            assert(k == i) by {
                if k < i {
                    assert(!stands_at(data, needle, k));
                }
            }
        },
        None => {
            assert(!stands_at(data, needle, i));
        },
    }
}

/// A note without either marker tells nothing.
pub proof fn unmarked_notes_tell_nothing(data: Seq<u8>)
    requires
        forall|j: int| !#[trigger] stands_at(data, encode_utf8("PixelShift"@), j),
        forall|j: int| !#[trigger] stands_at(data, encode_utf8("NIKON PIXEL SHIFT"@), j),
    ensures
        scan(data) is None,
{
    let (a, b) = (encode_utf8("PixelShift"@), encode_utf8("NIKON PIXEL SHIFT"@));
    searches_find_the_first_place(data, a);
    searches_find_the_first_place(data, b);
    if let Some(i) = find_from(data, a, 0) {
        assert(!stands_at(data, a, i));
    }
    if let Some(i) = find_from(data, b, 0) {
        assert(!stands_at(data, b, i));
    }
}

/// The header of a maker note is skipped: behind the name of the maker and one more byte, a note tells
/// what stands there. Short notes without a header tell nothing, longer ones what they hold.
pub proof fn headers_are_skipped(filler: u8, rest: Seq<u8>, bare: Seq<u8>)
    requires
        rest.len() > 0,
        !stands_at(bare, encode_utf8("Nikon"@), 0),
    ensures
        note_facts(Some(encode_utf8("Nikon"@) + seq![filler] + rest)) == scan(rest),
        bare.len() > 100 ==> note_facts(Some(bare)) == scan(bare),
        bare.len() <= 100 ==> note_facts(Some(bare)) is None,
        note_facts(None) is None,
{
    let header = encode_utf8("Nikon"@);
    reveal_strlit("Nikon");
    is_ascii_chars_encode_utf8("Nikon"@);
    assert(header.len() == 5);
    let note = header + seq![filler] + rest;
    assert(note.subrange(0, 5) =~= header);
    assert(note.subrange(6, note.len() as int) =~= rest);
    if has_header(bare) {
        let start = bare.subrange(0, 5);
        assert forall|k: int| 0 <= k < header.len() implies #[trigger] header[k] == bare[0 + k] by {
            assert(start[k] == bare[k]);
        }
    }
}

/// Whether two files stand one after the other in a run.
pub open spec fn are_neighbours(run: Seq<usize>, a: usize, b: usize) -> bool {
    exists|j: int| 0 < j < run.len() && run[j - 1] == a && #[trigger] run[j] == b
}

proof fn lemma_linked(l: Listing, s: Seq<usize>, k: int) -> (i: int)
    requires
        0 < k < s.len(),
        are_sequential(l.stems[s[k - 1] as int], l.stems[s[k] as int]),
    ensures
        0 <= i < l.runs(s).len(),
        are_neighbours(l.runs(s)[i], s[k - 1], s[k]),
    decreases s.len(),
{
    let d = s.drop_last();
    let before = l.runs(d);
    lemma_runs(l, d);
    lemma_last_run(l, d);
    if k == s.len() - 1 {
        let run = before.last().push(s.last());
        let i = before.len() - 1;
        assert(l.runs(s)[i] == run);
        let j = run.len() - 1;
        assert(run[j - 1] == s[k - 1] && run[j] == s[k]);
        i
    } else {
        assert(d[k - 1] == s[k - 1] && d[k] == s[k]);
        let i = lemma_linked(l, d, k);
        let j = choose|j: int|
            0 < j < before[i].len() && before[i][j - 1] == s[k - 1] && #[trigger] before[i][j] == s[k];
        assert(l.runs(s)[i][j - 1] == s[k - 1] && l.runs(s)[i][j] == s[k]);
        i
    }
}

proof fn lemma_run_is_burst(l: Listing, runs: Seq<Seq<usize>>, i: int) -> (b: int)
    requires
        0 <= i < runs.len(),
        runs[i].len() >= 2,
    ensures
        0 <= b < l.bursts_of(runs).len(),
        l.bursts_of(runs)[b].members == runs[i],
        l.follows_first(l.bursts_of(runs)[b]),
    decreases runs.len(),
{
    let d = runs.drop_last();
    if i == runs.len() - 1 {
        l.bursts_of(d).len() as int
    } else {
        assert(d[i] == runs[i]);
        let b = lemma_run_is_burst(l, d, i);
        assert(l.bursts_of(runs)[b] == l.bursts_of(d)[b]);
        b
    }
}

proof fn lemma_burst_is_run(l: Listing, runs: Seq<Seq<usize>>, b: int) -> (i: int)
    requires
        0 <= b < l.bursts_of(runs).len(),
    ensures
        0 <= i < runs.len(),
        runs[i].len() >= 2,
        l.bursts_of(runs)[b].members == runs[i],
    decreases runs.len(),
{
    let d = runs.drop_last();
    if b < l.bursts_of(d).len() {
        let i = lemma_burst_is_run(l, d, b);
        assert(d[i] == runs[i]);
        i
    } else {
        runs.len() - 1
    }
}

proof fn lemma_in_numbered(l: Listing, n: nat, t: int, b: int) -> (c: int)
    requires
        0 <= t < n,
        0 <= b < l.bursts_of(l.runs(l.in_order(l.dir_order()[t]))).len(),
    ensures
        0 <= c < l.numbered(n).len(),
        l.numbered(n)[c] == l.bursts_of(l.runs(l.in_order(l.dir_order()[t])))[b],
    decreases n,
{
    let before = l.numbered((n - 1) as nat);
    if t == n - 1 {
        before.len() + b
    } else {
        lemma_in_numbered(l, (n - 1) as nat, t, b)
    }
}

proof fn lemma_from_numbered(l: Listing, n: nat, c: int) -> (at: (int, int))
    requires
        0 <= c < l.numbered(n).len(),
    ensures
        0 <= at.0 < n,
        0 <= at.1 < l.bursts_of(l.runs(l.in_order(l.dir_order()[at.0]))).len(),
        l.numbered(n)[c] == l.bursts_of(l.runs(l.in_order(l.dir_order()[at.0])))[at.1],
    decreases n,
{
    let before = l.numbered((n - 1) as nat);
    if c < before.len() {
        lemma_from_numbered(l, (n - 1) as nat, c)
    } else {
        (n - 1, c - before.len())
    }
}

proof fn lemma_has_first(keys: Seq<Seq<char>>, n: nat, p: int) -> (i: int)
    requires
        0 <= p < n <= keys.len(),
        keys.len() <= usize::MAX,
    ensures
        0 <= i < firsts(keys, n).len(),
        keys[firsts(keys, n)[i] as int] == keys[p],
    decreases n,
{
    let before = firsts(keys, (n - 1) as nat);
    if p < n - 1 {
        let i = lemma_has_first(keys, (n - 1) as nat, p);
        assert(firsts(keys, n)[i] == before[i]);
        i
    } else if exists|j: int| 0 <= j < n - 1 && #[trigger] keys[j] == keys[n - 1] {
        let j = choose|j: int| 0 <= j < n - 1 && #[trigger] keys[j] == keys[n - 1];
        lemma_has_first(keys, (n - 1) as nat, j)
    } else {
        before.len() as int
    }
}

proof fn lemma_dir_is_visited(l: Listing, p: usize) -> (t: int)
    requires
        l.wf(),
        p < l.paths.len(),
    ensures
        0 <= t < l.dir_order().len(),
        l.dirs[l.dir_order()[t] as int] == l.dirs[p as int],
        l.in_order(l.dir_order()[t]) == l.in_order(p),
{
    broadcast use vstd::seq_lib::group_to_multiset_ensures;

    let n = l.dirs.len();
    let list = firsts(l.dirs, n);
    let i = lemma_has_first(l.dirs, n, p as int);
    let leq = by_text(l.dirs);
    assert forall|a: usize, b: usize| #[trigger] leq(a, b) || leq(b, a) by {
        lex_is_total(l.dirs[a as int], l.dirs[b as int]);
    }
    assert forall|a: usize, b: usize, c: usize| #[trigger] leq(a, b) && #[trigger] leq(
        b,
        c,
    ) implies leq(a, c) by {
        lex_is_transitive(l.dirs[a as int], l.dirs[b as int], l.dirs[c as int]);
    }
    arranged_is_ascending(list, leq);
    let order = arranged(list, leq);
    assert(list.contains(list[i]));
    assert(list.to_multiset().count(list[i]) > 0);
    assert(order.contains(list[i]));
    let t = choose|t: int| 0 <= t < order.len() && order[t] == list[i];
    t
}

/// Two files of one directory that stand one after the other in the order of their paths, and are
/// numbered one after the other, are neighbours in a burst, which says what the metadata of its first
/// file does.
pub proof fn numbered_neighbours_share_a_burst(l: Listing, p: usize, k: int)
    requires
        l.wf(),
        p < l.paths.len(),
        0 < k < l.in_order(p).len(),
        are_sequential(
            l.stems[l.in_order(p)[k - 1] as int],
            l.stems[l.in_order(p)[k] as int],
        ),
    ensures
        exists|b: int|
            0 <= b < l.bursts().len() && are_neighbours(
                (#[trigger] l.bursts()[b]).members,
                l.in_order(p)[k - 1],
                l.in_order(p)[k],
            ) && l.follows_first(l.bursts()[b]),
{
    let s = l.in_order(p);
    let n = l.dir_order().len();
    let i = lemma_linked(l, s, k);
    let runs = l.runs(s);
    assert(runs[i].len() >= 2) by {
        let j = choose|j: int|
            0 < j < runs[i].len() && runs[i][j - 1] == s[k - 1] && #[trigger] runs[i][j] == s[k];
    }
    let t = lemma_dir_is_visited(l, p);
    let b = lemma_run_is_burst(l, runs, i);
    let c = lemma_in_numbered(l, n, t, b);
    assert(l.bursts() == l.numbered(n));
    assert(are_neighbours(l.bursts()[c].members, s[k - 1], s[k]));
}

/// Where files are numbered one after the other, bursts hold nothing else: neighbours in a burst stand
/// in one directory and are numbered one after the other.
pub proof fn bursts_hold_numbered_neighbours(l: Listing, b: int, j: int)
    requires
        l.wf(),
        l.numbered(l.dir_order().len()).len() > 0,
        0 <= b < l.bursts().len(),
        0 < j < l.bursts()[b].members.len(),
    ensures
        ({
            let (first, second) = (l.bursts()[b].members[j - 1], l.bursts()[b].members[j]);
            &&& are_sequential(l.stems[first as int], l.stems[second as int])
            &&& l.dirs[first as int] == l.dirs[second as int]
        }),
{
    let n = l.dir_order().len();
    let (t, c) = lemma_from_numbered(l, n, b);
    let p = l.dir_order()[t];
    let s = l.in_order(p);
    let runs = l.runs(s);
    let i = lemma_burst_is_run(l, runs, c);
    runs_are_sequential(l, s, i, j);
    lemma_runs(l, s);
    lemma_members(l.dirs, l.dirs[p as int], l.dirs.len());
    arranged_keeps_items(l.in_dir(p), by_text(l.paths));
    assert forall|x: usize| s.contains(x) implies l.dirs[x as int] == l.dirs[p as int] by {
        let y = choose|y: int| 0 <= y < s.len() && s[y] == x;
        assert(l.in_dir(p).contains(s[y]));
        let z = choose|z: int| 0 <= z < l.in_dir(p).len() && l.in_dir(p)[z] == x;
        assert(l.dirs[l.in_dir(p)[z] as int] == l.dirs[p as int]);
    }
    assert(s.contains(runs[i][j - 1]) && s.contains(runs[i][j]));
}

} // verus!
