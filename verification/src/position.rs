//! Byte positions in UTF-8 source text, computed from its characters.
use vstd::prelude::*;

use crate::text::{
    find_char, lines,
    before_char, before_char_exec, lemma_find_char, lemma_trim_end_is_prefix,
    lemma_trim_start_is_suffix, leading_ws, slice_of, strip_cr, strip_cr_exec, trim_end,
    trim_end_index, trim_start, trim_start_index,
};

verus! {

/// The number of bytes UTF-8 uses for `c` (`char::len_utf8`).
pub open spec fn char_width(c: char) -> nat {
    let x = c as u32;
    if x < 0x80 {
        1
    } else if x < 0x800 {
        2
    } else if x < 0x10000 {
        3
    } else {
        4
    }
}

/// The UTF-8 length in bytes of a character sequence (`str::len`).
pub open spec fn utf8_len(s: Seq<char>) -> nat
    decreases s.len(),
{
    if s.len() == 0 {
        0
    } else {
        utf8_len(s.drop_last()) + char_width(s.last())
    }
}

pub fn char_width_exec(c: char) -> (r: usize)
    ensures
        r == char_width(c),
{
    let x = c as u32;
    if x < 0x80 {
        1
    } else if x < 0x800 {
        2
    } else if x < 0x10000 {
        3
    } else {
        4
    }
}

pub proof fn lemma_utf8_len_add(a: Seq<char>, b: Seq<char>)
    ensures
        utf8_len(a + b) == utf8_len(a) + utf8_len(b),
    decreases b.len(),
{
    if b.len() == 0 {
        assert(a + b =~= a);
    } else {
        lemma_utf8_len_add(a, b.drop_last());
        assert((a + b).drop_last() =~= a + b.drop_last());
    }
}

pub proof fn lemma_utf8_len_bounds(s: Seq<char>)
    ensures
        s.len() <= utf8_len(s) <= 4 * s.len(),
    decreases s.len(),
{
    if s.len() > 0 {
        lemma_utf8_len_bounds(s.drop_last());
    }
}

/// A piece of `s` is no longer in bytes than `s`.
pub proof fn lemma_utf8_len_subrange(s: Seq<char>, a: int, b: int)
    requires
        0 <= a <= b <= s.len(),
    ensures
        utf8_len(s.subrange(a, b)) <= utf8_len(s),
        utf8_len(s.take(a)) + utf8_len(s.subrange(a, b)) + utf8_len(s.skip(b)) == utf8_len(s),
{
    lemma_utf8_len_add(s.take(a), s.subrange(a, b));
    lemma_utf8_len_add(s.take(a) + s.subrange(a, b), s.skip(b));
    assert(s.take(a) + s.subrange(a, b) + s.skip(b) =~= s);
}

/// The UTF-8 length of `s[0..n)`, for a text whose length fits in `u32`.
pub fn utf8_len_prefix(s: &[char], n: usize) -> (r: usize)
    requires
        n <= s@.len(),
        utf8_len(s@) <= usize::MAX,
    ensures
        r == utf8_len(s@.take(n as int)),
{
    let mut acc: usize = 0;
    let mut i: usize = 0;
    while i < n
        invariant
            i <= n <= s@.len(),
            utf8_len(s@) <= usize::MAX,
            acc == utf8_len(s@.take(i as int)),
        decreases n - i,
    {
        proof {
            assert(s@.take(i + 1).drop_last() =~= s@.take(i as int));
            lemma_utf8_len_subrange(s@, 0, i + 1);
            assert(s@.subrange(0, i + 1) =~= s@.take(i + 1));
        }
        acc = acc + char_width_exec(s[i]);
        i += 1;
    }
    acc
}

/// The number of `'\n'` in `s[0..i)`.
pub open spec fn newlines_before(s: Seq<char>, i: int) -> nat
    decreases i,
{
    if i <= 0 {
        0
    } else {
        newlines_before(s, i - 1) + if s[i - 1] == '\n' {
            1nat
        } else {
            0nat
        }
    }
}

/// The first character index below `n` that lies on 1-based line `target`.
pub open spec fn first_on_line_below(s: Seq<char>, target: int, n: int) -> Option<int>
    decreases n,
{
    if n <= 0 {
        None
    } else {
        match first_on_line_below(s, target, n - 1) {
            Some(i) => Some(i),
            None => if newlines_before(s, n - 1) + 1 == target {
                Some(n - 1)
            } else {
                None
            },
        }
    }
}

/// The byte offset of the first character of 1-based line `target`; the byte
/// length of `s` when no character lies on that line.
pub open spec fn line_byte_offset(s: Seq<char>, target: int) -> nat {
    match first_on_line_below(s, target, s.len() as int) {
        Some(i) => utf8_len(s.take(i)),
        None => utf8_len(s),
    }
}

proof fn lemma_first_on_line_none(s: Seq<char>, target: int, n: int)
    requires
        0 <= n <= s.len(),
    ensures
        first_on_line_below(s, target, n) is None <==> forall|j: int|
            0 <= j < n ==> newlines_before(s, j) + 1 != target,
    decreases n,
{
    if n > 0 {
        lemma_first_on_line_none(s, target, n - 1);
    }
}

proof fn lemma_first_on_line_mono(s: Seq<char>, target: int, n: int, m: int)
    requires
        0 <= n <= m <= s.len(),
        first_on_line_below(s, target, n) is Some,
    ensures
        first_on_line_below(s, target, m) == first_on_line_below(s, target, n),
    decreases m - n,
{
    if m > n {
        lemma_first_on_line_mono(s, target, n, m - 1);
    }
}

/// `line_to_byte_offset`: the byte offset at which 1-based line `target` starts.
pub fn line_to_byte_offset(source: &[char], target_line: usize) -> (r: u32)
    requires
        utf8_len(source@) <= u32::MAX,
    ensures
        r == line_byte_offset(source@, target_line as int),
{
    let mut current_line: u64 = 1;
    let mut byte_idx: usize = 0;
    let mut i: usize = 0;
    proof {
        lemma_utf8_len_bounds(source@);
    }
    while i < source.len()
        invariant
            i <= source@.len(),
            source@.len() <= u32::MAX,
            utf8_len(source@) <= u32::MAX,
            byte_idx == utf8_len(source@.take(i as int)),
            current_line == newlines_before(source@, i as int) + 1,
            current_line <= i + 1,
            forall|j: int| 0 <= j < i ==> newlines_before(source@, j) + 1 != target_line,
        decreases source.len() - i,
    {
        if current_line == target_line as u64 {
            proof {
                lemma_first_on_line_none(source@, target_line as int, i as int);
                assert(first_on_line_below(source@, target_line as int, i + 1) == Some(i as int));
                lemma_first_on_line_mono(
                    source@,
                    target_line as int,
                    i + 1,
                    source@.len() as int,
                );
                lemma_utf8_len_subrange(source@, 0, i as int);
                assert(source@.subrange(0, i as int) =~= source@.take(i as int));
            }
            return byte_idx as u32;
        }
        proof {
            assert(source@.take(i + 1).drop_last() =~= source@.take(i as int));
            lemma_utf8_len_subrange(source@, 0, i + 1);
            assert(source@.subrange(0, i + 1) =~= source@.take(i + 1));
        }
        if source[i] == '\n' {
            current_line += 1;
        }
        byte_idx = byte_idx + char_width_exec(source[i]);
        i += 1;
    }
    proof {
        lemma_first_on_line_none(source@, target_line as int, source@.len() as int);
        assert(source@.take(i as int) =~= source@);
    }
    byte_idx as u32
}

/// A byte range in the source text.
#[derive(Clone, Copy, Debug, PartialEq, Eq)]
pub struct Span {
    pub start: u32,
    pub end: u32,
}

/// The characters from byte offset `b` on, when `b` is the byte offset of a
/// character (or the end); empty otherwise.
pub open spec fn rest_from_byte(s: Seq<char>, b: nat) -> Seq<char> {
    if exists|i: int| 0 <= i <= s.len() && utf8_len(s.take(i)) == b {
        s.skip(choose|i: int| 0 <= i <= s.len() && utf8_len(s.take(i)) == b)
    } else {
        Seq::empty()
    }
}

/// The first line of `s` (empty for an empty text): `s.lines().next().unwrap_or("")`.
pub open spec fn first_line(s: Seq<char>) -> Seq<char> {
    if s.len() == 0 {
        Seq::empty()
    } else {
        strip_cr(before_char(s, '\n'))
    }
}

/// The span of the trimmed content of 1-based line `n` (`span_for_line`).
pub open spec fn line_span(source: Seq<char>, n: int) -> (nat, nat) {
    let start = line_byte_offset(source, n);
    let text = first_line(rest_from_byte(source, start));
    (
        start + (utf8_len(text) - utf8_len(trim_start(text))) as nat,
        start + utf8_len(trim_end(text)),
    )
}

pub proof fn lemma_utf8_len_take_strict(s: Seq<char>, i: int, j: int)
    requires
        0 <= i < j <= s.len(),
    ensures
        utf8_len(s.take(i)) < utf8_len(s.take(j)),
{
    lemma_utf8_len_subrange(s, 0, i);
    lemma_utf8_len_subrange(s, 0, j);
    assert(s.subrange(0, i) =~= s.take(i));
    assert(s.subrange(0, j) =~= s.take(j));
    lemma_utf8_len_add(s.take(i), s.subrange(i, j));
    assert(s.take(i) + s.subrange(i, j) =~= s.take(j));
    lemma_utf8_len_bounds(s.subrange(i, j));
}

/// Byte offsets of character positions are distinct.
pub proof fn lemma_byte_index_unique(s: Seq<char>, i: int, b: nat)
    requires
        0 <= i <= s.len(),
        utf8_len(s.take(i)) == b,
    ensures
        rest_from_byte(s, b) == s.skip(i),
{
    let k = choose|k: int| 0 <= k <= s.len() && utf8_len(s.take(k)) == b;
    if k < i {
        lemma_utf8_len_take_strict(s, k, i);
    } else if i < k {
        lemma_utf8_len_take_strict(s, i, k);
    }
}

/// `b` is the byte offset of a character of `s`, or of its end.
pub open spec fn byte_boundary(s: Seq<char>, b: nat) -> bool {
    exists|i: int| 0 <= i <= s.len() && utf8_len(s.take(i)) == b
}

/// The character index whose byte offset is `b` (meaningful when
/// `byte_boundary(s, b)`).
pub open spec fn char_at_byte(s: Seq<char>, b: nat) -> int {
    choose|i: int| 0 <= i <= s.len() && utf8_len(s.take(i)) == b
}

pub proof fn lemma_char_at_byte(s: Seq<char>, i: int, b: nat)
    requires
        0 <= i <= s.len(),
        utf8_len(s.take(i)) == b,
    ensures
        byte_boundary(s, b),
        char_at_byte(s, b) == i,
{
    let k = char_at_byte(s, b);
    assert(byte_boundary(s, b));
    if k < i {
        lemma_utf8_len_take_strict(s, k, i);
    } else if i < k {
        lemma_utf8_len_take_strict(s, i, k);
    }
}

pub proof fn lemma_trim_lens(t: Seq<char>)
    ensures
        utf8_len(trim_start(t)) <= utf8_len(t),
        utf8_len(trim_end(t)) <= utf8_len(t),
{
    lemma_trim_start_is_suffix(t);
    lemma_trim_end_is_prefix(t);
    lemma_utf8_len_subrange(t, t.len() - trim_start(t).len(), t.len() as int);
    lemma_utf8_len_subrange(t, 0, trim_end(t).len() as int);
    assert(t.subrange(t.len() - trim_start(t).len(), t.len() as int) =~= t.skip(
        t.len() - trim_start(t).len(),
    ));
    assert(t.subrange(0, trim_end(t).len() as int) =~= t.take(trim_end(t).len() as int));
}

/// `indent_of`: the byte length of a line's leading whitespace.
pub open spec fn indent_of(line: Seq<char>) -> nat {
    (utf8_len(line) - utf8_len(trim_start(line))) as nat
}

pub proof fn lemma_indent_of(line: Seq<char>)
    ensures
        indent_of(line) == utf8_len(line.take(leading_ws(line) as int)),
{
    lemma_trim_start_is_suffix(line);
    let k = leading_ws(line) as int;
    lemma_utf8_len_subrange(line, 0, k);
    assert(line.subrange(0, k) =~= line.take(k));
    assert(line.subrange(k, line.len() as int) =~= line.skip(k));
    assert(line.skip(line.len() as int) =~= Seq::<char>::empty());
}

pub fn leading_indent(line: &[char]) -> (r: usize)
    requires
        utf8_len(line@) <= u32::MAX,
    ensures
        r == indent_of(line@),
        r <= utf8_len(line@),
{
    let k = trim_start_index(line);
    proof {
        lemma_indent_of(line@);
        lemma_trim_lens(line@);
    }
    utf8_len_prefix(line, k)
}

/// The text from character index `i` on, up to (not including) the next `'\n'`,
/// without a `'\r'` that ends it.
fn first_line_from(s: &[char], i: usize) -> (r: Vec<char>)
    requires
        i <= s@.len(),
    ensures
        r@ == first_line(s@.skip(i as int)),
{
    let rest = slice_of(s, i, s.len());
    proof {
        assert(rest@ =~= s@.skip(i as int));
    }
    if rest.len() == 0 {
        return rest;
    }
    let piece = before_char_exec(rest.as_slice(), '\n');
    strip_cr_exec(piece)
}

/// `span_for_line`: the span of the trimmed content of 1-based line `line_number`.
pub fn span_for_line(source: &[char], line_number: usize) -> (r: Span)
    requires
        utf8_len(source@) <= u32::MAX,
    ensures
        (r.start as nat, r.end as nat) == line_span(source@, line_number as int),
{
    let start = line_to_byte_offset(source, line_number);
    // The character index at which that line starts.
    let mut ci: usize = 0;
    let mut acc: usize = 0;
    while ci < source.len() && acc != start as usize
        invariant
            ci <= source@.len(),
            utf8_len(source@) <= u32::MAX,
            acc == utf8_len(source@.take(ci as int)),
            forall|j: int| 0 <= j < ci ==> utf8_len(source@.take(j)) != start,
        decreases source.len() - ci,
    {
        proof {
            assert(source@.take(ci + 1).drop_last() =~= source@.take(ci as int));
            lemma_utf8_len_subrange(source@, 0, ci + 1);
            assert(source@.subrange(0, ci + 1) =~= source@.take(ci + 1));
        }
        acc = acc + char_width_exec(source[ci]);
        ci += 1;
    }
    let text: Vec<char>;
    if acc == start as usize {
        proof {
            lemma_byte_index_unique(source@, ci as int, start as nat);
        }
        text = first_line_from(source, ci);
    } else {
        proof {
            assert(ci == source@.len());
            assert forall|j: int| 0 <= j <= source@.len() implies utf8_len(source@.take(j))
                != start by {
                if j == source@.len() {
                    assert(source@.take(j) =~= source@.take(ci as int));
                }
            }
        }
        text = Vec::new();
        proof {
            assert(first_line(Seq::<char>::empty()) =~= text@);
        }
    }
    let ghost rest = rest_from_byte(source@, start as nat);
    proof {
        if acc == start as usize {
            lemma_utf8_len_subrange(source@, ci as int, source@.len() as int);
            assert(source@.subrange(ci as int, source@.len() as int) =~= source@.skip(ci as int));
            assert(rest == source@.skip(ci as int));
            // the first line of the rest is a prefix of it
            let r0 = source@.skip(ci as int);
            if r0.len() > 0 {
                lemma_find_char(r0, '\n');
                let b = before_char(r0, '\n');
                lemma_utf8_len_subrange(r0, 0, b.len() as int);
                assert(r0.subrange(0, b.len() as int) =~= b);
                lemma_utf8_len_subrange(b, 0, strip_cr(b).len() as int);
                assert(b.subrange(0, strip_cr(b).len() as int) =~= strip_cr(b));
            }
        }
        lemma_trim_lens(text@);
    }
    let a = trim_start_index(text.as_slice());
    let b = trim_end_index(text.as_slice());
    proof {
        lemma_indent_of(text@);
        lemma_utf8_len_subrange(text@, 0, b as int);
        assert(text@.subrange(0, b as int) =~= text@.take(b as int));
        lemma_utf8_len_subrange(text@, 0, a as int);
        assert(text@.subrange(0, a as int) =~= text@.take(a as int));
    }
    let lead = utf8_len_prefix(text.as_slice(), a);
    let body = utf8_len_prefix(text.as_slice(), b);
    Span { start: (start as usize + lead) as u32, end: (start as usize + body) as u32 }
}

} // verus!

verus! {

/// Every line of a text is no longer in bytes than the text.
pub proof fn lemma_lines_utf8_len(s: Seq<char>)
    ensures
        forall|k: int| 0 <= k < lines(s).len() ==> utf8_len(#[trigger] lines(s)[k]) <= utf8_len(s),
    decreases s.len(),
{
    if s.len() > 0 {
        lemma_find_char(s, '\n');
        match find_char(s, '\n') {
            None => {},
            Some(i) => {
                let rest = s.skip(i + 1);
                lemma_lines_utf8_len(rest);
                lemma_utf8_len_subrange(s, i + 1, s.len() as int);
                assert(s.subrange(i + 1, s.len() as int) =~= rest);
                let p = s.take(i);
                lemma_utf8_len_subrange(s, 0, i);
                assert(s.subrange(0, i) =~= p);
                lemma_utf8_len_subrange(p, 0, strip_cr(p).len() as int);
                assert(p.subrange(0, strip_cr(p).len() as int) =~= strip_cr(p));
                assert forall|k: int| 0 <= k < lines(s).len() implies utf8_len(
                    #[trigger] lines(s)[k],
                ) <= utf8_len(s) by {
                    if k > 0 {
                        assert(lines(s)[k] == lines(rest)[k - 1]);
                    }
                }
            },
        }
    }
}


/// The bytes of the first `k` lines, each counted with one byte for its end.
pub open spec fn line_sum(ls: Seq<Seq<char>>, k: int) -> nat
    decreases k,
{
    if k <= 0 || ls.len() == 0 {
        0
    } else {
        utf8_len(ls[0]) + 1 + line_sum(ls.skip(1), k - 1)
    }
}

pub proof fn lemma_line_sum_step(ls: Seq<Seq<char>>, k: int)
    requires
        0 <= k < ls.len(),
    ensures
        line_sum(ls, k + 1) == line_sum(ls, k) + utf8_len(ls[k]) + 1,
    decreases k,
{
    if k > 0 {
        lemma_line_sum_step(ls.skip(1), k - 1);
        assert(ls.skip(1)[k - 1] == ls[k]);
        assert(line_sum(ls, k + 1) == utf8_len(ls[0]) + 1 + line_sum(ls.skip(1), k));
        assert(line_sum(ls, k) == utf8_len(ls[0]) + 1 + line_sum(ls.skip(1), k - 1));
    } else {
        assert(line_sum(ls.skip(1), 0) == 0);
        assert(line_sum(ls, 1) == utf8_len(ls[0]) + 1 + line_sum(ls.skip(1), 0));
    }
}

/// A line starts no later, and ends no later, than the text it comes from.
pub proof fn lemma_line_sum_bound(s: Seq<char>)
    ensures
        forall|k: int|
            0 <= k < lines(s).len() ==> line_sum(lines(s), k) + utf8_len(#[trigger] lines(s)[k]) <= utf8_len(s),
    decreases s.len(),
{
    if s.len() > 0 {
        lemma_find_char(s, '\n');
        match find_char(s, '\n') {
            None => {
                assert forall|k: int| 0 <= k < lines(s).len() implies line_sum(lines(s), k) + utf8_len(
                    #[trigger] lines(s)[k],
                ) <= utf8_len(s) by {
                    assert(k == 0);
                }
            },
            Some(i) => {
                let rest = s.skip(i + 1);
                lemma_line_sum_bound(rest);
                lemma_utf8_len_subrange(s, 0, i + 1);
                assert(s.subrange(0, i + 1) =~= s.take(i + 1));
                assert(s.subrange(i + 1, s.len() as int) =~= rest);
                let p = s.take(i);
                lemma_utf8_len_subrange(s.take(i + 1), 0, i);
                assert(s.take(i + 1).subrange(0, i) =~= p);
                lemma_utf8_len_subrange(s.take(i + 1), i, i + 1);
                crate::position::lemma_utf8_len_bounds(s.take(i + 1).subrange(i, i + 1));
                lemma_utf8_len_subrange(p, 0, strip_cr(p).len() as int);
                assert(p.subrange(0, strip_cr(p).len() as int) =~= strip_cr(p));
                let ls = lines(s);
                assert(ls == seq![strip_cr(p)] + lines(rest));
                assert(ls.skip(1) =~= lines(rest));
                assert forall|k: int| 0 <= k < ls.len() implies line_sum(ls, k) + utf8_len(#[trigger] ls[k])
                    <= utf8_len(s) by {
                    if k > 0 {
                        assert(ls[k] == lines(rest)[k - 1]);
                        assert(line_sum(ls, k) == utf8_len(ls[0]) + 1 + line_sum(lines(rest), k - 1));
                    }
                }
            },
        }
    }
}

/// The character index whose byte offset is `b`, when `b` falls on a
/// character boundary (the end counts).
pub fn char_index_at_byte(s: &[char], b: usize) -> (r: Option<usize>)
    ensures
        match r {
            Some(i) => i <= s@.len() && utf8_len(s@.take(i as int)) == b,
            None => forall|i: int| 0 <= i <= s@.len() ==> utf8_len(#[trigger] s@.take(i)) != b,
        },
{
    let mut acc: u128 = 0;
    let mut i: usize = 0;
    while i < s.len() && acc < b as u128
        invariant
            i <= s@.len(),
            acc == utf8_len(s@.take(i as int)),
            i > 0 ==> utf8_len(s@.take(i - 1)) < b,
        decreases s.len() - i,
    {
        proof {
            assert(s@.take(i + 1).drop_last() =~= s@.take(i as int));
            lemma_utf8_len_bounds(s@.take(i as int));
        }
        acc = acc + char_width_exec(s[i]) as u128;
        i += 1;
    }
    if acc == b as u128 {
        return Some(i);
    }
    proof {
        assert forall|j: int| 0 <= j <= s@.len() implies utf8_len(#[trigger] s@.take(j)) != b by {
            if j < i - 1 {
                lemma_utf8_len_take_strict(s@, j, i - 1);
            } else if j > i {
                lemma_utf8_len_take_strict(s@, i as int, j);
            }
        }
    }
    None
}

} // verus!
