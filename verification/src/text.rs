//! Character-level text primitives over source text held as `char`s.
//!
//! Every executable helper here is tied to a spec function over `Seq<char>`;
//! the rule modules state their contracts with those spec functions.
use vstd::prelude::*;

verus! {

// ---------------------------------------------------------------------------
// Character classes
// ---------------------------------------------------------------------------

/// Unicode `White_Space`, which is what `char::is_whitespace` tests.
pub open spec fn is_ws(c: char) -> bool {
    let x = c as u32;
    (0x09 <= x && x <= 0x0d) || x == 0x20 || x == 0x85 || x == 0xa0 || x == 0x1680
        || (0x2000 <= x && x <= 0x200a) || x == 0x2028 || x == 0x2029 || x == 0x202f
        || x == 0x205f || x == 0x3000
}

pub fn is_whitespace(c: char) -> (r: bool)
    ensures
        r == is_ws(c),
{
    let x = c as u32;
    (0x09 <= x && x <= 0x0d) || x == 0x20 || x == 0x85 || x == 0xa0 || x == 0x1680 || (0x2000
        <= x && x <= 0x200a) || x == 0x2028 || x == 0x2029 || x == 0x202f || x == 0x205f || x
        == 0x3000
}

pub open spec fn is_digit(c: char) -> bool {
    '0' <= c && c <= '9'
}

pub open spec fn is_ascii_alnum(c: char) -> bool {
    is_digit(c) || ('a' <= c && c <= 'z') || ('A' <= c && c <= 'Z')
}

/// A character that may continue a Python identifier in the ASCII sense.
pub open spec fn is_ident(c: char) -> bool {
    is_ascii_alnum(c) || c == '_'
}

pub fn is_ascii_digit(c: char) -> (r: bool)
    ensures
        r == is_digit(c),
{
    '0' <= c && c <= '9'
}

pub fn is_ascii_alphanumeric(c: char) -> (r: bool)
    ensures
        r == is_ascii_alnum(c),
{
    ('0' <= c && c <= '9') || ('a' <= c && c <= 'z') || ('A' <= c && c <= 'Z')
}

pub fn is_ident_char(c: char) -> (r: bool)
    ensures
        r == is_ident(c),
{
    is_ascii_alphanumeric(c) || c == '_'
}

/// What `char::is_alphanumeric` answers (Unicode `Alphabetic` or `Numeric`).
pub uninterp spec fn unicode_alphanumeric(c: char) -> bool;

/// What `char::is_uppercase` answers (Unicode `Uppercase`).
pub uninterp spec fn unicode_uppercase(c: char) -> bool;

/// Calls `char::is_alphanumeric`. Its answer is named `unicode_alphanumeric`; for
/// ASCII characters std documents it as the ASCII letters and digits.
#[verifier::external_body]
pub fn char_is_alphanumeric(c: char) -> (r: bool)
    ensures
        r == unicode_alphanumeric(c),
        (c as u32) < 0x80 ==> (r == is_ascii_alnum(c)),
{
    c.is_alphanumeric()
}

/// Calls `char::is_uppercase`. Its answer is named `unicode_uppercase`; for ASCII
/// characters std documents it as `'A'..='Z'`.
#[verifier::external_body]
pub fn char_is_uppercase(c: char) -> (r: bool)
    ensures
        r == unicode_uppercase(c),
        (c as u32) < 0x80 ==> (r == ('A' <= c && c <= 'Z')),
{
    c.is_uppercase()
}

/// What `char::is_alphabetic` answers (Unicode `Alphabetic`).
pub uninterp spec fn unicode_alphabetic(c: char) -> bool;

/// Calls `char::is_alphabetic`. Its answer is named `unicode_alphabetic`; for
/// ASCII characters std documents it as the ASCII letters.
#[verifier::external_body]
pub fn char_is_alphabetic(c: char) -> (r: bool)
    ensures
        r == unicode_alphabetic(c),
        (c as u32) < 0x80 ==> (r == (('a' <= c && c <= 'z') || ('A' <= c && c <= 'Z'))),
{
    c.is_alphabetic()
}

/// Every character of `s` is alphanumeric (Unicode) or `_`.
pub open spec fn all_alnum_or_underscore(s: Seq<char>) -> bool {
    forall|i: int| 0 <= i < s.len() ==> (unicode_alphanumeric(#[trigger] s[i]) || s[i] == '_')
}

pub fn is_alnum_underscore_word(s: &[char]) -> (r: bool)
    ensures
        r == all_alnum_or_underscore(s@),
{
    let mut i: usize = 0;
    while i < s.len()
        invariant
            i <= s.len(),
            all_alnum_or_underscore(s@.take(i as int)),
        decreases s.len() - i,
    {
        if !(char_is_alphanumeric(s[i]) || s[i] == '_') {
            assert(!(unicode_alphanumeric(s@[i as int]) || s@[i as int] == '_'));
            return false;
        }
        assert(s@.take(i + 1) =~= s@.take(i as int).push(s@[i as int]));
        i += 1;
    }
    assert(s@.take(i as int) =~= s@);
    true
}

/// Every character of `s` is an ASCII letter, digit or `_`.
pub open spec fn all_ident(s: Seq<char>) -> bool {
    forall|i: int| 0 <= i < s.len() ==> is_ident(#[trigger] s[i])
}

pub fn is_ident_word(s: &[char]) -> (r: bool)
    ensures
        r == all_ident(s@),
{
    let mut i: usize = 0;
    while i < s.len()
        invariant
            i <= s.len(),
            forall|j: int| 0 <= j < i ==> is_ident(#[trigger] s@[j]),
        decreases s.len() - i,
    {
        if !is_ident_char(s[i]) {
            return false;
        }
        i += 1;
    }
    true
}

/// Every character of `s` is an ASCII digit.
pub open spec fn all_digits(s: Seq<char>) -> bool {
    forall|i: int| 0 <= i < s.len() ==> is_digit(#[trigger] s[i])
}

pub fn is_digit_word(s: &[char]) -> (r: bool)
    ensures
        r == all_digits(s@),
{
    let mut i: usize = 0;
    while i < s.len()
        invariant
            i <= s.len(),
            forall|j: int| 0 <= j < i ==> is_digit(#[trigger] s@[j]),
        decreases s.len() - i,
    {
        if !is_ascii_digit(s[i]) {
            return false;
        }
        i += 1;
    }
    true
}

// ---------------------------------------------------------------------------
// Conversions and copies
// ---------------------------------------------------------------------------

/// The characters of a string.
pub fn chars_of(s: &str) -> (r: Vec<char>)
    ensures
        r@ == s@,
{
    let mut v: Vec<char> = Vec::new();
    for c in it: s.chars()
        invariant
            v@ == it.seq().take(it.index() as int),
    {
        v.push(c);
    }
    v
}

/// Appends the characters of `s` to `out`.
pub fn push_chars(out: &mut Vec<char>, s: &[char])
    ensures
        final(out)@ == old(out)@ + s@,
{
    let ghost start = out@;
    let mut i: usize = 0;
    while i < s.len()
        invariant
            i <= s@.len(),
            out@ == start + s@.take(i as int),
        decreases s@.len() - i,
    {
        out.push(s[i]);
        i += 1;
        assert(s@.take(i as int) =~= s@.take(i - 1) + seq![s@[i - 1]]);
    }
    assert(s@.take(i as int) =~= s@);
}

/// Appends the characters of the literal `s` to `out`.
pub fn push_lit(out: &mut Vec<char>, s: &str)
    ensures
        final(out)@ == old(out)@ + s@,
{
    let t = chars_of(s);
    push_chars(out, t.as_slice());
}

/// The pieces with `sep` between each two.
pub open spec fn join_sep(ps: Seq<Seq<char>>, sep: Seq<char>) -> Seq<char>
    decreases ps.len(),
{
    if ps.len() == 0 {
        Seq::empty()
    } else if ps.len() == 1 {
        ps[0]
    } else {
        join_sep(ps.drop_last(), sep) + sep + ps.last()
    }
}

/// The pieces with `", "` between each two.
pub open spec fn join_comma(ps: Seq<Seq<char>>) -> Seq<char> {
    join_sep(ps, ", "@)
}

/// Appends the pieces to `out`, with `sep` between each two.
pub fn push_joined_sep(out: &mut Vec<char>, ps: &Vec<Vec<char>>, sep: &str)
    ensures
        final(out)@ == old(out)@ + join_sep(views(ps@), sep@),
{
    let ghost start = out@;
    let ghost all = views(ps@);
    let mut i: usize = 0;
    while i < ps.len()
        invariant
            i <= ps@.len(),
            all == views(ps@),
            out@ == start + join_sep(all.take(i as int), sep@),
        decreases ps@.len() - i,
    {
        if i > 0 {
            push_lit(out, sep);
        }
        push_chars(out, ps[i].as_slice());
        proof {
            let t = all.take(i + 1);
            assert(t.drop_last() =~= all.take(i as int));
            assert(t.last() == ps@[i as int]@);
            if i == 0 {
                assert(t.len() == 1);
            }
        }
        i += 1;
    }
    assert(all.take(i as int) =~= all);
}

/// Appends the pieces to `out`, with `", "` between each two.
pub fn push_joined(out: &mut Vec<char>, ps: &Vec<Vec<char>>)
    ensures
        final(out)@ == old(out)@ + join_comma(views(ps@)),
{
    push_joined_sep(out, ps, ", ");
}

/// A copy of `s[lo..hi]`.
pub fn slice_of(s: &[char], lo: usize, hi: usize) -> (r: Vec<char>)
    requires
        lo <= hi <= s@.len(),
    ensures
        r@ == s@.subrange(lo as int, hi as int),
{
    let mut v: Vec<char> = Vec::new();
    let mut i = lo;
    while i < hi
        invariant
            lo <= i <= hi <= s@.len(),
            v@ == s@.subrange(lo as int, i as int),
        decreases hi - i,
    {
        v.push(s[i]);
        i += 1;
    }
    v
}

pub fn eq_chars(a: &[char], b: &[char]) -> (r: bool)
    ensures
        r == (a@ == b@),
{
    if a.len() != b.len() {
        return false;
    }
    let mut i: usize = 0;
    while i < a.len()
        invariant
            a@.len() == b@.len(),
            i <= a.len(),
            forall|j: int| 0 <= j < i ==> a@[j] == b@[j],
        decreases a.len() - i,
    {
        if a[i] != b[i] {
            return false;
        }
        i += 1;
    }
    assert(a@ =~= b@);
    true
}

/// `a` equals the string literal `lit`.
pub fn eq_str(a: &[char], lit: &str) -> (r: bool)
    ensures
        r == (a@ == lit@),
{
    let l = chars_of(lit);
    eq_chars(a, l.as_slice())
}

// ---------------------------------------------------------------------------
// Trimming
// ---------------------------------------------------------------------------

pub open spec fn trim_start(s: Seq<char>) -> Seq<char>
    decreases s.len(),
{
    if s.len() > 0 && is_ws(s[0]) {
        trim_start(s.drop_first())
    } else {
        s
    }
}

pub open spec fn trim_end(s: Seq<char>) -> Seq<char>
    decreases s.len(),
{
    if s.len() > 0 && is_ws(s.last()) {
        trim_end(s.drop_last())
    } else {
        s
    }
}

pub open spec fn trim(s: Seq<char>) -> Seq<char> {
    trim_end(trim_start(s))
}

/// The number of leading whitespace characters.
pub open spec fn leading_ws(s: Seq<char>) -> nat {
    (s.len() - trim_start(s).len()) as nat
}

pub proof fn lemma_trim_start_skip(s: Seq<char>, i: int)
    requires
        0 <= i <= s.len(),
        forall|j: int| 0 <= j < i ==> is_ws(#[trigger] s[j]),
    ensures
        trim_start(s) == trim_start(s.skip(i)),
    decreases i,
{
    if i > 0 {
        assert(s.skip(1) =~= s.drop_first());
        lemma_trim_start_skip(s.drop_first(), i - 1);
        assert(s.drop_first().skip(i - 1) =~= s.skip(i));
    } else {
        assert(s.skip(0) =~= s);
    }
}

pub proof fn lemma_trim_start_is_suffix(s: Seq<char>)
    ensures
        trim_start(s).len() <= s.len(),
        trim_start(s) =~= s.skip(s.len() - trim_start(s).len()),
        trim_start(s).len() > 0 ==> !is_ws(trim_start(s)[0]),
        forall|j: int| 0 <= j < s.len() - trim_start(s).len() ==> is_ws(#[trigger] s[j]),
    decreases s.len(),
{
    if s.len() > 0 && is_ws(s[0]) {
        let t = s.drop_first();
        lemma_trim_start_is_suffix(t);
        assert forall|j: int| 0 <= j < s.len() - trim_start(s).len() implies is_ws(#[trigger] s[j]) by {
            if j > 0 {
                assert(s[j] == t[j - 1]);
            }
        }
    }
}

pub proof fn lemma_trim_end_take(s: Seq<char>, i: int)
    requires
        0 <= i <= s.len(),
        forall|j: int| i <= j < s.len() ==> is_ws(#[trigger] s[j]),
    ensures
        trim_end(s) == trim_end(s.take(i)),
    decreases s.len() - i,
{
    if i < s.len() {
        lemma_trim_end_take(s.drop_last(), i);
        assert(s.drop_last().take(i) =~= s.take(i));
    } else {
        assert(s.take(i) =~= s);
    }
}

pub proof fn lemma_trim_end_is_prefix(s: Seq<char>)
    ensures
        trim_end(s).len() <= s.len(),
        trim_end(s) =~= s.take(trim_end(s).len() as int),
        trim_end(s).len() > 0 ==> !is_ws(trim_end(s).last()),
        forall|j: int| trim_end(s).len() <= j < s.len() ==> is_ws(#[trigger] s[j]),
    decreases s.len(),
{
    if s.len() > 0 && is_ws(s.last()) {
        let t = s.drop_last();
        lemma_trim_end_is_prefix(t);
        assert forall|j: int| trim_end(s).len() <= j < s.len() implies is_ws(#[trigger] s[j]) by {
            if j < s.len() - 1 {
                assert(s[j] == t[j]);
            }
        }
    }
}

/// Trimming twice is trimming once.
pub proof fn lemma_trim_idem(s: Seq<char>)
    ensures
        trim(trim(s)) == trim(s),
{
    let u = trim_start(s);
    let v = trim_end(u);
    lemma_trim_start_is_suffix(s);
    lemma_trim_end_is_prefix(u);
    if v.len() > 0 {
        assert(v[0] == u[0]);
        assert(trim_start(v) == v);
        assert(trim_end(v) == v);
    } else {
        assert(trim_start(v) =~= v);
    }
}

/// Index of the first non-whitespace character (or the length).
pub fn trim_start_index(s: &[char]) -> (r: usize)
    ensures
        r <= s@.len(),
        s@.skip(r as int) == trim_start(s@),
        r == leading_ws(s@),
{
    let mut i: usize = 0;
    while i < s.len() && is_whitespace(s[i])
        invariant
            i <= s@.len(),
            forall|j: int| 0 <= j < i ==> is_ws(#[trigger] s@[j]),
        decreases s.len() - i,
    {
        i += 1;
    }
    proof {
        lemma_trim_start_skip(s@, i as int);
        let t = s@.skip(i as int);
        if t.len() > 0 {
            assert(t[0] == s@[i as int]);
        }
        assert(trim_start(t) == t);
    }
    i
}

/// Index one past the last non-whitespace character (or 0).
pub fn trim_end_index(s: &[char]) -> (r: usize)
    ensures
        r <= s@.len(),
        s@.take(r as int) == trim_end(s@),
{
    let mut i: usize = s.len();
    while i > 0 && is_whitespace(s[i - 1])
        invariant
            i <= s@.len(),
            forall|j: int| i <= j < s@.len() ==> is_ws(#[trigger] s@[j]),
        decreases i,
    {
        i -= 1;
    }
    proof {
        lemma_trim_end_take(s@, i as int);
        let t = s@.take(i as int);
        if t.len() > 0 {
            assert(t.last() == s@[i - 1]);
        }
        assert(trim_end(t) == t);
    }
    i
}

pub fn trim_start_chars(s: &[char]) -> (r: Vec<char>)
    ensures
        r@ == trim_start(s@),
{
    let a = trim_start_index(s);
    slice_of(s, a, s.len())
}

pub fn trim_end_chars(s: &[char]) -> (r: Vec<char>)
    ensures
        r@ == trim_end(s@),
{
    let b = trim_end_index(s);
    slice_of(s, 0, b)
}

pub fn trim_chars(s: &[char]) -> (r: Vec<char>)
    ensures
        r@ == trim(s@),
{
    let t = trim_start_chars(s);
    trim_end_chars(t.as_slice())
}

// ---------------------------------------------------------------------------
// Searching
// ---------------------------------------------------------------------------

/// `pat` occurs in `s` starting at index `i`.
pub open spec fn matches_at(s: Seq<char>, i: int, pat: Seq<char>) -> bool {
    0 <= i && i + pat.len() <= s.len() && s.subrange(i, i + pat.len()) == pat
}

/// The first index below `n` at which `c` occurs in `s`.
pub open spec fn find_char_below(s: Seq<char>, c: char, n: int) -> Option<int>
    decreases n,
{
    if n <= 0 {
        None
    } else {
        match find_char_below(s, c, n - 1) {
            Some(i) => Some(i),
            None => if s[n - 1] == c {
                Some(n - 1)
            } else {
                None
            },
        }
    }
}

/// The first index of `c` in `s` (`str::find` with a `char`).
pub open spec fn find_char(s: Seq<char>, c: char) -> Option<int> {
    find_char_below(s, c, s.len() as int)
}

/// The last index of `c` in `s` (`str::rfind` with a `char`).
pub open spec fn rfind_char(s: Seq<char>, c: char) -> Option<int>
    decreases s.len(),
{
    if s.len() == 0 {
        None
    } else if s.last() == c {
        Some(s.len() - 1)
    } else {
        rfind_char(s.drop_last(), c)
    }
}

/// The first index below `n` at which `pat` occurs in `s`.
pub open spec fn find_str_below(s: Seq<char>, pat: Seq<char>, n: int) -> Option<int>
    decreases n,
{
    if n <= 0 {
        None
    } else {
        match find_str_below(s, pat, n - 1) {
            Some(i) => Some(i),
            None => if matches_at(s, n - 1, pat) {
                Some(n - 1)
            } else {
                None
            },
        }
    }
}

/// The first index of `pat` in `s` (`str::find` with a `&str`).
pub open spec fn find_str(s: Seq<char>, pat: Seq<char>) -> Option<int> {
    if pat.len() == 0 {
        Some(0)
    } else {
        find_str_below(s, pat, s.len() + 1 as int)
    }
}

pub open spec fn contains_str(s: Seq<char>, pat: Seq<char>) -> bool {
    find_str(s, pat) is Some
}

pub open spec fn contains_char(s: Seq<char>, c: char) -> bool {
    find_char(s, c) is Some
}

pub open spec fn starts_with(s: Seq<char>, pat: Seq<char>) -> bool {
    pat.len() <= s.len() && s.take(pat.len() as int) == pat
}

pub open spec fn ends_with(s: Seq<char>, pat: Seq<char>) -> bool {
    pat.len() <= s.len() && s.skip(s.len() - pat.len()) == pat
}

pub proof fn lemma_find_char_below_none(s: Seq<char>, c: char, n: int)
    requires
        0 <= n <= s.len(),
    ensures
        find_char_below(s, c, n) is None <==> forall|j: int| 0 <= j < n ==> s[j] != c,
    decreases n,
{
    if n > 0 {
        lemma_find_char_below_none(s, c, n - 1);
    }
}

pub proof fn lemma_find_char_below_some(s: Seq<char>, c: char, n: int)
    requires
        0 <= n <= s.len(),
    ensures
        find_char_below(s, c, n) matches Some(i) ==> 0 <= i < n && s[i] == c && forall|j: int|
            0 <= j < i ==> s[j] != c,
    decreases n,
{
    if n > 0 {
        lemma_find_char_below_some(s, c, n - 1);
        lemma_find_char_below_none(s, c, n - 1);
    }
}

pub proof fn lemma_find_char_below_mono(s: Seq<char>, c: char, n: int, m: int)
    requires
        0 <= n <= m <= s.len(),
        find_char_below(s, c, n) is Some,
    ensures
        find_char_below(s, c, m) == find_char_below(s, c, n),
    decreases m - n,
{
    if m > n {
        lemma_find_char_below_mono(s, c, n, m - 1);
    }
}

/// The characterization of `find_char`.
pub proof fn lemma_find_char(s: Seq<char>, c: char)
    ensures
        find_char(s, c) matches Some(i) ==> 0 <= i < s.len() && s[i] == c && forall|j: int|
            0 <= j < i ==> s[j] != c,
        find_char(s, c) is None <==> forall|j: int| 0 <= j < s.len() ==> s[j] != c,
{
    lemma_find_char_below_some(s, c, s.len() as int);
    lemma_find_char_below_none(s, c, s.len() as int);
}

pub proof fn lemma_find_char_at(s: Seq<char>, c: char, i: int)
    requires
        0 <= i < s.len(),
        s[i] == c,
        forall|j: int| 0 <= j < i ==> s[j] != c,
    ensures
        find_char(s, c) == Some(i),
{
    lemma_find_char_below_none(s, c, i);
    assert(find_char_below(s, c, i + 1) == Some(i));
    lemma_find_char_below_mono(s, c, i + 1, s.len() as int);
}

pub fn find_char_exec(s: &[char], c: char) -> (r: Option<usize>)
    ensures
        match r {
            Some(i) => find_char(s@, c) == Some(i as int),
            None => find_char(s@, c) is None,
        },
{
    let mut i: usize = 0;
    while i < s.len()
        invariant
            i <= s@.len(),
            forall|j: int| 0 <= j < i ==> s@[j] != c,
        decreases s.len() - i,
    {
        if s[i] == c {
            proof {
                lemma_find_char_at(s@, c, i as int);
            }
            return Some(i);
        }
        i += 1;
    }
    proof {
        lemma_find_char(s@, c);
    }
    None
}

pub proof fn lemma_rfind_char(s: Seq<char>, c: char)
    ensures
        rfind_char(s, c) matches Some(i) ==> 0 <= i < s.len() && s[i] == c && forall|j: int|
            i < j < s.len() ==> s[j] != c,
        rfind_char(s, c) is None <==> forall|j: int| 0 <= j < s.len() ==> s[j] != c,
    decreases s.len(),
{
    if s.len() > 0 && s.last() != c {
        let t = s.drop_last();
        lemma_rfind_char(t, c);
        assert forall|j: int| 0 <= j < t.len() implies t[j] == s[j] by {}
    }
}

pub proof fn lemma_rfind_char_take(s: Seq<char>, c: char, i: int)
    requires
        0 <= i <= s.len(),
        forall|j: int| i <= j < s.len() ==> s[j] != c,
    ensures
        rfind_char(s, c) == rfind_char(s.take(i), c),
    decreases s.len() - i,
{
    if i < s.len() {
        lemma_rfind_char_take(s.drop_last(), c, i);
        assert(s.drop_last().take(i) =~= s.take(i));
    } else {
        assert(s.take(i) =~= s);
    }
}

pub fn rfind_char_exec(s: &[char], c: char) -> (r: Option<usize>)
    ensures
        match r {
            Some(i) => rfind_char(s@, c) == Some(i as int),
            None => rfind_char(s@, c) is None,
        },
{
    let mut i: usize = s.len();
    while i > 0
        invariant
            i <= s@.len(),
            forall|j: int| i <= j < s@.len() ==> s@[j] != c,
        decreases i,
    {
        if s[i - 1] == c {
            proof {
                lemma_rfind_char_take(s@, c, i as int);
                assert(s@.take(i as int).last() == c);
            }
            return Some(i - 1);
        }
        i -= 1;
    }
    proof {
        lemma_rfind_char(s@, c);
    }
    None
}

pub fn contains_char_exec(s: &[char], c: char) -> (r: bool)
    ensures
        r == contains_char(s@, c),
{
    find_char_exec(s, c).is_some()
}

pub fn matches_at_exec(s: &[char], i: usize, pat: &[char]) -> (r: bool)
    ensures
        r == matches_at(s@, i as int, pat@),
{
    let n = s.len();
    if i > n || pat.len() > n - i {
        return false;
    }
    let mut k: usize = 0;
    while k < pat.len()
        invariant
            n == s@.len(),
            i + pat@.len() <= n,
            k <= pat@.len(),
            forall|j: int| 0 <= j < k ==> s@[i + j] == pat@[j],
        decreases pat.len() - k,
    {
        if s[i + k] != pat[k] {
            assert(s@.subrange(i as int, i + pat@.len())[k as int] != pat@[k as int]);
            return false;
        }
        k += 1;
    }
    assert(s@.subrange(i as int, i + pat@.len()) =~= pat@);
    true
}

pub proof fn lemma_find_str_below_none(s: Seq<char>, pat: Seq<char>, n: int)
    requires
        0 <= n,
    ensures
        find_str_below(s, pat, n) is None <==> forall|j: int| 0 <= j < n ==> !matches_at(s, j, pat),
    decreases n,
{
    if n > 0 {
        lemma_find_str_below_none(s, pat, n - 1);
    }
}

pub proof fn lemma_find_str_below_some(s: Seq<char>, pat: Seq<char>, n: int)
    requires
        0 <= n,
    ensures
        find_str_below(s, pat, n) matches Some(i) ==> 0 <= i < n && matches_at(s, i, pat)
            && forall|j: int| 0 <= j < i ==> !matches_at(s, j, pat),
    decreases n,
{
    if n > 0 {
        lemma_find_str_below_some(s, pat, n - 1);
        lemma_find_str_below_none(s, pat, n - 1);
    }
}

pub proof fn lemma_find_str_below_mono(s: Seq<char>, pat: Seq<char>, n: int, m: int)
    requires
        0 <= n <= m,
        find_str_below(s, pat, n) is Some,
    ensures
        find_str_below(s, pat, m) == find_str_below(s, pat, n),
    decreases m - n,
{
    if m > n {
        lemma_find_str_below_mono(s, pat, n, m - 1);
    }
}

/// The characterization of `find_str`.
pub proof fn lemma_find_str(s: Seq<char>, pat: Seq<char>)
    ensures
        find_str(s, pat) matches Some(i) ==> matches_at(s, i, pat) && forall|j: int|
            0 <= j < i ==> !matches_at(s, j, pat),
        find_str(s, pat) is None <==> forall|j: int| 0 <= j ==> !matches_at(s, j, pat),
{
    if pat.len() == 0 {
        assert(s.subrange(0, 0) =~= pat);
        assert(matches_at(s, 0, pat));
    } else {
        let n: int = s.len() + 1int;
        lemma_find_str_below_some(s, pat, n);
        lemma_find_str_below_none(s, pat, n);
        if forall|j: int| 0 <= j ==> !matches_at(s, j, pat) {
            assert(forall|j: int| 0 <= j < n ==> !matches_at(s, j, pat));
        }
        if find_str(s, pat) is None {
            assert forall|j: int| 0 <= j implies !matches_at(s, j, pat) by {
                if j <= s.len() {
                    assert(0 <= j < s.len() + 1);
                }
            }
        }
    }
}

pub proof fn lemma_find_str_at(s: Seq<char>, pat: Seq<char>, i: int)
    requires
        matches_at(s, i, pat),
        forall|j: int| 0 <= j < i ==> !matches_at(s, j, pat),
    ensures
        find_str(s, pat) == Some(i),
{
    if pat.len() == 0 {
        if i > 0 {
            assert(s.subrange(0, 0) =~= pat);
            assert(matches_at(s, 0, pat));
        }
    } else {
        lemma_find_str_below_none(s, pat, i);
        assert(find_str_below(s, pat, i + 1) == Some(i));
        lemma_find_str_below_mono(s, pat, i + 1, s.len() + 1 as int);
    }
}

pub fn find_str_exec(s: &[char], pat: &[char]) -> (r: Option<usize>)
    ensures
        match r {
            Some(i) => find_str(s@, pat@) == Some(i as int),
            None => find_str(s@, pat@) is None,
        },
{
    let mut i: usize = 0;
    while i < s.len()
        invariant
            i <= s@.len(),
            forall|j: int| 0 <= j < i ==> !matches_at(s@, j, pat@),
        decreases s.len() - i,
    {
        if matches_at_exec(s, i, pat) {
            proof {
                lemma_find_str_at(s@, pat@, i as int);
            }
            return Some(i);
        }
        i += 1;
    }
    if matches_at_exec(s, i, pat) {
        proof {
            lemma_find_str_at(s@, pat@, i as int);
        }
        return Some(i);
    }
    proof {
        lemma_find_str(s@, pat@);
        assert forall|j: int| 0 <= j implies !matches_at(s@, j, pat@) by {
            if j > s@.len() {
                assert(!matches_at(s@, j, pat@));
            }
        }
    }
    None
}

pub fn find_lit(s: &[char], lit: &str) -> (r: Option<usize>)
    ensures
        match r {
            Some(i) => find_str(s@, lit@) == Some(i as int),
            None => find_str(s@, lit@) is None,
        },
{
    let p = chars_of(lit);
    find_str_exec(s, p.as_slice())
}

pub fn contains_lit(s: &[char], lit: &str) -> (r: bool)
    ensures
        r == contains_str(s@, lit@),
{
    find_lit(s, lit).is_some()
}

pub fn starts_with_exec(s: &[char], pat: &[char]) -> (r: bool)
    ensures
        r == starts_with(s@, pat@),
{
    let r = matches_at_exec(s, 0, pat);
    proof {
        if pat@.len() <= s@.len() {
            assert(s@.subrange(0, pat@.len() as int) =~= s@.take(pat@.len() as int));
        }
    }
    r
}

pub fn starts_with_lit(s: &[char], lit: &str) -> (r: bool)
    ensures
        r == starts_with(s@, lit@),
{
    let p = chars_of(lit);
    starts_with_exec(s, p.as_slice())
}

pub fn ends_with_exec(s: &[char], pat: &[char]) -> (r: bool)
    ensures
        r == ends_with(s@, pat@),
{
    if pat.len() > s.len() {
        return false;
    }
    let r = matches_at_exec(s, s.len() - pat.len(), pat);
    proof {
        assert(s@.subrange(s@.len() - pat@.len(), s@.len() as int) =~= s@.skip(
            s@.len() - pat@.len(),
        ));
    }
    r
}

pub fn ends_with_lit(s: &[char], lit: &str) -> (r: bool)
    ensures
        r == ends_with(s@, lit@),
{
    let p = chars_of(lit);
    ends_with_exec(s, p.as_slice())
}

pub fn starts_with_char(s: &[char], c: char) -> (r: bool)
    ensures
        r == (s@.len() > 0 && s@[0] == c),
{
    s.len() > 0 && s[0] == c
}

pub fn ends_with_char(s: &[char], c: char) -> (r: bool)
    ensures
        r == (s@.len() > 0 && s@.last() == c),
{
    s.len() > 0 && s[s.len() - 1] == c
}

/// The contents of a list of character vectors.
pub open spec fn views(v: Seq<Vec<char>>) -> Seq<Seq<char>> {
    v.map_values(|x: Vec<char>| x@)
}

// ---------------------------------------------------------------------------
// Splitting
// ---------------------------------------------------------------------------

/// The text before the first `c` (the whole text when there is none):
/// `s.split(c).next().unwrap()`.
pub open spec fn before_char(s: Seq<char>, c: char) -> Seq<char> {
    match find_char(s, c) {
        Some(i) => s.take(i),
        None => s,
    }
}

/// The text after the first `c` (empty when there is none).
pub open spec fn after_char(s: Seq<char>, c: char) -> Seq<char> {
    match find_char(s, c) {
        Some(i) => s.skip(i + 1),
        None => Seq::empty(),
    }
}

pub fn before_char_exec(s: &[char], c: char) -> (r: Vec<char>)
    ensures
        r@ == before_char(s@, c),
{
    match find_char_exec(s, c) {
        Some(i) => {
            proof {
                lemma_find_char(s@, c);
            }
            slice_of(s, 0, i)
        },
        None => slice_of(s, 0, s.len()),
    }
}

/// Splitting `s[0..n)` at the positions `cut` marks: each marked position ends a
/// piece and is itself dropped, as `str::split` does with a separator.
pub open spec fn split_prefix(s: Seq<char>, cut: spec_fn(int) -> bool, n: int) -> Seq<Seq<char>>
    decreases n,
{
    if n <= 0 {
        seq![Seq::<char>::empty()]
    } else {
        let prev = split_prefix(s, cut, n - 1);
        if cut(n - 1) {
            prev.push(Seq::<char>::empty())
        } else {
            prev.update(prev.len() - 1, prev.last().push(s[n - 1]))
        }
    }
}

pub proof fn lemma_split_prefix_nonempty(s: Seq<char>, cut: spec_fn(int) -> bool, n: int)
    ensures
        split_prefix(s, cut, n).len() >= 1,
    decreases n,
{
    if n > 0 {
        lemma_split_prefix_nonempty(s, cut, n - 1);
    }
}

/// Positions of `c`.
pub open spec fn cut_at_char(s: Seq<char>, c: char) -> spec_fn(int) -> bool {
    |i: int| s[i] == c
}

/// `str::split` with a `char` separator.
pub open spec fn split_char(s: Seq<char>, c: char) -> Seq<Seq<char>> {
    split_prefix(s, cut_at_char(s, c), s.len() as int)
}

pub fn split_char_exec(s: &[char], c: char) -> (r: Vec<Vec<char>>)
    ensures
        views(r@) == split_char(s@, c),
{
    let mut parts: Vec<Vec<char>> = Vec::new();
    let mut cur: Vec<char> = Vec::new();
    let mut i: usize = 0;
    while i < s.len()
        invariant
            i <= s@.len(),
            views(parts@).push(cur@) == split_prefix(s@, cut_at_char(s@, c), i as int),
        decreases s.len() - i,
    {
        let ghost prev = split_prefix(s@, cut_at_char(s@, c), i as int);
        proof {
            lemma_split_prefix_nonempty(s@, cut_at_char(s@, c), i as int);
        }
        if s[i] == c {
            let done = cur;
            parts.push(done);
            cur = Vec::new();
            proof {
                assert(views(parts@) =~= prev);
            }
        } else {
            cur.push(s[i]);
            proof {
                assert(views(parts@).push(cur@) =~= prev.update(
                    prev.len() - 1,
                    prev.last().push(s@[i as int]),
                ));
            }
        }
        i += 1;
    }
    let ghost before = views(parts@);
    parts.push(cur);
    proof {
        assert(views(parts@) =~= before.push(cur@));
    }
    parts
}

/// `(` and `[` open, `)` and `]` close: the nesting most splitters track.
pub open spec fn pb_delta(c: char) -> int {
    if c == '[' || c == '(' {
        1
    } else if c == ']' || c == ')' {
        -1
    } else {
        0
    }
}

/// Nesting depth of `(`/`[` before index `i`.
pub open spec fn depth_pb(s: Seq<char>, i: int) -> int
    decreases i,
{
    if i <= 0 {
        0
    } else {
        depth_pb(s, i - 1) + pb_delta(s[i - 1])
    }
}

/// Commas outside any `(...)`/`[...]`.
pub open spec fn top_comma_cut(s: Seq<char>) -> spec_fn(int) -> bool {
    |i: int| s[i] == ',' && depth_pb(s, i) == 0
}

/// The pieces of `s` between commas at bracket depth zero (untrimmed).
pub open spec fn split_top_commas(s: Seq<char>) -> Seq<Seq<char>> {
    split_prefix(s, top_comma_cut(s), s.len() as int)
}

pub proof fn lemma_depth_pb_bound(s: Seq<char>, i: int)
    requires
        0 <= i <= s.len(),
    ensures
        -i <= depth_pb(s, i) <= i,
    decreases i,
{
    if i > 0 {
        lemma_depth_pb_bound(s, i - 1);
    }
}

pub fn pb_delta_exec(c: char) -> (r: i64)
    ensures
        r == pb_delta(c),
{
    if c == '[' || c == '(' {
        1
    } else if c == ']' || c == ')' {
        -1
    } else {
        0
    }
}

/// Splits `s` at commas outside brackets; the pieces are not trimmed.
pub fn split_top_commas_exec(s: &[char]) -> (r: Vec<Vec<char>>)
    ensures
        views(r@) == split_top_commas(s@),
{
    let mut parts: Vec<Vec<char>> = Vec::new();
    let mut cur: Vec<char> = Vec::new();
    let mut depth: i128 = 0;
    let mut i: usize = 0;
    while i < s.len()
        invariant
            i <= s@.len(),
            depth == depth_pb(s@, i as int),
            views(parts@).push(cur@) == split_prefix(s@, top_comma_cut(s@), i as int),
        decreases s.len() - i,
    {
        let ghost prev = split_prefix(s@, top_comma_cut(s@), i as int);
        proof {
            lemma_split_prefix_nonempty(s@, top_comma_cut(s@), i as int);
            lemma_depth_pb_bound(s@, i as int);
        }
        let c = s[i];
        if c == ',' && depth == 0 {
            let done = cur;
            parts.push(done);
            cur = Vec::new();
            proof {
                assert(views(parts@) =~= prev);
            }
        } else {
            cur.push(c);
            proof {
                assert(views(parts@).push(cur@) =~= prev.update(
                    prev.len() - 1,
                    prev.last().push(s@[i as int]),
                ));
            }
        }
        depth = depth + pb_delta_exec(c) as i128;
        i += 1;
    }
    let ghost before = views(parts@);
    parts.push(cur);
    proof {
        assert(views(parts@) =~= before.push(cur@));
    }
    parts
}

/// Each piece trimmed.
pub open spec fn trim_all(ps: Seq<Seq<char>>) -> Seq<Seq<char>> {
    ps.map_values(|p: Seq<char>| trim(p))
}

pub fn trim_all_exec(ps: &Vec<Vec<char>>) -> (r: Vec<Vec<char>>)
    ensures
        views(r@) == trim_all(views(ps@)),
{
    let mut v: Vec<Vec<char>> = Vec::new();
    let mut i: usize = 0;
    while i < ps.len()
        invariant
            i <= ps@.len(),
            views(v@) == trim_all(views(ps@).take(i as int)),
        decreases ps.len() - i,
    {
        let t = trim_chars(ps[i].as_slice());
        let ghost before = views(v@);
        v.push(t);
        proof {
            assert(views(v@) =~= before.push(t@));
            assert(trim_all(views(ps@).take(i + 1)) =~= trim_all(views(ps@).take(i as int)).push(
                trim(ps@[i as int]@),
            ));
        }
        i += 1;
    }
    proof {
        assert(views(ps@).take(i as int) =~= views(ps@));
    }
    v
}

/// `(`, `[`, `{` open; `)`, `]`, `}` close.
pub open spec fn pbb_delta(c: char) -> int {
    if c == '[' || c == '(' || c == '{' {
        1
    } else if c == ']' || c == ')' || c == '}' {
        -1
    } else {
        0
    }
}

/// Nesting depth of all three bracket kinds before index `i`.
pub open spec fn depth_pbb(s: Seq<char>, i: int) -> int
    decreases i,
{
    if i <= 0 {
        0
    } else {
        depth_pbb(s, i - 1) + pbb_delta(s[i - 1])
    }
}

pub proof fn lemma_depth_pbb_bound(s: Seq<char>, i: int)
    requires
        0 <= i <= s.len(),
    ensures
        -i <= depth_pbb(s, i) <= i,
    decreases i,
{
    if i > 0 {
        lemma_depth_pbb_bound(s, i - 1);
    }
}

/// Commas outside any bracket of the three kinds.
pub open spec fn top_comma_cut_all(s: Seq<char>) -> spec_fn(int) -> bool {
    |i: int| s[i] == ',' && depth_pbb(s, i) == 0
}

/// The pieces of `s` between commas outside all brackets (untrimmed; the last
/// piece is always there).
pub open spec fn split_top_commas_all(s: Seq<char>) -> Seq<Seq<char>> {
    split_prefix(s, top_comma_cut_all(s), s.len() as int)
}

/// The pieces joined back with `c` between neighbours.
pub open spec fn join_with(parts: Seq<Seq<char>>, c: char) -> Seq<char>
    decreases parts.len(),
{
    if parts.len() == 0 {
        Seq::empty()
    } else if parts.len() == 1 {
        parts[0]
    } else {
        join_with(parts.drop_last(), c).push(c) + parts.last()
    }
}

/// The number of positions below `n` that `p` marks.
pub open spec fn count_where(p: spec_fn(int) -> bool, n: int) -> nat
    decreases n,
{
    if n <= 0 {
        0
    } else {
        count_where(p, n - 1) + if p(n - 1) {
            1nat
        } else {
            0nat
        }
    }
}

proof fn lemma_join_extend_last(ps: Seq<Seq<char>>, c: char, x: char)
    requires
        ps.len() >= 1,
    ensures
        join_with(ps.update(ps.len() - 1, ps.last().push(x)), c) == join_with(ps, c).push(x),
{
    let qs = ps.update(ps.len() - 1, ps.last().push(x));
    if ps.len() > 1 {
        assert(qs.drop_last() =~= ps.drop_last());
        assert(join_with(ps, c).push(x) =~= join_with(ps.drop_last(), c).push(c) + ps.last().push(x));
    }
}

/// Splitting at marked positions that all hold `c`, then joining with `c`,
/// gives back the text; there is one piece more than marked positions.
pub proof fn lemma_split_prefix_join(s: Seq<char>, cut: spec_fn(int) -> bool, c: char, n: int)
    requires
        0 <= n <= s.len(),
        forall|i: int| 0 <= i < n && #[trigger] cut(i) ==> s[i] == c,
    ensures
        join_with(split_prefix(s, cut, n), c) == s.take(n),
        split_prefix(s, cut, n).len() == 1 + count_where(cut, n),
    decreases n,
{
    if n == 0 {
        assert(s.take(0) =~= Seq::<char>::empty());
    } else {
        lemma_split_prefix_join(s, cut, c, n - 1);
        lemma_split_prefix_nonempty(s, cut, n - 1);
        let prev = split_prefix(s, cut, n - 1);
        if cut(n - 1) {
            let cur = prev.push(Seq::<char>::empty());
            assert(cur.drop_last() =~= prev);
            assert(s.take(n) =~= s.take(n - 1).push(c) + Seq::<char>::empty());
        } else {
            lemma_join_extend_last(prev, c, s[n - 1]);
            assert(s.take(n) =~= s.take(n - 1).push(s[n - 1]));
        }
    }
}

/// Joining the pieces of `split_top_level_commas` with `,` gives back the
/// text, and there is one piece more than there are commas outside all
/// brackets.
pub proof fn law_split_top_level_commas(s: Seq<char>)
    ensures
        split_top_commas_all(s).len() >= 1,
        join_with(split_top_commas_all(s), ',') == s,
        split_top_commas_all(s).len() == 1 + count_where(top_comma_cut_all(s), s.len() as int),
{
    lemma_split_prefix_nonempty(s, top_comma_cut_all(s), s.len() as int);
    lemma_split_prefix_join(s, top_comma_cut_all(s), ',', s.len() as int);
    assert(s.take(s.len() as int) =~= s);
}

/// A run of unmarked positions from `m` to `n` only extends the last piece.
pub proof fn lemma_split_prefix_run(s: Seq<char>, cut: spec_fn(int) -> bool, m: int, n: int)
    requires
        0 <= m <= n <= s.len(),
        forall|j: int| m <= j < n ==> !#[trigger] cut(j),
    ensures
        split_prefix(s, cut, n) == split_prefix(s, cut, m).update(
            split_prefix(s, cut, m).len() - 1,
            split_prefix(s, cut, m).last() + s.subrange(m, n),
        ),
    decreases n,
{
    let pm = split_prefix(s, cut, m);
    lemma_split_prefix_nonempty(s, cut, m);
    if n == m {
        assert(pm.last() + s.subrange(m, n) =~= pm.last());
        assert(pm.update(pm.len() - 1, pm.last()) =~= pm);
    } else {
        lemma_split_prefix_run(s, cut, m, n - 1);
        let prev = split_prefix(s, cut, n - 1);
        assert(prev.last() == pm.last() + s.subrange(m, n - 1));
        assert(pm.last() + s.subrange(m, n) =~= (pm.last() + s.subrange(m, n - 1)).push(s[n - 1]));
        assert(prev.update(prev.len() - 1, prev.last().push(s[n - 1])) =~= pm.update(
            pm.len() - 1,
            pm.last() + s.subrange(m, n),
        ));
    }
}

/// `split_top_level_commas`: splits at commas outside `()`, `[]` and `{}`; the
/// pieces keep their spaces and the last one is always included.
pub fn split_top_level_commas(s: &[char]) -> (r: Vec<Vec<char>>)
    ensures
        views(r@) == split_top_commas_all(s@),
{
    let mut parts: Vec<Vec<char>> = Vec::new();
    let mut cur: Vec<char> = Vec::new();
    let mut depth: i128 = 0;
    let mut i: usize = 0;
    while i < s.len()
        invariant
            i <= s@.len(),
            depth == depth_pbb(s@, i as int),
            views(parts@).push(cur@) == split_prefix(s@, top_comma_cut_all(s@), i as int),
        decreases s.len() - i,
    {
        let ghost prev = split_prefix(s@, top_comma_cut_all(s@), i as int);
        proof {
            lemma_split_prefix_nonempty(s@, top_comma_cut_all(s@), i as int);
            lemma_depth_pbb_bound(s@, i as int);
        }
        let c = s[i];
        if c == ',' && depth == 0 {
            let done = cur;
            parts.push(done);
            cur = Vec::new();
            proof {
                assert(views(parts@) =~= prev);
            }
        } else {
            cur.push(c);
            proof {
                assert(views(parts@).push(cur@) =~= prev.update(
                    prev.len() - 1,
                    prev.last().push(s@[i as int]),
                ));
            }
        }
        if c == '[' || c == '(' || c == '{' {
            depth = depth + 1;
        } else if c == ']' || c == ')' || c == '}' {
            depth = depth - 1;
        }
        i += 1;
    }
    let ghost before = views(parts@);
    parts.push(cur);
    proof {
        assert(views(parts@) =~= before.push(cur@));
    }
    parts
}

/// The first index below `n` where `p` holds.
pub open spec fn first_where(p: spec_fn(int) -> bool, n: int) -> Option<int>
    decreases n,
{
    if n <= 0 {
        None
    } else {
        match first_where(p, n - 1) {
            Some(i) => Some(i),
            None => if p(n - 1) {
                Some(n - 1)
            } else {
                None
            },
        }
    }
}

pub proof fn lemma_first_where_none(p: spec_fn(int) -> bool, n: int)
    requires
        0 <= n,
    ensures
        first_where(p, n) is None <==> forall|j: int| 0 <= j < n ==> !#[trigger] p(j),
    decreases n,
{
    if n > 0 {
        lemma_first_where_none(p, n - 1);
    }
}

pub proof fn lemma_first_where_some(p: spec_fn(int) -> bool, n: int)
    requires
        0 <= n,
    ensures
        first_where(p, n) matches Some(i) ==> 0 <= i < n && p(i) && forall|j: int|
            0 <= j < i ==> !#[trigger] p(j),
    decreases n,
{
    if n > 0 {
        lemma_first_where_some(p, n - 1);
        lemma_first_where_none(p, n - 1);
    }
}

/// The first place where `p` holds, when it is `i`.
pub proof fn lemma_first_where_at(p: spec_fn(int) -> bool, i: int, n: int)
    requires
        0 <= i < n,
        p(i),
        forall|j: int| 0 <= j < i ==> !#[trigger] p(j),
    ensures
        first_where(p, n) == Some(i),
    decreases n,
{
    if n > i + 1 {
        lemma_first_where_at(p, i, n - 1);
    } else {
        lemma_first_where_none(p, i);
    }
}

// ---------------------------------------------------------------------------
// Lines
// ---------------------------------------------------------------------------

/// Drops one trailing `'\r'`.
pub open spec fn strip_cr(s: Seq<char>) -> Seq<char> {
    if s.len() > 0 && s.last() == '\r' {
        s.drop_last()
    } else {
        s
    }
}

/// `str::lines`: pieces between `'\n'`, each without a `"\r\n"` ending; a final
/// line ending yields no extra empty line.
pub open spec fn lines(s: Seq<char>) -> Seq<Seq<char>>
    decreases s.len(),
{
    if s.len() == 0 {
        Seq::empty()
    } else {
        match find_char(s, '\n') {
            None => seq![s],
            Some(i) => {
                proof {
                    lemma_find_char(s, '\n');
                }
                seq![strip_cr(s.take(i))] + lines(s.skip(i + 1))
            },
        }
    }
}

pub proof fn lemma_lines_step(s: Seq<char>, i: int)
    requires
        0 <= i < s.len(),
        s[i] == '\n',
        forall|j: int| 0 <= j < i ==> s[j] != '\n',
    ensures
        lines(s) == seq![strip_cr(s.take(i))] + lines(s.skip(i + 1)),
{
    lemma_find_char_at(s, '\n', i);
}

pub fn strip_cr_exec(s: Vec<char>) -> (r: Vec<char>)
    ensures
        r@ == strip_cr(s@),
{
    let mut s = s;
    if s.len() > 0 && s[s.len() - 1] == '\r' {
        s.pop();
    }
    s
}

pub fn lines_exec(s: &[char]) -> (r: Vec<Vec<char>>)
    ensures
        views(r@) == lines(s@),
{
    let mut out: Vec<Vec<char>> = Vec::new();
    let mut start: usize = 0;
    let mut i: usize = 0;
    proof {
        assert(s@.skip(0) =~= s@);
        assert(views(out@) + lines(s@) =~= lines(s@));
    }
    while i < s.len()
        invariant
            start <= i <= s@.len(),
            forall|j: int| start <= j < i ==> s@[j] != '\n',
            lines(s@) == views(out@) + lines(s@.skip(start as int)),
        decreases s.len() - i,
    {
        if s[i] == '\n' {
            let ghost rest = s@.skip(start as int);
            proof {
                lemma_lines_step(rest, i - start);
                assert(rest.take(i - start) =~= s@.subrange(start as int, i as int));
                assert(rest.skip(i - start + 1) =~= s@.skip(i + 1));
            }
            let piece = slice_of(s, start, i);
            let piece = strip_cr_exec(piece);
            let ghost before = views(out@);
            out.push(piece);
            start = i + 1;
            proof {
                assert(views(out@) =~= before.push(piece@));
                assert(before + (seq![piece@] + lines(s@.skip(start as int))) =~= before.push(
                    piece@,
                ) + lines(s@.skip(start as int)));
                assert(lines(s@) == views(out@) + lines(s@.skip(start as int)));
            }
        }
        i += 1;
    }
    if start < s.len() {
        let ghost rest = s@.skip(start as int);
        proof {
            lemma_find_char(rest, '\n');
            assert(lines(rest) == seq![rest]);
        }
        let piece = slice_of(s, start, s.len());
        let ghost before = views(out@);
        out.push(piece);
        proof {
            assert(views(out@) =~= before.push(piece@));
            assert(piece@ =~= rest);
            assert(lines(s@) =~= views(out@));
        }
    } else {
        proof {
            assert(lines(s@.skip(start as int)) =~= Seq::<Seq<char>>::empty());
            assert(lines(s@) =~= views(out@));
        }
    }
    out
}

} // verus!
