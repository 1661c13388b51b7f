//! Walks of the class hierarchy that constructor checks use: base names,
//! subclassing, named tuples and where `__init__` comes from; and the type
//! compatibility of a constructor argument.
use vstd::prelude::*;

use crate::module::copy_text;
use crate::names::contains_name;
use crate::text::{
    before_char, before_char_exec, contains_char, contains_char_exec, cut_at_char, eq_chars, eq_str,
    lemma_find_char,
    lemma_split_prefix_nonempty, lemma_trim_end_is_prefix, lemma_trim_start_is_suffix, split_char,
    split_char_exec, split_prefix, trim, trim_chars, trim_start, views,
};

verus! {

/// A class as the hierarchy walks read it.
pub struct HierarchyClass {
    pub name: Vec<char>,
    /// The base expressions, as written.
    pub bases: Vec<Vec<char>>,
    /// The names of the subscripted bases.
    pub base_subscript_names: Vec<Vec<char>>,
}

/// The bases, each cut before its `[`, in order.
pub open spec fn cut_bases(bs: Seq<Seq<char>>) -> Seq<Seq<char>> {
    bs.map_values(|b: Seq<char>| before_char(b, '['))
}

/// `all_base_names`: the cut bases, then each subscripted base name not yet
/// listed.
pub open spec fn base_names(c: HierarchyClass) -> Seq<Seq<char>> {
    crate::names::add_all(cut_bases(views(c.bases@)), views(c.base_subscript_names@))
}

/// The names of the class's bases, in order.
pub fn all_base_names(c: &HierarchyClass) -> (r: Vec<Vec<char>>)
    ensures
        views(r@) == base_names(*c),
{
    let mut names: Vec<Vec<char>> = Vec::new();
    let mut i: usize = 0;
    while i < c.bases.len()
        invariant
            i <= c.bases@.len(),
            views(names@) == cut_bases(views(c.bases@)).take(i as int),
        decreases c.bases.len() - i,
    {
        let ghost before = views(names@);
        let b = before_char_exec(c.bases[i].as_slice(), '[');
        let ghost bv = b@;
        names.push(b);
        proof {
            assert(views(names@) =~= before.push(bv));
            assert(views(names@) =~= cut_bases(views(c.bases@)).take(i + 1));
        }
        i += 1;
    }
    proof {
        assert(cut_bases(views(c.bases@)).take(i as int) =~= cut_bases(views(c.bases@)));
    }
    crate::names::insert_all(&mut names, &c.base_subscript_names);
    names
}

/// The class a name looks up: the last of that name.
pub open spec fn class_at(cs: Seq<HierarchyClass>, name: Seq<char>) -> Option<int>
    decreases cs.len(),
{
    if cs.len() == 0 {
        None
    } else if cs.last().name@ == name {
        Some(cs.len() - 1)
    } else {
        class_at(cs.drop_last(), name)
    }
}

pub proof fn lemma_class_at(cs: Seq<HierarchyClass>, name: Seq<char>)
    ensures
        class_at(cs, name) matches Some(i) ==> 0 <= i < cs.len() && cs[i].name@ == name,
    decreases cs.len(),
{
    if cs.len() > 0 {
        lemma_class_at(cs.drop_last(), name);
    }
}

pub fn find_class_at(cs: &Vec<HierarchyClass>, name: &[char]) -> (r: Option<usize>)
    ensures
        match r {
            Some(k) => k < cs@.len() && class_at(cs@, name@) == Some(k as int),
            None => class_at(cs@, name@) is None,
        },
{
    let mut i: usize = cs.len();
    assert(cs@.take(i as int) =~= cs@);
    while i > 0
        invariant
            i <= cs@.len(),
            class_at(cs@, name@) == class_at(cs@.take(i as int), name@),
        decreases i,
    {
        proof {
            assert(cs@.take(i as int).drop_last() =~= cs@.take(i - 1));
            assert(cs@.take(i as int).last() == cs@[i - 1]);
        }
        if eq_chars(cs[i - 1].name.as_slice(), name) {
            return Some(i - 1);
        }
        i -= 1;
    }
    None
}

/// The walk from the class named `x` through base names ends within `n`
/// steps.
pub open spec fn walk_ends(cs: Seq<HierarchyClass>, x: Seq<char>, n: nat) -> bool
    decreases n, 0int,
{
    match class_at(cs, x) {
        None => true,
        Some(i) => n > 0 && all_walk_ends(cs, base_names(cs[i]), (n - 1) as nat),
    }
}

pub open spec fn all_walk_ends(cs: Seq<HierarchyClass>, bs: Seq<Seq<char>>, m: nat) -> bool
    decreases m, bs.len(),
{
    bs.len() == 0 || (all_walk_ends(cs, bs.drop_last(), m) && walk_ends(cs, bs.last(), m))
}

/// No class is its own ancestor through base names: the walk from every
/// class ends within as many steps as there are classes.
pub open spec fn hierarchy_acyclic(cs: Seq<HierarchyClass>) -> bool {
    forall|i: int| 0 <= i < cs.len() ==> walk_ends(cs, #[trigger] cs[i].name@, cs.len())
}

proof fn lemma_all_walk_ends(cs: Seq<HierarchyClass>, bs: Seq<Seq<char>>, m: nat, k: int)
    requires
        all_walk_ends(cs, bs, m),
        0 <= k < bs.len(),
    ensures
        walk_ends(cs, bs[k], m),
    decreases bs.len(),
{
    if k < bs.len() - 1 {
        assert(bs.drop_last()[k] == bs[k]);
        lemma_all_walk_ends(cs, bs.drop_last(), m, k);
    }
}

proof fn lemma_walk_start(cs: Seq<HierarchyClass>, x: Seq<char>)
    requires
        hierarchy_acyclic(cs),
    ensures
        walk_ends(cs, x, cs.len()),
{
    lemma_class_at(cs, x);
    if let Some(i) = class_at(cs, x) {
        assert(walk_ends(cs, cs[i].name@, cs.len()));
    }
}

/// `is_subclass` within `n` steps: some base name of the class named `x` is
/// `t` or leads to it.
pub open spec fn sub_steps(cs: Seq<HierarchyClass>, x: Seq<char>, t: Seq<char>, n: nat) -> bool
    decreases n, 0int,
{
    match class_at(cs, x) {
        None => false,
        Some(i) => n > 0 && any_sub(cs, base_names(cs[i]), t, (n - 1) as nat),
    }
}

pub open spec fn any_sub(cs: Seq<HierarchyClass>, bs: Seq<Seq<char>>, t: Seq<char>, m: nat) -> bool
    decreases m, bs.len(),
{
    bs.len() > 0 && (any_sub(cs, bs.drop_last(), t, m) || bs.last() == t || sub_steps(cs, bs.last(), t, m))
}

/// `is_subclass`: `t` is reached from the class named `x` along base names.
pub open spec fn subclass_of(cs: Seq<HierarchyClass>, x: Seq<char>, t: Seq<char>) -> bool {
    sub_steps(cs, x, t, cs.len())
}

proof fn lemma_any_sub_prefix(cs: Seq<HierarchyClass>, bs: Seq<Seq<char>>, t: Seq<char>, m: nat, k: int)
    requires
        0 <= k <= bs.len(),
        any_sub(cs, bs.take(k), t, m),
    ensures
        any_sub(cs, bs, t, m),
    decreases bs.len() - k,
{
    if k < bs.len() {
        assert(bs.take(k + 1).drop_last() =~= bs.take(k));
        lemma_any_sub_prefix(cs, bs, t, m, k + 1);
    } else {
        assert(bs.take(k) =~= bs);
    }
}

fn is_subclass_steps(
    x: &[char],
    t: &[char],
    cs: &Vec<HierarchyClass>,
    Ghost(n): Ghost<nat>,
) -> (r: bool)
    requires
        walk_ends(cs@, x@, n),
    ensures
        r == sub_steps(cs@, x@, t@, n),
    decreases n,
{
    match find_class_at(cs, x) {
        None => false,
        Some(i) => {
            let bs = all_base_names(&cs[i]);
            let ghost bv = views(bs@);
            proof {
                assert(bv.take(0) =~= Seq::<Seq<char>>::empty());
            }
            let mut j: usize = 0;
            while j < bs.len()
                invariant
                    j <= bs@.len(),
                    n > 0,
                    i < cs@.len(),
                    class_at(cs@, x@) == Some(i as int),
                    bv == views(bs@),
                    bv == base_names(cs@[i as int]),
                    all_walk_ends(cs@, bv, (n - 1) as nat),
                    !any_sub(cs@, bv.take(j as int), t@, (n - 1) as nat),
                decreases bs.len() - j,
            {
                proof {
                    assert(bv.take(j + 1).drop_last() =~= bv.take(j as int));
                    assert(bv.take(j + 1).last() == bs@[j as int]@);
                    lemma_all_walk_ends(cs@, bv, (n - 1) as nat, j as int);
                }
                if eq_chars(bs[j].as_slice(), t) || is_subclass_steps(
                    bs[j].as_slice(),
                    t,
                    cs,
                    Ghost((n - 1) as nat),
                ) {
                    proof {
                        lemma_any_sub_prefix(cs@, bv, t@, (n - 1) as nat, j + 1);
                    }
                    return true;
                }
                j += 1;
            }
            proof {
                assert(bv.take(j as int) =~= bv);
            }
            false
        },
    }
}

/// `is_subclass`. The walk follows base names, so the hierarchy must be free
/// of cycles.
pub fn is_subclass(class_name: &[char], base_name: &[char], cs: &Vec<HierarchyClass>) -> (r: bool)
    requires
        hierarchy_acyclic(cs@),
    ensures
        r == subclass_of(cs@, class_name@, base_name@),
{
    proof {
        lemma_walk_start(cs@, class_name@);
    }
    is_subclass_steps(class_name, base_name, cs, Ghost(cs@.len()))
}

/// `is_namedtuple_class` within `n` steps: `NamedTuple` is among the base
/// names of the class, or of a class they name.
pub open spec fn nt_steps(cs: Seq<HierarchyClass>, bs: Seq<Seq<char>>, n: nat) -> bool
    decreases n, bs.len(),
{
    bs.len() > 0 && (nt_steps(cs, bs.drop_last(), n) || bs.last() == "NamedTuple"@ || match class_at(
        cs,
        bs.last(),
    ) {
        Some(k) => n > 0 && nt_steps(cs, base_names(cs[k]), (n - 1) as nat),
        None => false,
    })
}

/// Whether the class derives from `NamedTuple`, directly or through classes of the module.
pub open spec fn namedtuple_class(cs: Seq<HierarchyClass>, c: HierarchyClass) -> bool {
    nt_steps(cs, base_names(c), cs.len())
}

proof fn lemma_nt_prefix(cs: Seq<HierarchyClass>, bs: Seq<Seq<char>>, n: nat, k: int)
    requires
        0 <= k <= bs.len(),
        nt_steps(cs, bs.take(k), n),
    ensures
        nt_steps(cs, bs, n),
    decreases bs.len() - k,
{
    if k < bs.len() {
        assert(bs.take(k + 1).drop_last() =~= bs.take(k));
        lemma_nt_prefix(cs, bs, n, k + 1);
    } else {
        assert(bs.take(k) =~= bs);
    }
}

fn namedtuple_steps(bs: &Vec<Vec<char>>, cs: &Vec<HierarchyClass>, Ghost(n): Ghost<nat>) -> (r: bool)
    requires
        all_walk_ends(cs@, views(bs@), n),
    ensures
        r == nt_steps(cs@, views(bs@), n),
    decreases n,
{
    let ghost bv = views(bs@);
    proof {
        assert(bv.take(0) =~= Seq::<Seq<char>>::empty());
    }
    let mut j: usize = 0;
    while j < bs.len()
        invariant
            j <= bs@.len(),
            bv == views(bs@),
            all_walk_ends(cs@, bv, n),
            !nt_steps(cs@, bv.take(j as int), n),
        decreases bs.len() - j,
    {
        proof {
            assert(bv.take(j + 1).drop_last() =~= bv.take(j as int));
            assert(bv.take(j + 1).last() == bs@[j as int]@);
            lemma_all_walk_ends(cs@, bv, n, j as int);
        }
        if eq_str(bs[j].as_slice(), "NamedTuple") {
            proof {
                lemma_nt_prefix(cs@, bv, n, j + 1);
            }
            return true;
        }
        if let Some(k) = find_class_at(cs, bs[j].as_slice()) {
            let inner = all_base_names(&cs[k]);
            proof {
                assert(walk_ends(cs@, bv[j as int], n));
                assert(n > 0);
            }
            if namedtuple_steps(&inner, cs, Ghost((n - 1) as nat)) {
                proof {
                    lemma_nt_prefix(cs@, bv, n, j + 1);
                }
                return true;
            }
        }
        j += 1;
    }
    proof {
        assert(bv.take(j as int) =~= bv);
    }
    false
}

/// `is_namedtuple_class`. The walk follows base names, so it must end: no
/// class reached from `c` may be its own ancestor.
pub fn is_namedtuple_class(c: &HierarchyClass, cs: &Vec<HierarchyClass>) -> (r: bool)
    requires
        all_walk_ends(cs@, base_names(*c), cs@.len()),
    ensures
        r == namedtuple_class(cs@, *c),
{
    let bs = all_base_names(c);
    namedtuple_steps(&bs, cs, Ghost(cs@.len()))
}

// ---------------------------------------------------------------------------
// Constructor argument types
// ---------------------------------------------------------------------------

/// The compatibilities that need no union: equal types, `Any` and `object`
/// parameters, and the numeric tower.
pub open spec fn simple_compatible(arg: Seq<char>, param: Seq<char>) -> bool {
    ||| arg == param
    ||| param == "Any"@ || param == "object"@
    ||| param == "int"@ && arg == "bool"@
    ||| param == "float"@ && (arg == "int"@ || arg == "bool"@)
    ||| param == "complex"@ && (arg == "int"@ || arg == "float"@ || arg == "bool"@)
}

/// `is_type_compatible`: compatible without a union, or with one of the
/// trimmed members of a `|` union.
pub open spec fn arg_compatible(arg: Seq<char>, param: Seq<char>) -> bool {
    simple_compatible(arg, param) || (contains_char(param, '|') && exists|k: int|
        0 <= k < split_char(param, '|').len() && simple_compatible(
            arg,
            trim(#[trigger] split_char(param, '|')[k]),
        ))
}

/// Occurrences of `c` in `s[0..n)`.
pub open spec fn count_char(s: Seq<char>, c: char, n: int) -> int
    decreases n,
{
    if n <= 0 {
        0
    } else {
        count_char(s, c, n - 1) + if s[n - 1] == c {
            1int
        } else {
            0int
        }
    }
}

proof fn lemma_split_pieces(s: Seq<char>, c: char, n: int)
    requires
        0 <= n <= s.len(),
    ensures
        forall|k: int|
            0 <= k < split_prefix(s, cut_at_char(s, c), n).len() ==> !contains_char(
                #[trigger] split_prefix(s, cut_at_char(s, c), n)[k],
                c,
            ) && split_prefix(s, cut_at_char(s, c), n)[k].len() <= n - count_char(s, c, n),
        0 <= count_char(s, c, n) <= n,
    decreases n,
{
    lemma_split_prefix_nonempty(s, cut_at_char(s, c), n);
    if n > 0 {
        lemma_split_pieces(s, c, n - 1);
        lemma_split_prefix_nonempty(s, cut_at_char(s, c), n - 1);
        let prev = split_prefix(s, cut_at_char(s, c), n - 1);
        let cur = split_prefix(s, cut_at_char(s, c), n);
        if s[n - 1] == c {
            assert(cur == prev.push(Seq::<char>::empty()));
            assert forall|k: int| 0 <= k < cur.len() implies !contains_char(#[trigger] cur[k], c)
                && cur[k].len() <= n - count_char(s, c, n) by {
                if k < prev.len() {
                    assert(cur[k] == prev[k]);
                } else {
                    assert(cur[k] =~= Seq::<char>::empty());
                    lemma_find_char(Seq::<char>::empty(), c);
                }
            }
        } else {
            let last = prev.last().push(s[n - 1]);
            assert(cur == prev.update(prev.len() - 1, last));
            assert forall|k: int| 0 <= k < cur.len() implies !contains_char(#[trigger] cur[k], c)
                && cur[k].len() <= n - count_char(s, c, n) by {
                if k < prev.len() - 1 {
                    assert(cur[k] == prev[k]);
                } else {
                    assert(cur[k] == last);
                    assert(!contains_char(prev[prev.len() - 1], c));
                    lemma_find_char(prev[prev.len() - 1], c);
                    lemma_find_char(last, c);
                    assert forall|j: int| 0 <= j < last.len() implies last[j] != c by {
                        if j < last.len() - 1 {
                            assert(last[j] == prev[prev.len() - 1][j]);
                        }
                    }
                }
            }
        }
    }
}

proof fn lemma_count_char_pos(s: Seq<char>, c: char, n: int, j: int)
    requires
        0 <= j < n <= s.len(),
        s[j] == c,
    ensures
        count_char(s, c, n) >= 1,
    decreases n,
{
    if j < n - 1 {
        lemma_count_char_pos(s, c, n - 1, j);
        lemma_count_nonneg(s, c, n - 1);
    } else {
        lemma_count_nonneg(s, c, n - 1);
    }
}

proof fn lemma_count_nonneg(s: Seq<char>, c: char, n: int)
    ensures
        count_char(s, c, n) >= 0,
    decreases n,
{
    if n > 0 {
        lemma_count_nonneg(s, c, n - 1);
    }
}

/// The pieces of a split at `c` hold no `c`; when `s` holds one, each piece
/// is shorter than `s`.
proof fn lemma_split_char_parts(s: Seq<char>, c: char, k: int)
    requires
        0 <= k < split_char(s, c).len(),
    ensures
        !contains_char(split_char(s, c)[k], c),
        contains_char(s, c) ==> split_char(s, c)[k].len() < s.len(),
{
    lemma_split_pieces(s, c, s.len() as int);
    lemma_find_char(s, c);
    if contains_char(s, c) {
        let j = choose|j: int| 0 <= j < s.len() && s[j] == c;
        lemma_count_char_pos(s, c, s.len() as int, j);
    }
}

/// Trimming only removes characters: a text free of `c` stays so, and does
/// not grow.
proof fn lemma_trim_keeps_out(s: Seq<char>, c: char)
    requires
        !contains_char(s, c),
    ensures
        !contains_char(trim(s), c),
        trim(s).len() <= s.len(),
{
    lemma_trim_start_is_suffix(s);
    lemma_trim_end_is_prefix(trim_start(s));
    let t = trim_start(s);
    lemma_find_char(s, c);
    lemma_find_char(trim(s), c);
    assert forall|j: int| 0 <= j < trim(s).len() implies trim(s)[j] != c by {
        assert(trim(s)[j] == t[j]);
        assert(t[j] == s[s.len() - t.len() + j]);
    }
}

/// Whether an argument type text is compatible with a parameter type text, directly or with one member of a `|` union.
pub fn is_type_compatible(arg: &[char], param: &[char]) -> (r: bool)
    ensures
        r == arg_compatible(arg@, param@),
    decreases param@.len(),
{
    if eq_chars(arg, param) {
        return true;
    }
    if eq_str(param, "Any") || eq_str(param, "object") {
        return true;
    }
    if eq_str(param, "int") && eq_str(arg, "bool") {
        return true;
    }
    if eq_str(param, "float") && (eq_str(arg, "int") || eq_str(arg, "bool")) {
        return true;
    }
    if eq_str(param, "complex") && (eq_str(arg, "int") || eq_str(arg, "float") || eq_str(arg, "bool")) {
        return true;
    }
    if contains_char_exec(param, '|') {
        let parts = split_char_exec(param, '|');
        let mut k: usize = 0;
        while k < parts.len()
            invariant
                k <= parts@.len(),
                views(parts@) == split_char(param@, '|'),
                contains_char(param@, '|'),
                !simple_compatible(arg@, param@),
                forall|m: int| 0 <= m < k ==> !simple_compatible(arg@, trim(#[trigger] split_char(param@, '|')[m])),
            decreases parts.len() - k,
        {
            let part = trim_chars(parts[k].as_slice());
            proof {
                assert(split_char(param@, '|')[k as int] == parts@[k as int]@);
                lemma_split_char_parts(param@, '|', k as int);
                lemma_trim_keeps_out(parts@[k as int]@, '|');
                assert(!simple_compatible(arg@, trim(split_char(param@, '|')[k as int])) ==> !arg_compatible(
                    arg@,
                    part@,
                ));
            }
            if is_type_compatible(arg, part.as_slice()) {
                proof {
                    assert(simple_compatible(arg@, trim(split_char(param@, '|')[k as int])));
                }
                return true;
            }
            k += 1;
        }
        return false;
    }
    false
}

} // verus!

verus! {

/// The functions of a module as `(class, method)` names; a module-level
/// function has no class and never matches.
pub open spec fn method_keys(ms: Seq<(Vec<char>, Vec<char>)>) -> Seq<(Seq<char>, Seq<char>)> {
    ms.map_values(|m: (Vec<char>, Vec<char>)| (m.0@, m.1@))
}

/// The indices of the methods `name` of `class`, in order.
pub open spec fn methods_named(ks: Seq<(Seq<char>, Seq<char>)>, class: Seq<char>, name: Seq<char>) -> Seq<int>
    decreases ks.len(),
{
    if ks.len() == 0 {
        Seq::empty()
    } else if ks.last() == (class, name) {
        methods_named(ks.drop_last(), class, name).push(ks.len() - 1)
    } else {
        methods_named(ks.drop_last(), class, name)
    }
}

pub fn find_methods(ms: &Vec<(Vec<char>, Vec<char>)>, class: &[char], name: &[char]) -> (r: Vec<usize>)
    ensures
        r@.map_values(|j: usize| j as int) == methods_named(method_keys(ms@), class@, name@),
{
    let ghost ks = method_keys(ms@);
    let mut out: Vec<usize> = Vec::new();
    let mut i: usize = 0;
    while i < ms.len()
        invariant
            i <= ms@.len(),
            ks == method_keys(ms@),
            out@.map_values(|j: usize| j as int) == methods_named(ks.take(i as int), class@, name@),
        decreases ms.len() - i,
    {
        proof {
            assert(ks.take(i + 1).drop_last() =~= ks.take(i as int));
            assert(ks.take(i + 1).last() == (ms@[i as int].0@, ms@[i as int].1@));
        }
        if eq_chars(ms[i].0.as_slice(), class) && eq_chars(ms[i].1.as_slice(), name) {
            let ghost before = out@.map_values(|j: usize| j as int);
            out.push(i);
            proof {
                assert(out@.map_values(|j: usize| j as int) =~= before.push(i as int));
            }
        }
        i += 1;
    }
    proof {
        assert(ks.take(i as int) =~= ks);
    }
    out
}

/// `object`, `Generic` and `Protocol` are passed over.
pub open spec fn trivial_base(b: Seq<char>) -> bool {
    b == "object"@ || b == "Generic"@ || b == "Protocol"@
}

/// `has_custom_init_in_bases` within `n` steps: a base (not a trivial one)
/// defines `__init__` or `__new__`, or leads to one that does.
pub open spec fn custom_init_steps(
    cs: Seq<HierarchyClass>,
    ks: Seq<(Seq<char>, Seq<char>)>,
    bs: Seq<Seq<char>>,
    n: nat,
) -> bool
    decreases n, bs.len(),
{
    bs.len() > 0 && (custom_init_steps(cs, ks, bs.drop_last(), n) || (!trivial_base(bs.last()) && (
    methods_named(ks, bs.last(), "__init__"@).len() > 0 || methods_named(ks, bs.last(), "__new__"@).len()
        > 0 || match class_at(cs, bs.last()) {
        Some(k) => n > 0 && custom_init_steps(cs, ks, base_names(cs[k]), (n - 1) as nat),
        None => false,
    })))
}

/// Whether a class of the module among the class's ancestors defines its own `__init__`.
pub open spec fn custom_init_in_bases(cs: Seq<HierarchyClass>, ks: Seq<(Seq<char>, Seq<char>)>, c: HierarchyClass) -> bool {
    custom_init_steps(cs, ks, base_names(c), cs.len())
}

proof fn lemma_custom_init_prefix(
    cs: Seq<HierarchyClass>,
    ks: Seq<(Seq<char>, Seq<char>)>,
    bs: Seq<Seq<char>>,
    n: nat,
    k: int,
)
    requires
        0 <= k <= bs.len(),
        custom_init_steps(cs, ks, bs.take(k), n),
    ensures
        custom_init_steps(cs, ks, bs, n),
    decreases bs.len() - k,
{
    if k < bs.len() {
        assert(bs.take(k + 1).drop_last() =~= bs.take(k));
        lemma_custom_init_prefix(cs, ks, bs, n, k + 1);
    } else {
        assert(bs.take(k) =~= bs);
    }
}

fn custom_init_walk(
    bs: &Vec<Vec<char>>,
    cs: &Vec<HierarchyClass>,
    ms: &Vec<(Vec<char>, Vec<char>)>,
    Ghost(n): Ghost<nat>,
) -> (r: bool)
    requires
        all_walk_ends(cs@, views(bs@), n),
    ensures
        r == custom_init_steps(cs@, method_keys(ms@), views(bs@), n),
    decreases n,
{
    let ghost bv = views(bs@);
    let ghost ks = method_keys(ms@);
    proof {
        assert(bv.take(0) =~= Seq::<Seq<char>>::empty());
    }
    let mut j: usize = 0;
    while j < bs.len()
        invariant
            j <= bs@.len(),
            bv == views(bs@),
            ks == method_keys(ms@),
            all_walk_ends(cs@, bv, n),
            !custom_init_steps(cs@, ks, bv.take(j as int), n),
        decreases bs.len() - j,
    {
        proof {
            assert(bv.take(j + 1).drop_last() =~= bv.take(j as int));
            assert(bv.take(j + 1).last() == bs@[j as int]@);
            lemma_all_walk_ends(cs@, bv, n, j as int);
            reveal_strlit("__init__");
            reveal_strlit("__new__");
        }
        let b = bs[j].as_slice();
        if !(eq_str(b, "object") || eq_str(b, "Generic") || eq_str(b, "Protocol")) {
            let init = crate::text::chars_of("__init__");
            let new = crate::text::chars_of("__new__");
            if find_methods(ms, b, init.as_slice()).len() > 0 || find_methods(ms, b, new.as_slice()).len()
                > 0 {
                proof {
                    lemma_custom_init_prefix(cs@, ks, bv, n, j + 1);
                }
                return true;
            }
            if let Some(k) = find_class_at(cs, b) {
                let inner = all_base_names(&cs[k]);
                proof {
                    assert(walk_ends(cs@, bv[j as int], n));
                }
                if custom_init_walk(&inner, cs, ms, Ghost((n - 1) as nat)) {
                    proof {
                        lemma_custom_init_prefix(cs@, ks, bv, n, j + 1);
                    }
                    return true;
                }
            }
        }
        j += 1;
    }
    proof {
        assert(bv.take(j as int) =~= bv);
    }
    false
}

/// `has_custom_init_in_bases`. The walk follows base names, so it must end:
/// no class reached from `c` may be its own ancestor.
pub fn has_custom_init_in_bases(c: &HierarchyClass, cs: &Vec<HierarchyClass>, ms: &Vec<(Vec<char>, Vec<char>)>) -> (r:
    bool)
    requires
        all_walk_ends(cs@, base_names(*c), cs@.len()),
    ensures
        r == custom_init_in_bases(cs@, method_keys(ms@), *c),
{
    let bs = all_base_names(c);
    custom_init_walk(&bs, cs, ms, Ghost(cs@.len()))
}

} // verus!

verus! {

proof fn lemma_no_char_at(s: Seq<char>, c: char, j: int)
    requires
        !contains_char(s, c),
        0 <= j < s.len(),
    ensures
        s[j] != c,
{
    lemma_find_char(s, c);
}

/// `p | q` with two plain members (non-empty, no `|`, no whitespace at
/// either end): an argument fits the union when it is the union's own text or
/// fits one of the members.
pub proof fn law_union_compatible(a: Seq<char>, p: Seq<char>, q: Seq<char>)
    requires
        p.len() > 0,
        q.len() > 0,
        !crate::text::is_ws(p[0]),
        !crate::text::is_ws(p.last()),
        !crate::text::is_ws(q[0]),
        !crate::text::is_ws(q.last()),
        !contains_char(p, '|'),
        !contains_char(q, '|'),
    ensures
        arg_compatible(a, p + seq![' ', '|', ' '] + q) == (a == p + seq![' ', '|', ' '] + q
            || arg_compatible(a, p) || arg_compatible(a, q)),
{
    let u = p + seq![' ', '|', ' '] + q;
    let l = p.len() as int;
    let cut = cut_at_char(u, '|');
    assert(u[l + 1] == '|');
    assert forall|j: int| 0 <= j < l + 1 implies !#[trigger] cut(j) by {
        if j < l {
            lemma_no_char_at(p, '|', j);
            assert(u[j] == p[j]);
        }
    }
    assert forall|j: int| l + 2 <= j < u.len() implies !#[trigger] cut(j) by {
        if j > l + 2 {
            lemma_no_char_at(q, '|', j - l - 3);
            assert(u[j] == q[j - l - 3]);
        }
    }
    crate::text::lemma_split_prefix_run(u, cut, 0, l + 1);
    assert(split_prefix(u, cut, 0) == seq![Seq::<char>::empty()]);
    let first = u.subrange(0, l + 1);
    assert(split_prefix(u, cut, l + 1) =~= seq![first]);
    assert(split_prefix(u, cut, l + 2) == seq![first].push(Seq::<char>::empty()));
    crate::text::lemma_split_prefix_run(u, cut, l + 2, u.len() as int);
    let second = u.subrange(l + 2, u.len() as int);
    let parts = split_char(u, '|');
    assert(parts =~= seq![first, second]);
    // the members, trimmed
    assert(first =~= p.push(' '));
    assert(second =~= seq![' '] + q);
    assert(trim_start(first) == first);
    assert(first.drop_last() =~= p);
    assert(crate::text::trim_end(first) == crate::text::trim_end(p));
    assert(crate::text::trim_end(p) == p);
    assert(trim(first) == p);
    assert(second.drop_first() =~= q);
    assert(trim_start(second) == trim_start(q));
    assert(trim_start(q) == q);
    assert(crate::text::trim_end(q) == q);
    assert(trim(second) == q);
    // the union itself
    lemma_find_char(u, '|');
    assert(contains_char(u, '|'));
    lemma_find_char(p, '|');
    lemma_find_char(q, '|');
    reveal_strlit("Any");
    reveal_strlit("object");
    reveal_strlit("int");
    reveal_strlit("float");
    reveal_strlit("complex");
    assert(u != "Any"@ && u != "object"@ && u != "int"@ && u != "float"@ && u != "complex"@) by {
        if u.len() == 3 || u.len() == 5 || u.len() == 6 || u.len() == 7 {
            assert(u[l + 1] == '|');
        }
    }
    if arg_compatible(a, u) && a != u {
        let k = choose|k: int| 0 <= k < parts.len() && simple_compatible(a, trim(#[trigger] parts[k]));
        assert(k == 0 || k == 1);
    }
    if arg_compatible(a, p) {
        assert(simple_compatible(a, trim(parts[0])));
    }
    if arg_compatible(a, q) {
        assert(simple_compatible(a, trim(parts[1])));
    }
}

} // verus!
