//! Constructor calls of the module's own classes: arguments to a class that
//! accepts none, `NamedTuple` argument counts, fields and types, unknown
//! dataclass fields, and the field types of a specialized generic
//! `NamedTuple`.
//!
//! A call is given by the parts the checks read: the callee (a class name, or
//! a class name subscripted with type arguments), and for each argument the
//! name of the type of the literal it is, where it is one. The classes are the
//! hierarchy's classes with, index by index, their constructor facts.
use vstd::prelude::*;

use crate::assoc::{assoc_find, assoc_get, assoc_insert, lemma_found_index};
use crate::generic_calls::pairs_view;
use crate::hierarchy::{
    all_base_names, all_walk_ends, base_names, class_at, custom_init_in_bases, cut_bases,
    find_class_at, find_methods, has_custom_init_in_bases, is_namedtuple_class, is_type_compatible,
    lemma_class_at, method_keys, methods_named, namedtuple_class, arg_compatible, walk_ends,
    HierarchyClass,
};
use crate::module::copy_text;
use crate::names::contains_name;
use crate::position::Span;
use crate::arity::was_were;
use crate::numbers::{decimal_nat, usize_to_decimal};
use crate::text::{
    before_char, before_char_exec, chars_of, count_where, eq_chars, first_where,
    lemma_first_where_at, lemma_first_where_none, trim, trim_chars, views, push_chars, push_lit,
};

verus! {

// ---------------------------------------------------------------------------
// Data
// ---------------------------------------------------------------------------

/// An attribute of a class body.
pub struct CtorAttr {
    pub name: Vec<char>,
    pub has_annotation: bool,
    pub has_value: bool,
    /// The annotation's source text, where it can be read.
    pub annotation: Option<Vec<char>>,
}

/// What the constructor checks know of a class beyond its bases.
pub struct CtorFacts {
    pub is_dataclass: bool,
    pub is_typed_dict: bool,
    pub generic_params: Vec<Vec<char>>,
    pub attributes: Vec<CtorAttr>,
}

/// What is called.
pub enum CtorCallee {
    /// `Class(...)`.
    Name { class: Vec<char> },
    /// `Class[T1, T2](...)`, with the trimmed source text of each type argument.
    Subscript { class: Vec<char>, type_args: Vec<Vec<char>> },
    Other,
}

/// A positional argument: the type of the literal it is, if it is one.
pub struct CtorArg {
    pub literal_type: Option<Vec<char>>,
    pub span: Span,
}

/// A keyword argument (`name` is `None` for `**kwargs`).
pub struct CtorKeyword {
    pub name: Option<Vec<char>>,
    pub literal_type: Option<Vec<char>>,
    pub span: Span,
}

/// A call expression.
pub struct CtorCall {
    pub callee: CtorCallee,
    pub args: Vec<CtorArg>,
    pub keywords: Vec<CtorKeyword>,
    pub span: Span,
}

/// What is wrong with a constructor call.
pub enum CtorFinding {
    /// The class takes no arguments (no `__init__` or `__new__` anywhere).
    NoInitWithArgs,
    /// More positional arguments than `NamedTuple` fields.
    TooManyArgs { accepted: usize, given: usize },
    /// Fewer arguments than `NamedTuple` fields without a default.
    TooFewArgs { required: usize, given: usize },
    /// A keyword that names no `NamedTuple` field.
    UnknownField { field: Vec<char> },
    /// A positional argument whose literal type does not fit its field.
    ArgType { index: usize, arg_type: Vec<char>, expected: Vec<char>, field: Vec<char> },
    /// A keyword argument whose literal type does not fit its field.
    KwargType { name: Vec<char>, arg_type: Vec<char>, expected: Vec<char> },
    /// A keyword that names no field of a dataclass or its bases.
    DataclassUnknownField { field: Vec<char> },
    /// As `ArgType`, after substituting the type arguments of `Class[...]`.
    GenericArgType { index: usize, arg_type: Vec<char>, expected: Vec<char>, field: Vec<char> },
}

pub enum FindingV {
    NoInitWithArgs,
    TooManyArgs(nat, nat),
    TooFewArgs(nat, nat),
    UnknownField(Seq<char>),
    ArgType(nat, Seq<char>, Seq<char>, Seq<char>),
    KwargType(Seq<char>, Seq<char>, Seq<char>),
    DataclassUnknownField(Seq<char>),
    GenericArgType(nat, Seq<char>, Seq<char>, Seq<char>),
}

pub open spec fn finding_view(f: CtorFinding) -> FindingV {
    match f {
        CtorFinding::NoInitWithArgs => FindingV::NoInitWithArgs,
        CtorFinding::TooManyArgs { accepted, given } => FindingV::TooManyArgs(accepted as nat, given as nat),
        CtorFinding::TooFewArgs { required, given } => FindingV::TooFewArgs(required as nat, given as nat),
        CtorFinding::UnknownField { field } => FindingV::UnknownField(field@),
        CtorFinding::ArgType { index, arg_type, expected, field } => FindingV::ArgType(
            index as nat,
            arg_type@,
            expected@,
            field@,
        ),
        CtorFinding::KwargType { name, arg_type, expected } => FindingV::KwargType(
            name@,
            arg_type@,
            expected@,
        ),
        CtorFinding::DataclassUnknownField { field } => FindingV::DataclassUnknownField(field@),
        CtorFinding::GenericArgType { index, arg_type, expected, field } => FindingV::GenericArgType(
            index as nat,
            arg_type@,
            expected@,
            field@,
        ),
    }
}

/// A finding on a call of the class `class`, at `span`.
pub struct CtorReport {
    pub class: Vec<char>,
    pub finding: CtorFinding,
    pub span: Span,
}

pub open spec fn report_view(r: CtorReport) -> (Seq<char>, FindingV, u32, u32) {
    (r.class@, finding_view(r.finding), r.span.start, r.span.end)
}

/// `s` unless there is exactly one.
pub open spec fn plural(n: nat) -> Seq<char> {
    if n == 1 {
        ""@
    } else {
        "s"@
    }
}

/// The text of a finding on a call of `class`.
pub open spec fn ctor_message(class: Seq<char>, f: FindingV) -> Seq<char> {
    match f {
        FindingV::NoInitWithArgs => "Class `"@ + class
            + "` does not define `__init__` or `__new__` and inherits only from `object`; constructor does not accept arguments"@,
        FindingV::TooManyArgs(accepted, given) => "`"@ + class + "` accepts at most "@ + decimal_nat(accepted)
            + " positional argument"@ + plural(accepted) + ", but "@ + decimal_nat(given) + " "@ + was_were(given)
            + " given"@,
        FindingV::TooFewArgs(required, given) => "`"@ + class + "` requires at least "@ + decimal_nat(required)
            + " argument"@ + plural(required) + ", but "@ + decimal_nat(given) + " "@ + was_were(given) + " given"@,
        FindingV::UnknownField(field) => "`"@ + class + "` has no field `"@ + field + "`"@,
        FindingV::ArgType(index, arg_type, expected, field) => "Argument "@ + decimal_nat(index) + " to `"@ + class
            + "()` has type `"@ + arg_type + "`, expected `"@ + expected + "` for field `"@ + field + "`"@,
        FindingV::KwargType(name, arg_type, expected) => "Keyword argument `"@ + name + "` to `"@ + class
            + "()` has type `"@ + arg_type + "`, expected `"@ + expected + "`"@,
        FindingV::DataclassUnknownField(field) => "Unknown field `"@ + field + "` in constructor of dataclass `"@
            + class + "`"@,
        FindingV::GenericArgType(index, arg_type, expected, field) => "Argument "@ + decimal_nat(index) + " to `"@
            + class + "[...]()` has type `"@ + arg_type + "`, expected `"@ + expected + "` for field `"@ + field
            + "`"@,
    }
}

fn push_count_words(m: &mut Vec<char>, word: &str, n: usize, given: usize)
    ensures
        final(m)@ == old(m)@ + word@ + plural(n as nat) + ", but "@ + decimal_nat(given as nat) + " "@ + was_were(
            given as nat,
        ) + " given"@,
{
    push_lit(m, word);
    if n != 1 {
        push_lit(m, "s");
    }
    push_lit(m, ", but ");
    push_chars(m, usize_to_decimal(given).as_slice());
    if given == 1 {
        push_lit(m, " was");
    } else {
        push_lit(m, " were");
    }
    push_lit(m, " given");
    proof {
        reveal_strlit(" was");
        reveal_strlit(" were");
        reveal_strlit(" ");
        reveal_strlit("was");
        reveal_strlit("were");
        reveal_strlit("s");
        reveal_strlit("");
    }
}

impl CtorReport {
    /// The finding's message, naming the class.
    pub fn message(&self) -> (r: Vec<char>)
        ensures
            r@ == ctor_message(self.class@, finding_view(self.finding)),
    {
        let c = self.class.as_slice();
        match &self.finding {
            CtorFinding::NoInitWithArgs => {
                let mut m = chars_of("Class `");
                push_chars(&mut m, c);
                push_lit(
                    &mut m,
                    "` does not define `__init__` or `__new__` and inherits only from `object`; constructor does not accept arguments",
                );
                m
            },
            CtorFinding::TooManyArgs { accepted, given } => {
                let mut m = chars_of("`");
                push_chars(&mut m, c);
                push_lit(&mut m, "` accepts at most ");
                push_chars(&mut m, usize_to_decimal(*accepted).as_slice());
                push_count_words(&mut m, " positional argument", *accepted, *given);
                m
            },
            CtorFinding::TooFewArgs { required, given } => {
                let mut m = chars_of("`");
                push_chars(&mut m, c);
                push_lit(&mut m, "` requires at least ");
                push_chars(&mut m, usize_to_decimal(*required).as_slice());
                push_count_words(&mut m, " argument", *required, *given);
                m
            },
            CtorFinding::UnknownField { field } => {
                let mut m = chars_of("`");
                push_chars(&mut m, c);
                push_lit(&mut m, "` has no field `");
                push_chars(&mut m, field.as_slice());
                push_lit(&mut m, "`");
                m
            },
            CtorFinding::ArgType { index, arg_type, expected, field } => {
                let mut m = chars_of("Argument ");
                push_chars(&mut m, usize_to_decimal(*index).as_slice());
                push_lit(&mut m, " to `");
                push_chars(&mut m, c);
                push_lit(&mut m, "()` has type `");
                push_chars(&mut m, arg_type.as_slice());
                push_lit(&mut m, "`, expected `");
                push_chars(&mut m, expected.as_slice());
                push_lit(&mut m, "` for field `");
                push_chars(&mut m, field.as_slice());
                push_lit(&mut m, "`");
                m
            },
            CtorFinding::KwargType { name, arg_type, expected } => {
                let mut m = chars_of("Keyword argument `");
                push_chars(&mut m, name.as_slice());
                push_lit(&mut m, "` to `");
                push_chars(&mut m, c);
                push_lit(&mut m, "()` has type `");
                push_chars(&mut m, arg_type.as_slice());
                push_lit(&mut m, "`, expected `");
                push_chars(&mut m, expected.as_slice());
                push_lit(&mut m, "`");
                m
            },
            CtorFinding::DataclassUnknownField { field } => {
                let mut m = chars_of("Unknown field `");
                push_chars(&mut m, field.as_slice());
                push_lit(&mut m, "` in constructor of dataclass `");
                push_chars(&mut m, c);
                push_lit(&mut m, "`");
                m
            },
            CtorFinding::GenericArgType { index, arg_type, expected, field } => {
                let mut m = chars_of("Argument ");
                push_chars(&mut m, usize_to_decimal(*index).as_slice());
                push_lit(&mut m, " to `");
                push_chars(&mut m, c);
                push_lit(&mut m, "[...]()` has type `");
                push_chars(&mut m, arg_type.as_slice());
                push_lit(&mut m, "`, expected `");
                push_chars(&mut m, expected.as_slice());
                push_lit(&mut m, "` for field `");
                push_chars(&mut m, field.as_slice());
                push_lit(&mut m, "`");
                m
            },
        }
    }
}

pub open spec fn reports_view(v: Seq<CtorReport>) -> Seq<(Seq<char>, FindingV, u32, u32)> {
    v.map_values(|r: CtorReport| report_view(r))
}

pub open spec fn one(class: Seq<char>, f: FindingV, span: Span) -> Seq<(Seq<char>, FindingV, u32, u32)> {
    seq![(class, f, span.start, span.end)]
}

fn push_report(out: &mut Vec<CtorReport>, class: &[char], finding: CtorFinding, span: Span)
    ensures
        reports_view(final(out)@) == reports_view(old(out)@) + one(class@, finding_view(finding), span),
{
    let ghost before = reports_view(out@);
    let ghost fv = finding_view(finding);
    out.push(CtorReport { class: copy_text(class), finding, span });
    proof {
        assert(reports_view(out@) =~= before + one(class@, fv, span));
    }
}

// ---------------------------------------------------------------------------
// Walks over bases
// ---------------------------------------------------------------------------

/// The walk from the class named `x` through its bases as written ends
/// within `n` steps.
pub open spec fn raw_ends(cs: Seq<HierarchyClass>, x: Seq<char>, n: nat) -> bool
    decreases n, 0int,
{
    match class_at(cs, x) {
        None => true,
        Some(i) => n > 0 && raw_all_ends(cs, views(cs[i].bases@), (n - 1) as nat),
    }
}

pub open spec fn raw_all_ends(cs: Seq<HierarchyClass>, bs: Seq<Seq<char>>, m: nat) -> bool
    decreases m, bs.len(),
{
    bs.len() == 0 || (raw_all_ends(cs, bs.drop_last(), m) && raw_ends(cs, bs.last(), m))
}

proof fn lemma_raw_all_ends(cs: Seq<HierarchyClass>, bs: Seq<Seq<char>>, m: nat, k: int)
    requires
        raw_all_ends(cs, bs, m),
        0 <= k < bs.len(),
    ensures
        raw_ends(cs, bs[k], m),
    decreases bs.len(),
{
    if k < bs.len() - 1 {
        assert(bs.drop_last()[k] == bs[k]);
        lemma_raw_all_ends(cs, bs.drop_last(), m, k);
    }
}

/// Every walk from a class through its bases ends: those the checks take
/// through base names, and those they take through the bases as written.
pub open spec fn ctor_walks_end(cs: Seq<HierarchyClass>) -> bool {
    forall|k: int|
        0 <= k < cs.len() ==> all_walk_ends(cs, base_names(#[trigger] cs[k]), cs.len())
            && raw_all_ends(cs, views(cs[k].bases@), cs.len())
}

// ---------------------------------------------------------------------------
// A class that takes no arguments
// ---------------------------------------------------------------------------

/// A base that makes the constructor synthesized: a dataclass or a
/// `TypedDict` of the module.
pub open spec fn synth_base(cs: Seq<HierarchyClass>, info: Seq<CtorFacts>, b: Seq<char>) -> bool {
    match class_at(cs, b) {
        Some(i) => info[i].is_dataclass || info[i].is_typed_dict,
        None => false,
    }
}

/// `check_no_init_with_args`: arguments to a class that is no `NamedTuple`,
/// dataclass or `TypedDict`, defines no `__init__` or `__new__` and has no
/// base that does, that inherits no synthesized constructor and whose bases
/// define no `__init_subclass__`.
pub open spec fn no_init_report(
    call: CtorCall,
    cs: Seq<HierarchyClass>,
    info: Seq<CtorFacts>,
    ks: Seq<(Seq<char>, Seq<char>)>,
    k: int,
) -> Seq<(Seq<char>, FindingV, u32, u32)> {
    let c = cs[k];
    let name = c.name@;
    let bs = cut_bases(views(c.bases@));
    if call.args@.len() == 0 && call.keywords@.len() == 0 {
        Seq::empty()
    } else if namedtuple_class(cs, c) || info[k].is_dataclass || info[k].is_typed_dict {
        Seq::empty()
    } else if methods_named(ks, name, "__init__"@).len() > 0 || methods_named(ks, name, "__new__"@).len()
        > 0 {
        Seq::empty()
    } else if custom_init_in_bases(cs, ks, c) {
        Seq::empty()
    } else if exists|j: int| 0 <= j < bs.len() && synth_base(cs, info, #[trigger] bs[j]) {
        Seq::empty()
    } else if exists|j: int|
        0 <= j < bs.len() && methods_named(ks, #[trigger] bs[j], "__init_subclass__"@).len() > 0 {
        Seq::empty()
    } else {
        one(name, FindingV::NoInitWithArgs, call.span)
    }
}

fn any_synth_base(bs: &Vec<Vec<char>>, cs: &Vec<HierarchyClass>, info: &Vec<CtorFacts>) -> (r: bool)
    requires
        info@.len() == cs@.len(),
    ensures
        r == exists|j: int| 0 <= j < bs@.len() && synth_base(cs@, info@, #[trigger] views(bs@)[j]),
{
    let mut j: usize = 0;
    while j < bs.len()
        invariant
            j <= bs@.len(),
            info@.len() == cs@.len(),
            forall|m: int| 0 <= m < j ==> !synth_base(cs@, info@, #[trigger] views(bs@)[m]),
        decreases bs.len() - j,
    {
        proof {
            lemma_class_at(cs@, bs@[j as int]@);
            assert(views(bs@)[j as int] == bs@[j as int]@);
        }
        if let Some(i) = find_class_at(cs, bs[j].as_slice()) {
            if info[i].is_dataclass || info[i].is_typed_dict {
                return true;
            }
        }
        j += 1;
    }
    false
}

fn any_init_subclass(bs: &Vec<Vec<char>>, ms: &Vec<(Vec<char>, Vec<char>)>) -> (r: bool)
    ensures
        r == exists|j: int|
            0 <= j < bs@.len() && methods_named(method_keys(ms@), #[trigger] views(bs@)[j], "__init_subclass__"@).len()
                > 0,
{
    let name = chars_of("__init_subclass__");
    let mut j: usize = 0;
    while j < bs.len()
        invariant
            j <= bs@.len(),
            name@ == "__init_subclass__"@,
            forall|m: int|
                0 <= m < j ==> methods_named(method_keys(ms@), #[trigger] views(bs@)[m], "__init_subclass__"@).len()
                    == 0,
        decreases bs.len() - j,
    {
        let found = find_methods(ms, bs[j].as_slice(), name.as_slice());
        proof {
            assert(views(bs@)[j as int] == bs@[j as int]@);
            assert(found@.map_values(|i: usize| i as int).len() == found@.len());
        }
        if found.len() > 0 {
            return true;
        }
        j += 1;
    }
    false
}

fn cut_all(bs: &Vec<Vec<char>>) -> (r: Vec<Vec<char>>)
    ensures
        views(r@) == cut_bases(views(bs@)),
{
    let mut out: Vec<Vec<char>> = Vec::new();
    let mut j: usize = 0;
    while j < bs.len()
        invariant
            j <= bs@.len(),
            views(out@) == cut_bases(views(bs@)).take(j as int),
        decreases bs.len() - j,
    {
        let ghost before = views(out@);
        let x = before_char_exec(bs[j].as_slice(), '[');
        let ghost xv = x@;
        out.push(x);
        proof {
            assert(views(bs@)[j as int] == bs@[j as int]@);
            assert(cut_bases(views(bs@))[j as int] == xv);
            assert(views(out@) =~= before.push(xv));
            assert(views(out@) =~= cut_bases(views(bs@)).take(j + 1));
        }
        j += 1;
    }
    proof {
        assert(cut_bases(views(bs@)).take(j as int) =~= cut_bases(views(bs@)));
    }
    out
}

fn has_method(ms: &Vec<(Vec<char>, Vec<char>)>, class: &[char], name: &str) -> (r: bool)
    ensures
        r == (methods_named(method_keys(ms@), class@, name@).len() > 0),
{
    let n = chars_of(name);
    let found = find_methods(ms, class, n.as_slice());
    proof {
        assert(found@.map_values(|i: usize| i as int).len() == found@.len());
    }
    found.len() > 0
}

/// Reports a call that passes arguments to a class with no `__init__` of its own anywhere in its ancestry.
pub fn check_no_init_with_args(
    call: &CtorCall,
    k: usize,
    cs: &Vec<HierarchyClass>,
    info: &Vec<CtorFacts>,
    ms: &Vec<(Vec<char>, Vec<char>)>,
    out: &mut Vec<CtorReport>,
)
    requires
        k < cs@.len(),
        info@.len() == cs@.len(),
        ctor_walks_end(cs@),
    ensures
        reports_view(final(out)@) == reports_view(old(out)@) + no_init_report(
            *call,
            cs@,
            info@,
            method_keys(ms@),
            k as int,
        ),
{
    let ghost e = no_init_report(*call, cs@, info@, method_keys(ms@), k as int);
    proof {
        assert(all_walk_ends(cs@, base_names(cs@[k as int]), cs@.len()));
    }
    let c = &cs[k];
    if call.args.len() == 0 && call.keywords.len() == 0 {
        assert(e =~= Seq::empty());
        assert(reports_view(out@) =~= reports_view(out@) + e);
        return;
    }
    if is_namedtuple_class(c, cs) || info[k].is_dataclass || info[k].is_typed_dict || has_method(
        ms,
        c.name.as_slice(),
        "__init__",
    ) || has_method(ms, c.name.as_slice(), "__new__") || has_custom_init_in_bases(c, cs, ms) {
        assert(e =~= Seq::empty());
        assert(reports_view(out@) =~= reports_view(out@) + e);
        return;
    }
    let bs = cut_all(&c.bases);
    if any_synth_base(&bs, cs, info) || any_init_subclass(&bs, ms) {
        assert(e =~= Seq::empty());
        assert(reports_view(out@) =~= reports_view(out@) + e);
        return;
    }
    push_report(out, c.name.as_slice(), CtorFinding::NoInitWithArgs, call.span);
}

// ---------------------------------------------------------------------------
// `NamedTuple` constructors
// ---------------------------------------------------------------------------

/// The indices of the annotated attributes: the fields.
pub open spec fn annotated_idx(attrs: Seq<CtorAttr>) -> Seq<int>
    decreases attrs.len(),
{
    if attrs.len() == 0 {
        Seq::empty()
    } else if attrs.last().has_annotation {
        annotated_idx(attrs.drop_last()).push(attrs.len() - 1)
    } else {
        annotated_idx(attrs.drop_last())
    }
}

proof fn lemma_annotated_idx(attrs: Seq<CtorAttr>)
    ensures
        annotated_idx(attrs).len() <= attrs.len(),
        forall|j: int| 0 <= j < annotated_idx(attrs).len() ==> 0 <= #[trigger] annotated_idx(attrs)[j] < attrs.len(),
    decreases attrs.len(),
{
    if attrs.len() > 0 {
        lemma_annotated_idx(attrs.drop_last());
    }
}

fn annotated_indices(attrs: &Vec<CtorAttr>) -> (r: Vec<usize>)
    ensures
        r@.map_values(|j: usize| j as int) == annotated_idx(attrs@),
        forall|j: int| 0 <= j < r@.len() ==> #[trigger] r@[j] < attrs@.len(),
{
    let mut out: Vec<usize> = Vec::new();
    let mut i: usize = 0;
    while i < attrs.len()
        invariant
            i <= attrs@.len(),
            out@.map_values(|j: usize| j as int) == annotated_idx(attrs@.take(i as int)),
            forall|j: int| 0 <= j < out@.len() ==> #[trigger] out@[j] < i,
        decreases attrs.len() - i,
    {
        proof {
            assert(attrs@.take(i + 1).drop_last() =~= attrs@.take(i as int));
            assert(attrs@.take(i + 1).last() == attrs@[i as int]);
        }
        if attrs[i].has_annotation {
            let ghost before = out@.map_values(|j: usize| j as int);
            out.push(i);
            proof {
                assert(out@.map_values(|j: usize| j as int) =~= before.push(i as int));
            }
        }
        i += 1;
    }
    proof {
        assert(attrs@.take(i as int) =~= attrs@);
    }
    out
}

/// The field at position `j` has a default.
pub open spec fn defaulted(attrs: Seq<CtorAttr>, fi: Seq<int>) -> spec_fn(int) -> bool {
    |j: int| attrs[fi[j]].has_value
}

proof fn lemma_count_where_le(p: spec_fn(int) -> bool, n: int)
    requires
        0 <= n,
    ensures
        count_where(p, n) <= n,
    decreases n,
{
    if n > 0 {
        lemma_count_where_le(p, n - 1);
    }
}

/// `check_nt_arg_count`: too many positional arguments, else too few
/// arguments for the fields without a default.
pub open spec fn nt_count_finding(call: CtorCall, attrs: Seq<CtorAttr>, fi: Seq<int>) -> Option<FindingV> {
    let total = fi.len();
    let required = total - count_where(defaulted(attrs, fi), total as int);
    let positional = call.args@.len();
    let covered = positional + call.keywords@.len();
    if positional > total {
        Some(FindingV::TooManyArgs(total, positional))
    } else if covered < required {
        Some(FindingV::TooFewArgs(required as nat, covered))
    } else {
        None
    }
}

/// The position among the fields of the first field named `name`.
pub open spec fn named_field(attrs: Seq<CtorAttr>, fi: Seq<int>, name: Seq<char>) -> spec_fn(int) -> bool {
    |j: int| attrs[fi[j]].name@ == name
}

pub open spec fn field_of(attrs: Seq<CtorAttr>, fi: Seq<int>, name: Seq<char>) -> Option<int> {
    first_where(named_field(attrs, fi, name), fi.len() as int)
}

fn find_field(attrs: &Vec<CtorAttr>, fi: &Vec<usize>, name: &[char]) -> (r: Option<usize>)
    requires
        forall|j: int| 0 <= j < fi@.len() ==> #[trigger] fi@[j] < attrs@.len(),
    ensures
        match r {
            Some(j) => j < fi@.len() && field_of(attrs@, fi@.map_values(|x: usize| x as int), name@) == Some(
                j as int,
            ),
            None => field_of(attrs@, fi@.map_values(|x: usize| x as int), name@) is None,
        },
{
    let ghost fv = fi@.map_values(|x: usize| x as int);
    let mut j: usize = 0;
    while j < fi.len()
        invariant
            j <= fi@.len(),
            fv == fi@.map_values(|x: usize| x as int),
            forall|m: int| 0 <= m < fi@.len() ==> #[trigger] fi@[m] < attrs@.len(),
            forall|m: int| 0 <= m < j ==> !#[trigger] named_field(attrs@, fv, name@)(m),
        decreases fi.len() - j,
    {
        if eq_chars(attrs[fi[j]].name.as_slice(), name) {
            proof {
                assert(named_field(attrs@, fv, name@)(j as int));
                lemma_first_where_at(named_field(attrs@, fv, name@), j as int, fv.len() as int);
            }
            return Some(j);
        }
        proof {
            assert(!named_field(attrs@, fv, name@)(j as int));
        }
        j += 1;
    }
    proof {
        lemma_first_where_none(named_field(attrs@, fv, name@), fv.len() as int);
    }
    None
}

/// The keywords that name no field, each at the call's span.
pub open spec fn nt_unknown_kwargs(
    class: Seq<char>,
    call_span: Span,
    kws: Seq<CtorKeyword>,
    attrs: Seq<CtorAttr>,
    fi: Seq<int>,
) -> Seq<(Seq<char>, FindingV, u32, u32)>
    decreases kws.len(),
{
    if kws.len() == 0 {
        Seq::empty()
    } else {
        nt_unknown_kwargs(class, call_span, kws.drop_last(), attrs, fi) + match kws.last().name {
            Some(n) => if field_of(attrs, fi, n@) is None {
                one(class, FindingV::UnknownField(n@), call_span)
            } else {
                Seq::empty()
            },
            None => Seq::empty(),
        }
    }
}

/// The literal type of an argument against an annotation: the finding
/// `mk` builds when they do not fit.
pub open spec fn type_mismatch(literal_type: Option<Vec<char>>, expected: Seq<char>) -> Option<Seq<char>> {
    match literal_type {
        Some(t) => if arg_compatible(t@, expected) {
            None
        } else {
            Some(t@)
        },
        None => None,
    }
}

/// `check_nt_arg_types` for the first `n` positional arguments.
pub open spec fn nt_arg_findings(
    class: Seq<char>,
    args: Seq<CtorArg>,
    attrs: Seq<CtorAttr>,
    fi: Seq<int>,
    n: int,
) -> Seq<(Seq<char>, FindingV, u32, u32)>
    decreases n,
{
    if n <= 0 {
        Seq::empty()
    } else {
        let f = attrs[fi[n - 1]];
        nt_arg_findings(class, args, attrs, fi, n - 1) + match f.annotation {
            Some(a) => match type_mismatch(args[n - 1].literal_type, trim(a@)) {
                Some(t) => one(
                    class,
                    FindingV::ArgType((n - 1) as nat, t, trim(a@), f.name@),
                    args[n - 1].span,
                ),
                None => Seq::empty(),
            },
            None => Seq::empty(),
        }
    }
}

/// The findings for keyword arguments of a `NamedTuple` call whose value does not fit the field's type.
pub open spec fn nt_kwarg_findings(
    class: Seq<char>,
    kws: Seq<CtorKeyword>,
    attrs: Seq<CtorAttr>,
    fi: Seq<int>,
) -> Seq<(Seq<char>, FindingV, u32, u32)>
    decreases kws.len(),
{
    if kws.len() == 0 {
        Seq::empty()
    } else {
        let kw = kws.last();
        nt_kwarg_findings(class, kws.drop_last(), attrs, fi) + match kw.name {
            Some(n) => match field_of(attrs, fi, n@) {
                Some(j) => match attrs[fi[j]].annotation {
                    Some(a) => match type_mismatch(kw.literal_type, trim(a@)) {
                        Some(t) => one(class, FindingV::KwargType(n@, t, trim(a@)), kw.span),
                        None => Seq::empty(),
                    },
                    None => Seq::empty(),
                },
                None => Seq::empty(),
            },
            None => Seq::empty(),
        }
    }
}

pub open spec fn min_len(a: nat, b: nat) -> nat {
    if a < b {
        a
    } else {
        b
    }
}

/// The findings for a call of a `NamedTuple` class: too many positional arguments, unknown or missing fields, mistyped values.
pub open spec fn nt_reports(call: CtorCall, cs: Seq<HierarchyClass>, info: Seq<CtorFacts>, k: int) -> Seq<
    (Seq<char>, FindingV, u32, u32),
> {
    if !namedtuple_class(cs, cs[k]) {
        Seq::empty()
    } else {
        let attrs = info[k].attributes@;
        let fi = annotated_idx(attrs);
        let name = cs[k].name@;
        match nt_count_finding(call, attrs, fi) {
            Some(f) => one(name, f, call.span),
            None => nt_unknown_kwargs(name, call.span, call.keywords@, attrs, fi) + nt_arg_findings(
                name,
                call.args@,
                attrs,
                fi,
                min_len(call.args@.len(), fi.len()) as int,
            ) + nt_kwarg_findings(name, call.keywords@, attrs, fi),
        }
    }
}

/// No finding in the list is about the number of arguments.
pub open spec fn no_count_finding(r: Seq<(Seq<char>, FindingV, u32, u32)>) -> bool {
    forall|j: int| 0 <= j < r.len() ==> !((#[trigger] r[j]).1 is TooFewArgs) && !(r[j].1 is TooManyArgs)
}

proof fn lemma_no_count_finding_concat(a: Seq<(Seq<char>, FindingV, u32, u32)>, b: Seq<(Seq<char>, FindingV, u32, u32)>)
    requires
        no_count_finding(a),
        no_count_finding(b),
    ensures
        no_count_finding(a + b),
{
    assert forall|j: int| 0 <= j < (a + b).len() implies !((#[trigger] (a + b)[j]).1 is TooFewArgs) && !((
        a + b)[j].1 is TooManyArgs) by {
        if j < a.len() {
            assert((a + b)[j] == a[j]);
        } else {
            assert((a + b)[j] == b[j - a.len()]);
        }
    }
}

proof fn lemma_unknown_kwargs_no_count_finding(
    class: Seq<char>,
    call_span: Span,
    kws: Seq<CtorKeyword>,
    attrs: Seq<CtorAttr>,
    fi: Seq<int>,
)
    ensures
        no_count_finding(nt_unknown_kwargs(class, call_span, kws, attrs, fi)),
    decreases kws.len(),
{
    if kws.len() > 0 {
        lemma_unknown_kwargs_no_count_finding(class, call_span, kws.drop_last(), attrs, fi);
        let tail = match kws.last().name {
            Some(n) => if field_of(attrs, fi, n@) is None {
                one(class, FindingV::UnknownField(n@), call_span)
            } else {
                Seq::empty()
            },
            None => Seq::empty(),
        };
        assert(no_count_finding(tail));
        lemma_no_count_finding_concat(nt_unknown_kwargs(class, call_span, kws.drop_last(), attrs, fi), tail);
    }
}

proof fn lemma_arg_findings_no_count_finding(class: Seq<char>, args: Seq<CtorArg>, attrs: Seq<CtorAttr>, fi: Seq<int>, n: int)
    ensures
        no_count_finding(nt_arg_findings(class, args, attrs, fi, n)),
    decreases n,
{
    if n > 0 {
        lemma_arg_findings_no_count_finding(class, args, attrs, fi, n - 1);
        let f = attrs[fi[n - 1]];
        let tail = match f.annotation {
            Some(a) => match type_mismatch(args[n - 1].literal_type, trim(a@)) {
                Some(t) => one(class, FindingV::ArgType((n - 1) as nat, t, trim(a@), f.name@), args[n - 1].span),
                None => Seq::empty(),
            },
            None => Seq::empty(),
        };
        assert(no_count_finding(tail));
        lemma_no_count_finding_concat(nt_arg_findings(class, args, attrs, fi, n - 1), tail);
    }
}

proof fn lemma_kwarg_findings_no_count_finding(class: Seq<char>, kws: Seq<CtorKeyword>, attrs: Seq<CtorAttr>, fi: Seq<int>)
    ensures
        no_count_finding(nt_kwarg_findings(class, kws, attrs, fi)),
    decreases kws.len(),
{
    if kws.len() > 0 {
        lemma_kwarg_findings_no_count_finding(class, kws.drop_last(), attrs, fi);
        let kw = kws.last();
        let tail = match kw.name {
            Some(n) => match field_of(attrs, fi, n@) {
                Some(j) => match attrs[fi[j]].annotation {
                    Some(a) => match type_mismatch(kw.literal_type, trim(a@)) {
                        Some(t) => one(class, FindingV::KwargType(n@, t, trim(a@)), kw.span),
                        None => Seq::empty(),
                    },
                    None => Seq::empty(),
                },
                None => Seq::empty(),
            },
            None => Seq::empty(),
        };
        assert(no_count_finding(tail));
        lemma_no_count_finding_concat(nt_kwarg_findings(class, kws.drop_last(), attrs, fi), tail);
    }
}

/// A call of a `NamedTuple` class counts keyword arguments as well as
/// positional ones: a too-few finding is made only when the two together
/// are fewer than the fields the class needs (which are at most its fields),
/// and it gives that sum as the number given; a call whose positional and
/// keyword arguments together are at least as many as the class's fields
/// gets no such finding. A too-many finding counts positional arguments
/// only, against all the fields.
pub proof fn law_namedtuple_counts_keywords(call: CtorCall, cs: Seq<HierarchyClass>, info: Seq<CtorFacts>, k: int)
    requires
        0 <= k < cs.len(),
        info.len() == cs.len(),
    ensures
        forall|j: int|
            0 <= j < nt_reports(call, cs, info, k).len() ==> match (#[trigger] nt_reports(
                call,
                cs,
                info,
                k,
            )[j]).1 {
                FindingV::TooFewArgs(required, given) => given == call.args@.len() + call.keywords@.len()
                    && given < required && required <= annotated_idx(info[k].attributes@).len(),
                FindingV::TooManyArgs(accepted, given) => given == call.args@.len() && accepted
                    == annotated_idx(info[k].attributes@).len() && given > accepted,
                _ => true,
            },
        call.args@.len() + call.keywords@.len() >= annotated_idx(info[k].attributes@).len() ==> forall|j: int|
            0 <= j < nt_reports(call, cs, info, k).len() ==> !((#[trigger] nt_reports(call, cs, info, k)[j]).1 is TooFewArgs),
{
    let r = nt_reports(call, cs, info, k);
    if namedtuple_class(cs, cs[k]) {
        let attrs = info[k].attributes@;
        let fi = annotated_idx(attrs);
        let name = cs[k].name@;
        let total = fi.len();
        let c = count_where(defaulted(attrs, fi), total as int);
        lemma_count_where_le(defaulted(attrs, fi), total as int);
        match nt_count_finding(call, attrs, fi) {
            Some(f) => {
                assert(r == one(name, f, call.span));
                assert(r.len() == 1 && r[0].1 == f);
            },
            None => {
                lemma_unknown_kwargs_no_count_finding(name, call.span, call.keywords@, attrs, fi);
                lemma_arg_findings_no_count_finding(name, call.args@, attrs, fi, min_len(call.args@.len(), fi.len()) as int);
                lemma_kwarg_findings_no_count_finding(name, call.keywords@, attrs, fi);
                lemma_no_count_finding_concat(
                    nt_unknown_kwargs(name, call.span, call.keywords@, attrs, fi),
                    nt_arg_findings(name, call.args@, attrs, fi, min_len(call.args@.len(), fi.len()) as int),
                );
                lemma_no_count_finding_concat(
                    nt_unknown_kwargs(name, call.span, call.keywords@, attrs, fi) + nt_arg_findings(
                        name,
                        call.args@,
                        attrs,
                        fi,
                        min_len(call.args@.len(), fi.len()) as int,
                    ),
                    nt_kwarg_findings(name, call.keywords@, attrs, fi),
                );
            },
        }
    } else {
        assert(r.len() == 0);
    }
}

fn count_defaults(attrs: &Vec<CtorAttr>, fi: &Vec<usize>) -> (r: usize)
    requires
        forall|j: int| 0 <= j < fi@.len() ==> #[trigger] fi@[j] < attrs@.len(),
    ensures
        r == count_where(defaulted(attrs@, fi@.map_values(|x: usize| x as int)), fi@.len() as int),
        r <= fi@.len(),
{
    let ghost fv = fi@.map_values(|x: usize| x as int);
    let mut c: usize = 0;
    let mut j: usize = 0;
    while j < fi.len()
        invariant
            j <= fi@.len(),
            fv == fi@.map_values(|x: usize| x as int),
            forall|m: int| 0 <= m < fi@.len() ==> #[trigger] fi@[m] < attrs@.len(),
            c == count_where(defaulted(attrs@, fv), j as int),
            c <= j,
        decreases fi.len() - j,
    {
        proof {
            assert(defaulted(attrs@, fv)(j as int) == attrs@[fi@[j as int] as int].has_value);
        }
        if attrs[fi[j]].has_value {
            c += 1;
        }
        j += 1;
    }
    c
}

fn nt_check_unknown_kwargs(
    class: &[char],
    call: &CtorCall,
    attrs: &Vec<CtorAttr>,
    fi: &Vec<usize>,
    out: &mut Vec<CtorReport>,
)
    requires
        forall|j: int| 0 <= j < fi@.len() ==> #[trigger] fi@[j] < attrs@.len(),
    ensures
        reports_view(final(out)@) == reports_view(old(out)@) + nt_unknown_kwargs(
            class@,
            call.span,
            call.keywords@,
            attrs@,
            fi@.map_values(|x: usize| x as int),
        ),
{
    let ghost fv = fi@.map_values(|x: usize| x as int);
    let ghost start = reports_view(out@);
    let mut i: usize = 0;
    while i < call.keywords.len()
        invariant
            i <= call.keywords@.len(),
            fv == fi@.map_values(|x: usize| x as int),
            forall|j: int| 0 <= j < fi@.len() ==> #[trigger] fi@[j] < attrs@.len(),
            reports_view(out@) == start + nt_unknown_kwargs(class@, call.span, call.keywords@.take(i as int), attrs@, fv),
        decreases call.keywords.len() - i,
    {
        proof {
            assert(call.keywords@.take(i + 1).drop_last() =~= call.keywords@.take(i as int));
            assert(call.keywords@.take(i + 1).last() == call.keywords@[i as int]);
        }
        let ghost before = reports_view(out@);
        match &call.keywords[i].name {
            Some(n) => {
                if find_field(attrs, fi, n.as_slice()).is_none() {
                    push_report(out, class, CtorFinding::UnknownField { field: copy_text(n.as_slice()) }, call.span);
                } else {
                    assert(reports_view(out@) =~= before + Seq::empty());
                }
            },
            None => {
                assert(reports_view(out@) =~= before + Seq::empty());
            },
        }
        proof {
            assert(start + nt_unknown_kwargs(class@, call.span, call.keywords@.take(i + 1), attrs@, fv) =~= reports_view(out@));
        }
        i += 1;
    }
    proof {
        assert(call.keywords@.take(i as int) =~= call.keywords@);
    }
}

fn copy_opt(o: &Option<Vec<char>>) -> (r: Option<Vec<char>>)
    ensures
        match (r, *o) {
            (Some(a), Some(b)) => a@ == b@,
            (None, None) => true,
            _ => false,
        },
{
    match o {
        Some(v) => Some(copy_text(v.as_slice())),
        None => None,
    }
}

/// The literal type when it does not fit `expected`.
fn mismatch(literal_type: &Option<Vec<char>>, expected: &[char]) -> (r: Option<Vec<char>>)
    ensures
        match r {
            Some(t) => type_mismatch(*literal_type, expected@) == Some(t@),
            None => type_mismatch(*literal_type, expected@) is None,
        },
{
    match literal_type {
        Some(t) => if is_type_compatible(t.as_slice(), expected) {
            None
        } else {
            Some(copy_text(t.as_slice()))
        },
        None => None,
    }
}

fn nt_check_arg_types(
    class: &[char],
    args: &Vec<CtorArg>,
    attrs: &Vec<CtorAttr>,
    fi: &Vec<usize>,
    out: &mut Vec<CtorReport>,
)
    requires
        forall|j: int| 0 <= j < fi@.len() ==> #[trigger] fi@[j] < attrs@.len(),
    ensures
        reports_view(final(out)@) == reports_view(old(out)@) + nt_arg_findings(
            class@,
            args@,
            attrs@,
            fi@.map_values(|x: usize| x as int),
            min_len(args@.len(), fi@.len()) as int,
        ),
{
    let ghost fv = fi@.map_values(|x: usize| x as int);
    let ghost start = reports_view(out@);
    let mut i: usize = 0;
    while i < args.len() && i < fi.len()
        invariant
            i <= args@.len(),
            i <= fi@.len(),
            fv == fi@.map_values(|x: usize| x as int),
            forall|j: int| 0 <= j < fi@.len() ==> #[trigger] fi@[j] < attrs@.len(),
            reports_view(out@) == start + nt_arg_findings(class@, args@, attrs@, fv, i as int),
        decreases args.len() - i,
    {
        let f = &attrs[fi[i]];
        let ghost before = reports_view(out@);
        proof {
            assert(fv[i as int] == fi@[i as int] as int);
        }
        match &f.annotation {
            Some(a) => {
                let ann = trim_chars(a.as_slice());
                match mismatch(&args[i].literal_type, ann.as_slice()) {
                    Some(t) => {
                        push_report(
                            out,
                            class,
                            CtorFinding::ArgType { index: i, arg_type: t, expected: ann, field: copy_text(f.name.as_slice()) },
                            args[i].span,
                        );
                    },
                    None => {
                        assert(reports_view(out@) =~= before + Seq::empty());
                    },
                }
            },
            None => {
                assert(reports_view(out@) =~= before + Seq::empty());
            },
        }
        i += 1;
    }
    proof {
        assert(i as int == min_len(args@.len(), fi@.len()));
    }
}

fn nt_check_kwarg_types(
    class: &[char],
    kws: &Vec<CtorKeyword>,
    attrs: &Vec<CtorAttr>,
    fi: &Vec<usize>,
    out: &mut Vec<CtorReport>,
)
    requires
        forall|j: int| 0 <= j < fi@.len() ==> #[trigger] fi@[j] < attrs@.len(),
    ensures
        reports_view(final(out)@) == reports_view(old(out)@) + nt_kwarg_findings(
            class@,
            kws@,
            attrs@,
            fi@.map_values(|x: usize| x as int),
        ),
{
    let ghost fv = fi@.map_values(|x: usize| x as int);
    let ghost start = reports_view(out@);
    let mut i: usize = 0;
    while i < kws.len()
        invariant
            i <= kws@.len(),
            fv == fi@.map_values(|x: usize| x as int),
            forall|j: int| 0 <= j < fi@.len() ==> #[trigger] fi@[j] < attrs@.len(),
            reports_view(out@) == start + nt_kwarg_findings(class@, kws@.take(i as int), attrs@, fv),
        decreases kws.len() - i,
    {
        proof {
            assert(kws@.take(i + 1).drop_last() =~= kws@.take(i as int));
            assert(kws@.take(i + 1).last() == kws@[i as int]);
        }
        let kw = &kws[i];
        let ghost before = reports_view(out@);
        match &kw.name {
            Some(n) => match find_field(attrs, fi, n.as_slice()) {
                Some(j) => {
                    proof {
                        assert(fv[j as int] == fi@[j as int] as int);
                    }
                    match &attrs[fi[j]].annotation {
                        Some(a) => {
                            let ann = trim_chars(a.as_slice());
                            match mismatch(&kw.literal_type, ann.as_slice()) {
                                Some(t) => {
                                    push_report(
                                        out,
                                        class,
                                        CtorFinding::KwargType { name: copy_text(n.as_slice()), arg_type: t, expected: ann },
                                        kw.span,
                                    );
                                },
                                None => {
                                    assert(reports_view(out@) =~= before + Seq::empty());
                                },
                            }
                        },
                        None => {
                            assert(reports_view(out@) =~= before + Seq::empty());
                        },
                    }
                },
                None => {
                    assert(reports_view(out@) =~= before + Seq::empty());
                },
            },
            None => {
                assert(reports_view(out@) =~= before + Seq::empty());
            },
        }
        proof {
            assert(start + nt_kwarg_findings(class@, kws@.take(i + 1), attrs@, fv) =~= reports_view(out@));
        }
        i += 1;
    }
    proof {
        assert(kws@.take(i as int) =~= kws@);
    }
}

/// Appends the findings for a call of a `NamedTuple` class (see `nt_reports`).
pub fn check_namedtuple_constructor(
    call: &CtorCall,
    k: usize,
    cs: &Vec<HierarchyClass>,
    info: &Vec<CtorFacts>,
    out: &mut Vec<CtorReport>,
)
    requires
        k < cs@.len(),
        info@.len() == cs@.len(),
        ctor_walks_end(cs@),
    ensures
        reports_view(final(out)@) == reports_view(old(out)@) + nt_reports(*call, cs@, info@, k as int),
{
    proof {
        assert(all_walk_ends(cs@, base_names(cs@[k as int]), cs@.len()));
    }
    let c = &cs[k];
    if !is_namedtuple_class(c, cs) {
        assert(reports_view(out@) =~= reports_view(out@) + nt_reports(*call, cs@, info@, k as int));
        return;
    }
    let attrs = &info[k].attributes;
    let fi = annotated_indices(attrs);
    let ghost fv = fi@.map_values(|x: usize| x as int);
    let total = fi.len();
    let defaults = count_defaults(attrs, &fi);
    let required = total - defaults;
    let positional = call.args.len();
    let ghost start = reports_view(out@);
    if positional > total {
        push_report(out, c.name.as_slice(), CtorFinding::TooManyArgs { accepted: total, given: positional }, call.span);
        return;
    }
    if positional as u128 + (call.keywords.len() as u128) < required as u128 {
        let covered = positional + call.keywords.len();
        push_report(out, c.name.as_slice(), CtorFinding::TooFewArgs { required, given: covered }, call.span);
        return;
    }
    nt_check_unknown_kwargs(c.name.as_slice(), call, attrs, &fi, out);
    nt_check_arg_types(c.name.as_slice(), &call.args, attrs, &fi, out);
    nt_check_kwarg_types(c.name.as_slice(), &call.keywords, attrs, &fi, out);
    proof {
        assert(reports_view(out@) =~= start + nt_reports(*call, cs@, info@, k as int));
    }
}

// ---------------------------------------------------------------------------
// Dataclass fields
// ---------------------------------------------------------------------------

pub open spec fn attr_names(attrs: Seq<CtorAttr>) -> Seq<Seq<char>> {
    attrs.map_values(|a: CtorAttr| a.name@)
}

/// `collect_dataclass_fields` over the bases `bs` as written, within `n`
/// steps: for each base that names a class, its attributes and then those of
/// its own bases.
pub open spec fn dc_fields_of(cs: Seq<HierarchyClass>, info: Seq<CtorFacts>, bs: Seq<Seq<char>>, n: nat) -> Seq<
    Seq<char>,
>
    decreases n, bs.len(),
{
    if bs.len() == 0 {
        Seq::empty()
    } else {
        dc_fields_of(cs, info, bs.drop_last(), n) + match class_at(cs, bs.last()) {
            Some(j) => if n > 0 {
                attr_names(info[j].attributes@) + dc_fields_of(cs, info, views(cs[j].bases@), (n - 1) as nat)
            } else {
                Seq::empty()
            },
            None => Seq::empty(),
        }
    }
}

/// The fields a dataclass constructor knows: its own attributes and those of
/// every class reached through its bases.
pub open spec fn dc_fields(cs: Seq<HierarchyClass>, info: Seq<CtorFacts>, k: int) -> Seq<Seq<char>> {
    attr_names(info[k].attributes@) + dc_fields_of(cs, info, views(cs[k].bases@), cs.len())
}

/// The keywords that name no known field, each at its own span.
pub open spec fn dc_unknown_kwargs(class: Seq<char>, kws: Seq<CtorKeyword>, known: Seq<Seq<char>>) -> Seq<
    (Seq<char>, FindingV, u32, u32),
>
    decreases kws.len(),
{
    if kws.len() == 0 {
        Seq::empty()
    } else {
        dc_unknown_kwargs(class, kws.drop_last(), known) + match kws.last().name {
            Some(n) => if known.contains(n@) {
                Seq::empty()
            } else {
                one(class, FindingV::DataclassUnknownField(n@), kws.last().span)
            },
            None => Seq::empty(),
        }
    }
}

/// The findings for keyword arguments of a dataclass call that name no field of the class or its dataclass ancestors.
pub open spec fn dc_reports(call: CtorCall, cs: Seq<HierarchyClass>, info: Seq<CtorFacts>, k: int) -> Seq<
    (Seq<char>, FindingV, u32, u32),
> {
    if !info[k].is_dataclass || call.keywords@.len() == 0 || dc_fields(cs, info, k).len() == 0 {
        Seq::empty()
    } else {
        dc_unknown_kwargs(cs[k].name@, call.keywords@, dc_fields(cs, info, k))
    }
}

fn push_attr_names(attrs: &Vec<CtorAttr>, out: &mut Vec<Vec<char>>)
    ensures
        views(final(out)@) == views(old(out)@) + attr_names(attrs@),
{
    let ghost start = views(out@);
    let mut i: usize = 0;
    while i < attrs.len()
        invariant
            i <= attrs@.len(),
            views(out@) == start + attr_names(attrs@).take(i as int),
        decreases attrs.len() - i,
    {
        let ghost before = views(out@);
        let x = copy_text(attrs[i].name.as_slice());
        let ghost xv = x@;
        out.push(x);
        proof {
            assert(views(out@) =~= before.push(xv));
            assert(start + attr_names(attrs@).take(i + 1) =~= before.push(xv));
        }
        i += 1;
    }
    proof {
        assert(attr_names(attrs@).take(i as int) =~= attr_names(attrs@));
    }
}

fn collect_fields_of(
    bs: &Vec<Vec<char>>,
    cs: &Vec<HierarchyClass>,
    info: &Vec<CtorFacts>,
    out: &mut Vec<Vec<char>>,
    Ghost(n): Ghost<nat>,
)
    requires
        info@.len() == cs@.len(),
        raw_all_ends(cs@, views(bs@), n),
    ensures
        views(final(out)@) == views(old(out)@) + dc_fields_of(cs@, info@, views(bs@), n),
    decreases n,
{
    let ghost bv = views(bs@);
    let ghost start = views(out@);
    let mut j: usize = 0;
    proof {
        assert(bv.take(0) =~= Seq::<Seq<char>>::empty());
    }
    while j < bs.len()
        invariant
            j <= bs@.len(),
            bv == views(bs@),
            info@.len() == cs@.len(),
            raw_all_ends(cs@, bv, n),
            views(out@) == start + dc_fields_of(cs@, info@, bv.take(j as int), n),
        decreases bs.len() - j,
    {
        proof {
            assert(bv.take(j + 1).drop_last() =~= bv.take(j as int));
            assert(bv.take(j + 1).last() == bs@[j as int]@);
            lemma_raw_all_ends(cs@, bv, n, j as int);
            lemma_class_at(cs@, bs@[j as int]@);
        }
        let ghost before = views(out@);
        match find_class_at(cs, bs[j].as_slice()) {
            Some(i) => {
                proof {
                    assert(raw_ends(cs@, bv[j as int], n));
                    assert(n > 0);
                }
                push_attr_names(&info[i].attributes, out);
                collect_fields_of(&cs[i].bases, cs, info, out, Ghost((n - 1) as nat));
                proof {
                    assert(views(out@) =~= start + dc_fields_of(cs@, info@, bv.take(j + 1), n));
                }
            },
            None => {
                proof {
                    assert(views(out@) =~= start + dc_fields_of(cs@, info@, bv.take(j + 1), n));
                }
            },
        }
        j += 1;
    }
    proof {
        assert(bv.take(j as int) =~= bv);
    }
}

/// Appends the findings for unknown keyword arguments of a dataclass call (see `dc_reports`).
pub fn check_dataclass_unknown_kwargs(
    call: &CtorCall,
    k: usize,
    cs: &Vec<HierarchyClass>,
    info: &Vec<CtorFacts>,
    out: &mut Vec<CtorReport>,
)
    requires
        k < cs@.len(),
        info@.len() == cs@.len(),
        ctor_walks_end(cs@),
    ensures
        reports_view(final(out)@) == reports_view(old(out)@) + dc_reports(*call, cs@, info@, k as int),
{
    let ghost e = dc_reports(*call, cs@, info@, k as int);
    if !info[k].is_dataclass || call.keywords.len() == 0 {
        assert(reports_view(out@) =~= reports_view(out@) + e);
        return;
    }
    proof {
        assert(raw_all_ends(cs@, views(cs@[k as int].bases@), cs@.len()));
    }
    let mut known: Vec<Vec<char>> = Vec::new();
    push_attr_names(&info[k].attributes, &mut known);
    collect_fields_of(&cs[k].bases, cs, info, &mut known, Ghost(cs@.len()));
    proof {
        assert(views(known@) =~= dc_fields(cs@, info@, k as int));
    }
    if known.len() == 0 {
        assert(reports_view(out@) =~= reports_view(out@) + e);
        return;
    }
    let class = cs[k].name.as_slice();
    let ghost start = reports_view(out@);
    let ghost kv = views(known@);
    let mut i: usize = 0;
    while i < call.keywords.len()
        invariant
            i <= call.keywords@.len(),
            kv == views(known@),
            reports_view(out@) == start + dc_unknown_kwargs(class@, call.keywords@.take(i as int), kv),
        decreases call.keywords.len() - i,
    {
        proof {
            assert(call.keywords@.take(i + 1).drop_last() =~= call.keywords@.take(i as int));
            assert(call.keywords@.take(i + 1).last() == call.keywords@[i as int]);
        }
        let kw = &call.keywords[i];
        let ghost before = reports_view(out@);
        match &kw.name {
            Some(n) => {
                if !contains_name(&known, n.as_slice()) {
                    push_report(out, class, CtorFinding::DataclassUnknownField { field: copy_text(n.as_slice()) }, kw.span);
                } else {
                    assert(reports_view(out@) =~= before + Seq::empty());
                }
            },
            None => {
                assert(reports_view(out@) =~= before + Seq::empty());
            },
        }
        proof {
            assert(start + dc_unknown_kwargs(class@, call.keywords@.take(i + 1), kv) =~= reports_view(out@));
        }
        i += 1;
    }
    proof {
        assert(call.keywords@.take(i as int) =~= call.keywords@);
    }
}

// ---------------------------------------------------------------------------
// Specialized generic `NamedTuple` constructors
// ---------------------------------------------------------------------------

/// The substitution of the first `n` type parameters by the type arguments;
/// a repeated parameter takes its last argument.
pub open spec fn subs_of(params: Seq<Seq<char>>, targs: Seq<Seq<char>>, n: int) -> Seq<(Seq<char>, Seq<char>)>
    decreases n,
{
    if n <= 0 {
        Seq::empty()
    } else {
        assoc_insert(subs_of(params, targs, n - 1), params[n - 1], targs[n - 1])
    }
}

/// An annotation after substitution.
pub open spec fn resolved(ann: Seq<char>, subs: Seq<(Seq<char>, Seq<char>)>) -> Seq<char> {
    match assoc_get(subs, ann) {
        Some(v) => v,
        None => ann,
    }
}

/// `check_generic_nt_arg_types` for the first `n` positional arguments.
pub open spec fn gen_arg_findings(
    class: Seq<char>,
    args: Seq<CtorArg>,
    attrs: Seq<CtorAttr>,
    fi: Seq<int>,
    subs: Seq<(Seq<char>, Seq<char>)>,
    n: int,
) -> Seq<(Seq<char>, FindingV, u32, u32)>
    decreases n,
{
    if n <= 0 {
        Seq::empty()
    } else {
        let f = attrs[fi[n - 1]];
        gen_arg_findings(class, args, attrs, fi, subs, n - 1) + match f.annotation {
            Some(a) => match type_mismatch(args[n - 1].literal_type, resolved(trim(a@), subs)) {
                Some(t) => one(
                    class,
                    FindingV::GenericArgType((n - 1) as nat, t, resolved(trim(a@), subs), f.name@),
                    args[n - 1].span,
                ),
                None => Seq::empty(),
            },
            None => Seq::empty(),
        }
    }
}

/// The findings for arguments of a call `NT[args](...)` of a generic `NamedTuple` that do not fit their field once its type variables are substituted.
pub open spec fn generic_nt_reports(
    call: CtorCall,
    cs: Seq<HierarchyClass>,
    info: Seq<CtorFacts>,
    k: int,
    targs: Seq<Seq<char>>,
) -> Seq<(Seq<char>, FindingV, u32, u32)> {
    let params = views(info[k].generic_params@);
    let m = min_len(params.len(), targs.len());
    if !namedtuple_class(cs, cs[k]) || m == 0 {
        Seq::empty()
    } else {
        let attrs = info[k].attributes@;
        let fi = annotated_idx(attrs);
        gen_arg_findings(
            cs[k].name@,
            call.args@,
            attrs,
            fi,
            subs_of(params, targs, m as int),
            min_len(call.args@.len(), fi.len()) as int,
        )
    }
}

fn subs_insert(t: &mut Vec<(Vec<char>, Vec<char>)>, k: Vec<char>, v: Vec<char>)
    ensures
        pairs_view(final(t)@) == assoc_insert(pairs_view(old(t)@), k@, v@),
{
    let ghost tv = pairs_view(t@);
    let f = assoc_find(t, k.as_slice());
    proof {
        assert forall|j: int| 0 <= j < t@.len() implies tv[j].0 == t@[j].0@ by {}
        lemma_found_index(t@, tv, k@, f);
    }
    let ghost kv = k@;
    let ghost vv = v@;
    match f {
        Some(i) => {
            t.set(i, (k, v));
            proof {
                assert(pairs_view(t@) =~= tv.update(i as int, (kv, vv)));
            }
        },
        None => {
            t.push((k, v));
            proof {
                assert(pairs_view(t@) =~= tv.push((kv, vv)));
            }
        },
    }
}

fn resolve(ann: Vec<char>, subs: &Vec<(Vec<char>, Vec<char>)>) -> (r: Vec<char>)
    ensures
        r@ == resolved(ann@, pairs_view(subs@)),
{
    let ghost tv = pairs_view(subs@);
    let f = assoc_find(subs, ann.as_slice());
    proof {
        assert forall|j: int| 0 <= j < subs@.len() implies tv[j].0 == subs@[j].0@ by {}
        lemma_found_index(subs@, tv, ann@, f);
    }
    match f {
        Some(i) => copy_text(subs[i].1.as_slice()),
        None => ann,
    }
}

/// Appends the findings for a call of a generic `NamedTuple` with explicit type arguments (see `generic_nt_reports`).
pub fn check_generic_nt_arg_types(
    call: &CtorCall,
    k: usize,
    type_args: &Vec<Vec<char>>,
    cs: &Vec<HierarchyClass>,
    info: &Vec<CtorFacts>,
    out: &mut Vec<CtorReport>,
)
    requires
        k < cs@.len(),
        info@.len() == cs@.len(),
        ctor_walks_end(cs@),
    ensures
        reports_view(final(out)@) == reports_view(old(out)@) + generic_nt_reports(
            *call,
            cs@,
            info@,
            k as int,
            views(type_args@),
        ),
{
    proof {
        assert(all_walk_ends(cs@, base_names(cs@[k as int]), cs@.len()));
    }
    let ghost e = generic_nt_reports(*call, cs@, info@, k as int, views(type_args@));
    let params = &info[k].generic_params;
    let ghost pv = views(params@);
    let ghost av = views(type_args@);
    let m = if params.len() < type_args.len() {
        params.len()
    } else {
        type_args.len()
    };
    if !is_namedtuple_class(&cs[k], cs) || m == 0 {
        assert(reports_view(out@) =~= reports_view(out@) + e);
        return;
    }
    let mut subs: Vec<(Vec<char>, Vec<char>)> = Vec::new();
    let mut p: usize = 0;
    while p < m
        invariant
            p <= m,
            m <= params@.len(),
            m <= type_args@.len(),
            pv == views(params@),
            av == views(type_args@),
            pairs_view(subs@) == subs_of(pv, av, p as int),
        decreases m - p,
    {
        proof {
            assert(pv[p as int] == params@[p as int]@);
            assert(av[p as int] == type_args@[p as int]@);
        }
        subs_insert(&mut subs, copy_text(params[p].as_slice()), copy_text(type_args[p].as_slice()));
        p += 1;
    }
    let ghost sv = pairs_view(subs@);
    let attrs = &info[k].attributes;
    let fi = annotated_indices(attrs);
    let ghost fv = fi@.map_values(|x: usize| x as int);
    let class = cs[k].name.as_slice();
    let args = &call.args;
    let ghost start = reports_view(out@);
    let mut i: usize = 0;
    while i < args.len() && i < fi.len()
        invariant
            i <= args@.len(),
            i <= fi@.len(),
            fv == fi@.map_values(|x: usize| x as int),
            sv == pairs_view(subs@),
            forall|j: int| 0 <= j < fi@.len() ==> #[trigger] fi@[j] < attrs@.len(),
            reports_view(out@) == start + gen_arg_findings(class@, args@, attrs@, fv, sv, i as int),
        decreases args.len() - i,
    {
        let f = &attrs[fi[i]];
        let ghost before = reports_view(out@);
        proof {
            assert(fv[i as int] == fi@[i as int] as int);
        }
        match &f.annotation {
            Some(a) => {
                let ann = resolve(trim_chars(a.as_slice()), &subs);
                match mismatch(&args[i].literal_type, ann.as_slice()) {
                    Some(t) => {
                        push_report(
                            out,
                            class,
                            CtorFinding::GenericArgType {
                                index: i,
                                arg_type: t,
                                expected: ann,
                                field: copy_text(f.name.as_slice()),
                            },
                            args[i].span,
                        );
                    },
                    None => {
                        assert(reports_view(out@) =~= before + Seq::empty());
                    },
                }
            },
            None => {
                assert(reports_view(out@) =~= before + Seq::empty());
            },
        }
        i += 1;
    }
    proof {
        assert(i as int == min_len(args@.len(), fi@.len()));
        assert(m as int == min_len(pv.len(), av.len()));
    }
}

// ---------------------------------------------------------------------------
// The call
// ---------------------------------------------------------------------------

/// What `check_constructor_call` reports of one call, in order. On
/// `Class(...)`: arguments to a class that takes none, unknown dataclass
/// fields, then the `NamedTuple` checks. On `Class[...](...)` of a generic
/// class: the field types of a generic `NamedTuple` after substitution.
pub open spec fn constructor_call_reports(
    call: CtorCall,
    cs: Seq<HierarchyClass>,
    info: Seq<CtorFacts>,
    ks: Seq<(Seq<char>, Seq<char>)>,
) -> Seq<(Seq<char>, FindingV, u32, u32)> {
    match call.callee {
        CtorCallee::Name { class } => match class_at(cs, class@) {
            Some(k) => no_init_report(call, cs, info, ks, k) + dc_reports(call, cs, info, k) + nt_reports(
                call,
                cs,
                info,
                k,
            ),
            None => Seq::empty(),
        },
        CtorCallee::Subscript { class, type_args } => match class_at(cs, class@) {
            Some(k) => if info[k].generic_params@.len() == 0 {
                Seq::empty()
            } else {
                generic_nt_reports(call, cs, info, k, views(type_args@))
            },
            None => Seq::empty(),
        },
        CtorCallee::Other => Seq::empty(),
    }
}

/// `check_constructor_call`: appends what `constructor_call_reports` states.
/// The classes are those of the module with, index by index, their
/// constructor facts; the methods are `(class, method)` names.
pub fn check_constructor_call(
    call: &CtorCall,
    classes: &Vec<HierarchyClass>,
    facts: &Vec<CtorFacts>,
    methods: &Vec<(Vec<char>, Vec<char>)>,
    out: &mut Vec<CtorReport>,
)
    requires
        facts@.len() == classes@.len(),
        ctor_walks_end(classes@),
    ensures
        reports_view(final(out)@) == reports_view(old(out)@) + constructor_call_reports(
            *call,
            classes@,
            facts@,
            method_keys(methods@),
        ),
{
    let ghost start = reports_view(out@);
    match &call.callee {
        CtorCallee::Name { class } => match find_class_at(classes, class.as_slice()) {
            Some(k) => {
                check_no_init_with_args(call, k, classes, facts, methods, out);
                check_dataclass_unknown_kwargs(call, k, classes, facts, out);
                check_namedtuple_constructor(call, k, classes, facts, out);
                proof {
                    assert(reports_view(out@) =~= start + constructor_call_reports(
                        *call,
                        classes@,
                        facts@,
                        method_keys(methods@),
                    ));
                }
            },
            None => {
                assert(reports_view(out@) =~= start + Seq::empty());
            },
        },
        CtorCallee::Subscript { class, type_args } => match find_class_at(classes, class.as_slice()) {
            Some(k) => {
                if facts[k].generic_params.len() == 0 {
                    assert(reports_view(out@) =~= start + Seq::empty());
                    return;
                }
                check_generic_nt_arg_types(call, k, type_args, classes, facts, out);
            },
            None => {
                assert(reports_view(out@) =~= start + Seq::empty());
            },
        },
        CtorCallee::Other => {
            assert(reports_view(out@) =~= start + Seq::empty());
        },
    }
}

// ---------------------------------------------------------------------------
// The module walk
// ---------------------------------------------------------------------------

/// An expression as `check_expr_recursive` reads it.
pub enum CtorExpr {
    /// A call, with its positional arguments as expressions.
    Call(CtorCall, Vec<CtorExpr>),
    Other,
}

/// A statement as `check_stmt` reads it.
pub enum CtorStmt {
    /// An expression statement, an assignment, or an annotated assignment with
    /// a value: the expression.
    Holds(CtorExpr),
    /// A `try`: its body, `else`, `finally` and handler bodies, in that order.
    Bodies(Vec<Vec<CtorStmt>>),
    Other,
}

/// `check_expr_recursive`: the calls among the arguments first, then the
/// call itself.
pub open spec fn ctor_expr_reports(
    e: CtorExpr,
    cs: Seq<HierarchyClass>,
    info: Seq<CtorFacts>,
    ks: Seq<(Seq<char>, Seq<char>)>,
) -> Seq<(Seq<char>, FindingV, u32, u32)>
    decreases e,
{
    match e {
        CtorExpr::Call(c, args) => ctor_exprs_reports(args@, cs, info, ks) + constructor_call_reports(c, cs, info, ks),
        CtorExpr::Other => Seq::empty(),
    }
}

pub open spec fn ctor_exprs_reports(
    es: Seq<CtorExpr>,
    cs: Seq<HierarchyClass>,
    info: Seq<CtorFacts>,
    ks: Seq<(Seq<char>, Seq<char>)>,
) -> Seq<(Seq<char>, FindingV, u32, u32)>
    decreases es,
{
    if es.len() == 0 {
        Seq::empty()
    } else {
        ctor_exprs_reports(es.drop_last(), cs, info, ks) + ctor_expr_reports(es.last(), cs, info, ks)
    }
}

/// The constructor-call findings that one statement holds, in source order.
pub open spec fn ctor_stmt_reports(
    s: CtorStmt,
    cs: Seq<HierarchyClass>,
    info: Seq<CtorFacts>,
    ks: Seq<(Seq<char>, Seq<char>)>,
) -> Seq<(Seq<char>, FindingV, u32, u32)>
    decreases s,
{
    match s {
        CtorStmt::Holds(e) => ctor_expr_reports(e, cs, info, ks),
        CtorStmt::Bodies(bs) => ctor_bodies_reports(bs@, cs, info, ks),
        CtorStmt::Other => Seq::empty(),
    }
}

pub open spec fn ctor_stmts_reports(
    ss: Seq<CtorStmt>,
    cs: Seq<HierarchyClass>,
    info: Seq<CtorFacts>,
    ks: Seq<(Seq<char>, Seq<char>)>,
) -> Seq<(Seq<char>, FindingV, u32, u32)>
    decreases ss,
{
    if ss.len() == 0 {
        Seq::empty()
    } else {
        ctor_stmts_reports(ss.drop_last(), cs, info, ks) + ctor_stmt_reports(ss.last(), cs, info, ks)
    }
}

pub open spec fn ctor_bodies_reports(
    bs: Seq<Vec<CtorStmt>>,
    cs: Seq<HierarchyClass>,
    info: Seq<CtorFacts>,
    ks: Seq<(Seq<char>, Seq<char>)>,
) -> Seq<(Seq<char>, FindingV, u32, u32)>
    decreases bs,
{
    if bs.len() == 0 {
        Seq::empty()
    } else {
        ctor_bodies_reports(bs.drop_last(), cs, info, ks) + ctor_stmts_reports(bs.last()@, cs, info, ks)
    }
}

/// Appends the constructor-call findings within one expression and its subexpressions.
pub fn check_expr_recursive(
    e: &CtorExpr,
    classes: &Vec<HierarchyClass>,
    facts: &Vec<CtorFacts>,
    methods: &Vec<(Vec<char>, Vec<char>)>,
    out: &mut Vec<CtorReport>,
)
    requires
        facts@.len() == classes@.len(),
        ctor_walks_end(classes@),
    ensures
        reports_view(final(out)@) == reports_view(old(out)@) + ctor_expr_reports(
            *e,
            classes@,
            facts@,
            method_keys(methods@),
        ),
    decreases e,
{
    match e {
        CtorExpr::Call(c, args) => {
            let ghost start = reports_view(out@);
            proof {
                assert(decreases_to!(*e => e->1));
            }
            check_exprs_recursive(args, classes, facts, methods, out);
            check_constructor_call(c, classes, facts, methods, out);
            proof {
                assert(reports_view(out@) =~= start + ctor_expr_reports(*e, classes@, facts@, method_keys(methods@)));
            }
        },
        CtorExpr::Other => {
            assert(reports_view(out@) =~= reports_view(out@) + Seq::empty());
        },
    }
}

fn check_exprs_recursive(
    es: &Vec<CtorExpr>,
    classes: &Vec<HierarchyClass>,
    facts: &Vec<CtorFacts>,
    methods: &Vec<(Vec<char>, Vec<char>)>,
    out: &mut Vec<CtorReport>,
)
    requires
        facts@.len() == classes@.len(),
        ctor_walks_end(classes@),
    ensures
        reports_view(final(out)@) == reports_view(old(out)@) + ctor_exprs_reports(
            es@,
            classes@,
            facts@,
            method_keys(methods@),
        ),
    decreases es,
{
    let ghost start = reports_view(out@);
    let ghost ks = method_keys(methods@);
    let mut i: usize = 0;
    while i < es.len()
        invariant
            i <= es@.len(),
            facts@.len() == classes@.len(),
            ctor_walks_end(classes@),
            ks == method_keys(methods@),
            reports_view(out@) == start + ctor_exprs_reports(es@.take(i as int), classes@, facts@, ks),
        decreases es.len() - i,
    {
        proof {
            vstd::std_specs::vec::axiom_vec_index_decreases(*es, i as int);
            assert(es@.take(i + 1).drop_last() =~= es@.take(i as int));
        }
        check_expr_recursive(&es[i], classes, facts, methods, out);
        proof {
            assert(es@.take(i + 1).last() == es@[i as int]);
            assert(reports_view(out@) =~= start + ctor_exprs_reports(es@.take(i + 1), classes@, facts@, ks));
        }
        i += 1;
    }
    proof {
        assert(es@.take(i as int) =~= es@);
    }
}

/// Appends the constructor-call findings within one statement and the statements it nests.
pub fn check_stmt(
    s: &CtorStmt,
    classes: &Vec<HierarchyClass>,
    facts: &Vec<CtorFacts>,
    methods: &Vec<(Vec<char>, Vec<char>)>,
    out: &mut Vec<CtorReport>,
)
    requires
        facts@.len() == classes@.len(),
        ctor_walks_end(classes@),
    ensures
        reports_view(final(out)@) == reports_view(old(out)@) + ctor_stmt_reports(
            *s,
            classes@,
            facts@,
            method_keys(methods@),
        ),
    decreases s,
{
    match s {
        CtorStmt::Holds(e) => check_expr_recursive(e, classes, facts, methods, out),
        CtorStmt::Bodies(bodies) => {
            let ghost start = reports_view(out@);
            let ghost ks = method_keys(methods@);
            let mut i: usize = 0;
            while i < bodies.len()
                invariant
                    i <= bodies@.len(),
                    facts@.len() == classes@.len(),
                    ctor_walks_end(classes@),
                    ks == method_keys(methods@),
                    *s == CtorStmt::Bodies(*bodies),
                    reports_view(out@) == start + ctor_bodies_reports(bodies@.take(i as int), classes@, facts@, ks),
                decreases bodies.len() - i,
            {
                proof {
                    assert(decreases_to!(*s => s->Bodies_0));
                    vstd::std_specs::vec::axiom_vec_index_decreases(*bodies, i as int);
                    assert(bodies@.take(i + 1).drop_last() =~= bodies@.take(i as int));
                }
                check_stmts(&bodies[i], classes, facts, methods, out);
                proof {
                    assert(bodies@.take(i + 1).last() == bodies@[i as int]);
                    assert(reports_view(out@) =~= start + ctor_bodies_reports(bodies@.take(i + 1), classes@, facts@, ks));
                }
                i += 1;
            }
            proof {
                assert(bodies@.take(i as int) =~= bodies@);
            }
        },
        CtorStmt::Other => {
            assert(reports_view(out@) =~= reports_view(out@) + Seq::empty());
        },
    }
}

/// The constructor calls of the module's statements, in order.
pub fn check_stmts(
    ss: &Vec<CtorStmt>,
    classes: &Vec<HierarchyClass>,
    facts: &Vec<CtorFacts>,
    methods: &Vec<(Vec<char>, Vec<char>)>,
    out: &mut Vec<CtorReport>,
)
    requires
        facts@.len() == classes@.len(),
        ctor_walks_end(classes@),
    ensures
        reports_view(final(out)@) == reports_view(old(out)@) + ctor_stmts_reports(
            ss@,
            classes@,
            facts@,
            method_keys(methods@),
        ),
    decreases ss,
{
    let ghost start = reports_view(out@);
    let ghost ks = method_keys(methods@);
    let mut i: usize = 0;
    while i < ss.len()
        invariant
            i <= ss@.len(),
            facts@.len() == classes@.len(),
            ctor_walks_end(classes@),
            ks == method_keys(methods@),
            reports_view(out@) == start + ctor_stmts_reports(ss@.take(i as int), classes@, facts@, ks),
        decreases ss.len() - i,
    {
        proof {
            vstd::std_specs::vec::axiom_vec_index_decreases(*ss, i as int);
            assert(ss@.take(i + 1).drop_last() =~= ss@.take(i as int));
        }
        check_stmt(&ss[i], classes, facts, methods, out);
        proof {
            assert(ss@.take(i + 1).last() == ss@[i as int]);
            assert(reports_view(out@) =~= start + ctor_stmts_reports(ss@.take(i + 1), classes@, facts@, ks));
        }
        i += 1;
    }
    proof {
        assert(ss@.take(i as int) =~= ss@);
    }
}

// ---------------------------------------------------------------------------
// Testing that the walks end
// ---------------------------------------------------------------------------

proof fn lemma_walk_prefix(cs: Seq<HierarchyClass>, bs: Seq<Seq<char>>, m: nat, k: int)
    requires
        0 <= k <= bs.len(),
        !all_walk_ends(cs, bs.take(k), m),
    ensures
        !all_walk_ends(cs, bs, m),
    decreases bs.len() - k,
{
    if k < bs.len() {
        assert(bs.take(k + 1).drop_last() =~= bs.take(k));
        lemma_walk_prefix(cs, bs, m, k + 1);
    } else {
        assert(bs.take(k) =~= bs);
    }
}

proof fn lemma_raw_prefix(cs: Seq<HierarchyClass>, bs: Seq<Seq<char>>, m: nat, k: int)
    requires
        0 <= k <= bs.len(),
        !raw_all_ends(cs, bs.take(k), m),
    ensures
        !raw_all_ends(cs, bs, m),
    decreases bs.len() - k,
{
    if k < bs.len() {
        assert(bs.take(k + 1).drop_last() =~= bs.take(k));
        lemma_raw_prefix(cs, bs, m, k + 1);
    } else {
        assert(bs.take(k) =~= bs);
    }
}

/// Whether every walk from `bs` through base names ends within `m` steps.
fn base_name_walks_end(cs: &Vec<HierarchyClass>, bs: &Vec<Vec<char>>, m: usize) -> (r: bool)
    ensures
        r == all_walk_ends(cs@, views(bs@), m as nat),
    decreases m,
{
    let ghost bv = views(bs@);
    let mut j: usize = 0;
    proof {
        assert(bv.take(0) =~= Seq::<Seq<char>>::empty());
    }
    while j < bs.len()
        invariant
            j <= bs@.len(),
            bv == views(bs@),
            all_walk_ends(cs@, bv.take(j as int), m as nat),
        decreases bs.len() - j,
    {
        proof {
            assert(bv.take(j + 1).drop_last() =~= bv.take(j as int));
            assert(bv.take(j + 1).last() == bs@[j as int]@);
            lemma_class_at(cs@, bs@[j as int]@);
        }
        if let Some(i) = find_class_at(cs, bs[j].as_slice()) {
            let ok = m > 0 && {
                let inner = all_base_names(&cs[i]);
                base_name_walks_end(cs, &inner, m - 1)
            };
            if !ok {
                proof {
                    assert(!walk_ends(cs@, bv[j as int], m as nat));
                    lemma_walk_prefix(cs@, bv, m as nat, j + 1);
                }
                return false;
            }
            proof {
                assert(walk_ends(cs@, bv[j as int], m as nat));
            }
        } else {
            assert(walk_ends(cs@, bv[j as int], m as nat));
        }
        assert(all_walk_ends(cs@, bv.take(j + 1), m as nat));
        j += 1;
    }
    proof {
        assert(bv.take(j as int) =~= bv);
    }
    true
}

/// Whether every walk from `bs` through the bases as written ends within `m`
/// steps.
fn written_base_walks_end(cs: &Vec<HierarchyClass>, bs: &Vec<Vec<char>>, m: usize) -> (r: bool)
    ensures
        r == raw_all_ends(cs@, views(bs@), m as nat),
    decreases m,
{
    let ghost bv = views(bs@);
    let mut j: usize = 0;
    proof {
        assert(bv.take(0) =~= Seq::<Seq<char>>::empty());
    }
    while j < bs.len()
        invariant
            j <= bs@.len(),
            bv == views(bs@),
            raw_all_ends(cs@, bv.take(j as int), m as nat),
        decreases bs.len() - j,
    {
        proof {
            assert(bv.take(j + 1).drop_last() =~= bv.take(j as int));
            assert(bv.take(j + 1).last() == bs@[j as int]@);
            lemma_class_at(cs@, bs@[j as int]@);
        }
        if let Some(i) = find_class_at(cs, bs[j].as_slice()) {
            let ok = m > 0 && written_base_walks_end(cs, &cs[i].bases, m - 1);
            if !ok {
                proof {
                    assert(!raw_ends(cs@, bv[j as int], m as nat));
                    lemma_raw_prefix(cs@, bv, m as nat, j + 1);
                }
                return false;
            }
            proof {
                assert(raw_ends(cs@, bv[j as int], m as nat));
            }
        } else {
            assert(raw_ends(cs@, bv[j as int], m as nat));
        }
        assert(raw_all_ends(cs@, bv.take(j + 1), m as nat));
        j += 1;
    }
    proof {
        assert(bv.take(j as int) =~= bv);
    }
    true
}

/// Whether the constructor checks may be called on these classes: no walk
/// from a class through its bases comes back to it.
pub fn walks_end(classes: &Vec<HierarchyClass>) -> (r: bool)
    ensures
        r == ctor_walks_end(classes@),
{
    let mut k: usize = 0;
    while k < classes.len()
        invariant
            k <= classes@.len(),
            forall|q: int|
                0 <= q < k ==> all_walk_ends(classes@, base_names(#[trigger] classes@[q]), classes@.len())
                    && raw_all_ends(classes@, views(classes@[q].bases@), classes@.len()),
        decreases classes.len() - k,
    {
        let names = all_base_names(&classes[k]);
        let a = base_name_walks_end(classes, &names, classes.len());
        let b = written_base_walks_end(classes, &classes[k].bases, classes.len());
        if !(a && b) {
            proof {
                assert(!(all_walk_ends(classes@, base_names(classes@[k as int]), classes@.len())
                    && raw_all_ends(classes@, views(classes@[k as int].bases@), classes@.len())));
            }
            return false;
        }
        k += 1;
    }
    true
}

/// `check_stmts` on classes whose walks end, `None` on others.
pub fn check_stmts_if_walks_end(
    ss: &Vec<CtorStmt>,
    classes: &Vec<HierarchyClass>,
    facts: &Vec<CtorFacts>,
    methods: &Vec<(Vec<char>, Vec<char>)>,
) -> (r: Option<Vec<CtorReport>>)
    requires
        facts@.len() == classes@.len(),
    ensures
        r is None <==> !ctor_walks_end(classes@),
        r matches Some(v) ==> reports_view(v@) == ctor_stmts_reports(ss@, classes@, facts@, method_keys(methods@)),
{
    if !walks_end(classes) {
        return None;
    }
    let mut out: Vec<CtorReport> = Vec::new();
    check_stmts(ss, classes, facts, methods, &mut out);
    assert(reports_view(out@) =~= Seq::empty() + ctor_stmts_reports(ss@, classes@, facts@, method_keys(methods@)));
    Some(out)
}

} // verus!
