//! Instance-only attributes of generic classes accessed on the class object:
//! `Node.label = 1`, `Node[int].label = 1`, `Node.label`, `type(n).label`.
use vstd::prelude::*;

use crate::annotations::{assignment_target, is_assignment_target};
use crate::generic_calls::{word_len, word_len_exec};
use crate::literal_values::closing_sq;
use crate::position::{indent_of, leading_indent, line_sum};
use crate::text::{lines, lines_exec};
use crate::assoc::{assoc_find, assoc_get, assoc_index, assoc_insert, lemma_found_index};
use crate::literal_string::byte_char_index;
use crate::module::{copy_text, VarSite};
use crate::names::contains_name;
use crate::position::{lemma_utf8_len_subrange, utf8_len, utf8_len_prefix, Span};
use crate::text::{
    before_char, before_char_exec, char_is_alphanumeric, chars_of, eq_chars, eq_str, find_char,
    find_char_exec, first_where, is_whitespace, is_ws, lemma_find_char, lemma_first_where_at,
    lemma_first_where_none, lemma_rfind_char, rfind_char, rfind_char_exec, slice_of, starts_with,
    starts_with_exec, starts_with_lit, trim, trim_chars, trim_start, trim_start_chars,
    unicode_alphanumeric, views,
};

verus! {

/// An attribute of a class as the rule reads it.
pub struct ClassAttr {
    pub name: Vec<char>,
    pub has_annotation: bool,
    pub has_value: bool,
    /// The source text of the annotation.
    pub annotation: Option<Vec<char>>,
}

/// A class as the rule reads it.
pub struct AttrClass {
    pub name: Vec<char>,
    pub has_generic_params: bool,
    pub attributes: Vec<ClassAttr>,
}

/// A module-level assignment `object.attr = ...`.
pub struct AttrTarget {
    pub object_name: Vec<char>,
    pub attr_name: Vec<char>,
    pub target_span: Span,
}

/// An instance-only attribute read or written on a class object.
pub struct InstanceAttrReport {
    pub object: Vec<char>,
    pub attr: Vec<char>,
    pub span: Span,
}

impl InstanceAttrReport {
    /// The finding's message.
    pub fn message(&self) -> (r: Vec<char>)
        ensures
            r@ == "Cannot access instance attribute `"@ + self.attr@ + "` on class object `"@ + self.object@ + "`"@,
    {
        let mut m = crate::text::chars_of("Cannot access instance attribute `");
        crate::text::push_chars(&mut m, self.attr.as_slice());
        crate::text::push_lit(&mut m, "` on class object `");
        crate::text::push_chars(&mut m, self.object.as_slice());
        crate::text::push_lit(&mut m, "`");
        m
    }
}

pub open spec fn report_view(r: InstanceAttrReport) -> (Seq<char>, Seq<char>, u32, u32) {
    (r.object@, r.attr@, r.span.start, r.span.end)
}

pub open spec fn reports_view(v: Seq<InstanceAttrReport>) -> Seq<(Seq<char>, Seq<char>, u32, u32)> {
    v.map_values(|r: InstanceAttrReport| report_view(r))
}

// ---------------------------------------------------------------------------
// The instance-only attributes of each generic class
// ---------------------------------------------------------------------------

/// `is_classvar_annotation`: the trimmed annotation is `ClassVar` or
/// `ClassVar[...]`.
pub open spec fn classvar(ann: Option<Vec<char>>) -> bool {
    match ann {
        Some(t) => trim(t@) == "ClassVar"@ || starts_with(trim(t@), "ClassVar["@),
        None => false,
    }
}

/// Whether the trimmed annotation is `ClassVar` or `ClassVar[...]`.
pub fn is_classvar_annotation(ann: &Option<Vec<char>>) -> (r: bool)
    ensures
        r == classvar(*ann),
{
    match ann {
        Some(t) => {
            let tt = trim_chars(t.as_slice());
            eq_str(tt.as_slice(), "ClassVar") || starts_with_lit(tt.as_slice(), "ClassVar[")
        },
        None => false,
    }
}

/// Annotated, without a value, and not a `ClassVar`.
pub open spec fn instance_only(a: ClassAttr) -> bool {
    a.has_annotation && !a.has_value && !classvar(a.annotation)
}

pub open spec fn instance_attrs(s: Seq<ClassAttr>) -> Seq<Seq<char>>
    decreases s.len(),
{
    if s.len() == 0 {
        Seq::empty()
    } else if instance_only(s.last()) {
        instance_attrs(s.drop_last()).push(s.last().name@)
    } else {
        instance_attrs(s.drop_last())
    }
}

/// The classes with type parameters and instance-only attributes, each
/// with those attributes; a later class of a name replaces an earlier one
/// in place.
pub open spec fn attr_table(cs: Seq<AttrClass>) -> Seq<(Seq<char>, Seq<Seq<char>>)>
    decreases cs.len(),
{
    if cs.len() == 0 {
        Seq::empty()
    } else {
        let prev = attr_table(cs.drop_last());
        let c = cs.last();
        let attrs = instance_attrs(c.attributes@);
        if c.has_generic_params && attrs.len() > 0 {
            assoc_insert(prev, c.name@, attrs)
        } else {
            prev
        }
    }
}

pub open spec fn table_view(t: Seq<(Vec<char>, Vec<Vec<char>>)>) -> Seq<(Seq<char>, Seq<Seq<char>>)> {
    t.map_values(|e: (Vec<char>, Vec<Vec<char>>)| (e.0@, views(e.1@)))
}

fn table_insert(t: &mut Vec<(Vec<char>, Vec<Vec<char>>)>, k: Vec<char>, v: Vec<Vec<char>>)
    ensures
        table_view(final(t)@) == assoc_insert(table_view(old(t)@), k@, views(v@)),
{
    let ghost tv = table_view(t@);
    let f = assoc_find(t, k.as_slice());
    proof {
        assert forall|j: int| 0 <= j < t@.len() implies tv[j].0 == t@[j].0@ by {}
        lemma_found_index(t@, tv, k@, f);
    }
    let ghost kv = k@;
    let ghost vv = views(v@);
    match f {
        Some(i) => {
            t.set(i, (k, v));
            proof {
                assert(table_view(t@) =~= tv.update(i as int, (kv, vv)));
            }
        },
        None => {
            t.push((k, v));
            proof {
                assert(table_view(t@) =~= tv.push((kv, vv)));
            }
        },
    }
}

fn table_get<'a>(t: &'a Vec<(Vec<char>, Vec<Vec<char>>)>, k: &[char]) -> (r: Option<&'a Vec<Vec<char>>>)
    ensures
        match r {
            Some(v) => assoc_get(table_view(t@), k@) == Some(views(v@)),
            None => assoc_get(table_view(t@), k@) is None,
        },
{
    let ghost tv = table_view(t@);
    let f = assoc_find(t, k);
    proof {
        assert forall|j: int| 0 <= j < t@.len() implies tv[j].0 == t@[j].0@ by {}
        lemma_found_index(t@, tv, k@, f);
    }
    match f {
        Some(i) => Some(&t[i].1),
        None => None,
    }
}

fn build_table(cs: &Vec<AttrClass>) -> (r: Vec<(Vec<char>, Vec<Vec<char>>)>)
    ensures
        table_view(r@) == attr_table(cs@),
{
    let mut t: Vec<(Vec<char>, Vec<Vec<char>>)> = Vec::new();
    let mut i: usize = 0;
    while i < cs.len()
        invariant
            i <= cs@.len(),
            table_view(t@) == attr_table(cs@.take(i as int)),
        decreases cs.len() - i,
    {
        proof {
            assert(cs@.take(i + 1).drop_last() =~= cs@.take(i as int));
            assert(cs@.take(i + 1).last() == cs@[i as int]);
        }
        let c = &cs[i];
        let mut attrs: Vec<Vec<char>> = Vec::new();
        let mut k: usize = 0;
        while k < c.attributes.len()
            invariant
                k <= c.attributes@.len(),
                views(attrs@) == instance_attrs(c.attributes@.take(k as int)),
            decreases c.attributes.len() - k,
        {
            proof {
                assert(c.attributes@.take(k + 1).drop_last() =~= c.attributes@.take(k as int));
                assert(c.attributes@.take(k + 1).last() == c.attributes@[k as int]);
            }
            let a = &c.attributes[k];
            if a.has_annotation && !a.has_value && !is_classvar_annotation(&a.annotation) {
                let ghost before = views(attrs@);
                attrs.push(copy_text(a.name.as_slice()));
                assert(views(attrs@) =~= before.push(a.name@));
            }
            k += 1;
        }
        proof {
            assert(c.attributes@.take(k as int) =~= c.attributes@);
        }
        if c.has_generic_params && attrs.len() > 0 {
            table_insert(&mut t, copy_text(c.name.as_slice()), attrs);
        }
        i += 1;
    }
    proof {
        assert(cs@.take(i as int) =~= cs@);
    }
    t
}

// ---------------------------------------------------------------------------
// Variables bound to an instance
// ---------------------------------------------------------------------------

/// Where a callee ends: at the first `(` or `[`.
pub open spec fn call_open(s: Seq<char>) -> spec_fn(int) -> bool {
    |k: int| s[k] == '(' || s[k] == '['
}

/// The class a right-hand side calls: the trimmed text before the first
/// `(` or `[`, after its last `.`.
pub open spec fn callee_of(rhs: Seq<char>) -> Seq<char> {
    let head = match first_where(call_open(rhs), rhs.len() as int) {
        Some(k) => rhs.take(k),
        None => rhs,
    };
    let t = trim(head);
    match rfind_char(t, '.') {
        Some(d) => t.skip(d + 1),
        None => t,
    }
}

/// The variables assigned an instance of a class of the table, with that
/// class; a later variable of a name replaces an earlier one in place.
pub open spec fn var_table(vs: Seq<VarSite>, table: Seq<(Seq<char>, Seq<Seq<char>>)>) -> Seq<(Seq<char>, Seq<char>)>
    decreases vs.len(),
{
    if vs.len() == 0 {
        Seq::empty()
    } else {
        let prev = var_table(vs.drop_last(), table);
        let v = vs.last();
        match v.rhs {
            Some(r) => if assoc_index(table, callee_of(r@)) is Some {
                assoc_insert(prev, v.name@, callee_of(r@))
            } else {
                prev
            },
            None => prev,
        }
    }
}

fn callee_exec(rhs: &[char]) -> (r: Vec<char>)
    ensures
        r@ == callee_of(rhs@),
{
    let mut k: usize = 0;
    while k < rhs.len() && !(rhs[k] == '(' || rhs[k] == '[')
        invariant
            k <= rhs@.len(),
            forall|j: int| 0 <= j < k ==> !#[trigger] call_open(rhs@)(j),
        decreases rhs.len() - k,
    {
        k += 1;
    }
    proof {
        if k < rhs@.len() {
            lemma_first_where_at(call_open(rhs@), k as int, rhs@.len() as int);
        } else {
            lemma_first_where_none(call_open(rhs@), rhs@.len() as int);
        }
    }
    let head = slice_of(rhs, 0, k);
    proof {
        if k == rhs@.len() {
            assert(head@ =~= rhs@);
        } else {
            assert(head@ =~= rhs@.take(k as int));
        }
    }
    let t = trim_chars(head.as_slice());
    proof {
        lemma_rfind_char(t@, '.');
    }
    match rfind_char_exec(t.as_slice(), '.') {
        Some(d) => {
            assert(rfind_char(t@, '.') == Some(d as int));
            let n = t.len();
            assert(d < n);
            let r = slice_of(t.as_slice(), d + 1, n);
            proof {
                assert(r@ =~= t@.skip(d + 1));
            }
            r
        },
        None => t,
    }
}

pub open spec fn vtable_view(t: Seq<(Vec<char>, Vec<char>)>) -> Seq<(Seq<char>, Seq<char>)> {
    t.map_values(|e: (Vec<char>, Vec<char>)| (e.0@, e.1@))
}

fn build_var_table(vs: &Vec<VarSite>, table: &Vec<(Vec<char>, Vec<Vec<char>>)>) -> (r: Vec<
    (Vec<char>, Vec<char>),
>)
    ensures
        vtable_view(r@) == var_table(vs@, table_view(table@)),
{
    let ghost tv = table_view(table@);
    let mut t: Vec<(Vec<char>, Vec<char>)> = Vec::new();
    let mut i: usize = 0;
    while i < vs.len()
        invariant
            i <= vs@.len(),
            tv == table_view(table@),
            vtable_view(t@) == var_table(vs@.take(i as int), tv),
        decreases vs.len() - i,
    {
        proof {
            assert(vs@.take(i + 1).drop_last() =~= vs@.take(i as int));
            assert(vs@.take(i + 1).last() == vs@[i as int]);
        }
        let v = &vs[i];
        if let Some(r) = &v.rhs {
            let c = callee_exec(r.as_slice());
            let f = assoc_find(table, c.as_slice());
            proof {
                assert forall|j: int| 0 <= j < table@.len() implies tv[j].0 == table@[j].0@ by {}
                lemma_found_index(table@, tv, c@, f);
            }
            if f.is_some() {
                let ghost vt = vtable_view(t@);
                let g = assoc_find(&t, v.name.as_slice());
                proof {
                    assert forall|j: int| 0 <= j < t@.len() implies vt[j].0 == t@[j].0@ by {}
                    lemma_found_index(t@, vt, v.name@, g);
                }
                let ghost kv = v.name@;
                let ghost cv = c@;
                match g {
                    Some(j) => {
                        t.set(j, (copy_text(v.name.as_slice()), c));
                        proof {
                            assert(vtable_view(t@) =~= vt.update(j as int, (kv, cv)));
                        }
                    },
                    None => {
                        t.push((copy_text(v.name.as_slice()), c));
                        proof {
                            assert(vtable_view(t@) =~= vt.push((kv, cv)));
                        }
                    },
                }
            }
        }
        i += 1;
    }
    proof {
        assert(vs@.take(i as int) =~= vs@);
    }
    t
}

// ---------------------------------------------------------------------------
// Reading a line
// ---------------------------------------------------------------------------

pub open spec fn opt_seq(o: Option<(Seq<char>, Seq<char>, u32, u32)>) -> Seq<(Seq<char>, Seq<char>, u32, u32)> {
    match o {
        Some(x) => seq![x],
        None => Seq::empty(),
    }
}

pub open spec fn opt_report(o: Option<InstanceAttrReport>) -> Option<(Seq<char>, Seq<char>, u32, u32)> {
    match o {
        Some(r) => Some(report_view(r)),
        None => None,
    }
}

/// Whitespace or `=`: where the attribute of `C[...].attr = v` ends.
pub open spec fn ws_or_eq(s: Seq<char>) -> spec_fn(int) -> bool {
    |k: int| is_ws(s[k]) || s[k] == '='
}

pub open spec fn stop_at(p: spec_fn(int) -> bool, n: int) -> int {
    match first_where(p, n) {
        Some(k) => k,
        None => n,
    }
}

/// After spaces comes `=`, not `==`.
pub open spec fn assigns_after(after: Seq<char>) -> bool {
    let a = trim_start(after);
    a.len() > 0 && a[0] == '=' && !(a.len() > 1 && a[1] == '=')
}

/// The statement part of a trimmed line: the text before its first `#`,
/// trimmed.
pub open spec fn stmt_of(t: Seq<char>) -> Seq<char> {
    trim(before_char(t, '#'))
}

/// `check_subscript_class_attr_assign` for one class: `C[...].attr = value`
/// with `attr` instance-only; the span covers `C[...].attr`.
pub open spec fn subscript_assign(t: Seq<char>, c: Seq<char>, attrs: Seq<Seq<char>>, ls: u32) -> Option<
    (Seq<char>, Seq<char>, u32, u32),
> {
    let p = c.push('[');
    if !starts_with(t, p) {
        None
    } else {
        let rest = t.skip(p.len() as int);
        match first_where(closing_sq(rest), rest.len() as int) {
            None => None,
            Some(close) => if close + 1 < rest.len() && rest[close + 1] == '.' {
                let ad = rest.skip(close + 2);
                let n = stop_at(ws_or_eq(ad), ad.len() as int);
                let attr = ad.take(n);
                if n > 0 && assigns_after(ad.skip(n)) && attrs.contains(attr) {
                    Some((c, attr, ls, (ls + utf8_len(t.take(p.len() + close + 2 + n))) as u32))
                } else {
                    None
                }
            } else {
                None
            },
        }
    }
}

/// `check_standalone_class_attr` for one class: the statement is `C.attr`
/// (and the line no assignment to it) or `C[...].attr`, with `attr`
/// instance-only; the span covers the expression.
pub open spec fn standalone(t: Seq<char>, c: Seq<char>, attrs: Seq<Seq<char>>, ls: u32) -> Option<
    (Seq<char>, Seq<char>, u32, u32),
> {
    let s = stmt_of(t);
    let dp = c.push('.');
    let bp = c.push('[');
    if starts_with(s, dp) {
        let ad = s.skip(dp.len() as int);
        let n = word_len(ad) as int;
        let attr = ad.take(n);
        if n > 0 && attrs.contains(attr) && trim(ad.skip(n)).len() == 0 && !assignment_target(
            t,
            utf8_len(dp) + utf8_len(attr),
        ) {
            Some((c, attr, ls, (ls + utf8_len(s.take(dp.len() + n))) as u32))
        } else {
            None
        }
    } else if starts_with(s, bp) {
        let rest = s.skip(bp.len() as int);
        match first_where(closing_sq(rest), rest.len() as int) {
            None => None,
            Some(close) => if close + 1 < rest.len() && rest[close + 1] == '.' {
                let ad = rest.skip(close + 2);
                let n = word_len(ad) as int;
                let attr = ad.take(n);
                if n > 0 && attrs.contains(attr) && trim(ad.skip(n)).len() == 0 {
                    Some((c, attr, ls, (ls + utf8_len(s.take(bp.len() + close + 2 + n))) as u32))
                } else {
                    None
                }
            } else {
                None
            },
        }
    } else {
        None
    }
}

/// `check_type_call_attr`: the statement is `type(v).attr` where `v` was
/// assigned an instance of a class whose instance-only attributes hold
/// `attr`; the span covers the statement.
pub open spec fn type_call(
    t: Seq<char>,
    table: Seq<(Seq<char>, Seq<Seq<char>>)>,
    vt: Seq<(Seq<char>, Seq<char>)>,
    ls: u32,
) -> Option<(Seq<char>, Seq<char>, u32, u32)> {
    let s = stmt_of(t);
    if !starts_with(s, "type("@) {
        None
    } else {
        let at = s.skip(5);
        match find_char(at, ')') {
            None => None,
            Some(cp) => {
                let var = trim(at.take(cp));
                let ap = at.skip(cp + 1);
                if ap.len() > 0 && ap[0] == '.' {
                    let ad = ap.skip(1);
                    let n = word_len(ad) as int;
                    let attr = ad.take(n);
                    if n == 0 || trim(ad.skip(n)).len() > 0 {
                        None
                    } else {
                        match assoc_get(vt, var) {
                            None => None,
                            Some(cls) => match assoc_get(table, cls) {
                                None => None,
                                Some(attrs) => if attrs.contains(attr) {
                                    Some(("type("@ + var + seq![')'], attr, ls, (ls + utf8_len(s)) as u32))
                                } else {
                                    None
                                },
                            },
                        }
                    }
                } else {
                    None
                }
            },
        }
    }
}

pub open spec fn subscript_all(t: Seq<char>, table: Seq<(Seq<char>, Seq<Seq<char>>)>, ls: u32) -> Seq<
    (Seq<char>, Seq<char>, u32, u32),
>
    decreases table.len(),
{
    if table.len() == 0 {
        Seq::empty()
    } else {
        subscript_all(t, table.drop_last(), ls) + opt_seq(
            subscript_assign(t, table.last().0, table.last().1, ls),
        )
    }
}

pub open spec fn standalone_all(t: Seq<char>, table: Seq<(Seq<char>, Seq<Seq<char>>)>, ls: u32) -> Seq<
    (Seq<char>, Seq<char>, u32, u32),
>
    decreases table.len(),
{
    if table.len() == 0 {
        Seq::empty()
    } else {
        standalone_all(t, table.drop_last(), ls) + opt_seq(standalone(t, table.last().0, table.last().1, ls))
    }
}

/// What a line at byte offset `off` shows: nothing for a blank or comment
/// line; else, at the offset of its trimmed text, the subscript assignments,
/// the standalone reads, and the `type(v).attr` read.
pub open spec fn line_reports(
    line: Seq<char>,
    off: nat,
    table: Seq<(Seq<char>, Seq<Seq<char>>)>,
    vt: Seq<(Seq<char>, Seq<char>)>,
) -> Seq<(Seq<char>, Seq<char>, u32, u32)> {
    let t = trim(line);
    if t.len() == 0 || t[0] == '#' {
        Seq::empty()
    } else {
        let ls = (off + indent_of(line)) as u32;
        subscript_all(t, table, ls) + standalone_all(t, table, ls) + opt_seq(type_call(t, table, vt, ls))
    }
}

/// The first `n` lines, each at its byte offset.
pub open spec fn scan_reports(
    ls: Seq<Seq<char>>,
    n: int,
    table: Seq<(Seq<char>, Seq<Seq<char>>)>,
    vt: Seq<(Seq<char>, Seq<char>)>,
) -> Seq<(Seq<char>, Seq<char>, u32, u32)>
    decreases n,
{
    if n <= 0 {
        Seq::empty()
    } else {
        scan_reports(ls, n - 1, table, vt) + line_reports(ls[n - 1], line_sum(ls, n - 1), table, vt)
    }
}

/// Assignments `C.attr = v` (as the module lists them) to an instance-only
/// attribute, at the target's span.
pub open spec fn assignment_reports(asg: Seq<AttrTarget>, table: Seq<(Seq<char>, Seq<Seq<char>>)>) -> Seq<
    (Seq<char>, Seq<char>, u32, u32),
>
    decreases asg.len(),
{
    if asg.len() == 0 {
        Seq::empty()
    } else {
        let a = asg.last();
        assignment_reports(asg.drop_last(), table) + match assoc_get(table, a.object_name@) {
            Some(attrs) => if attrs.contains(a.attr_name@) {
                seq![(a.object_name@, a.attr_name@, a.target_span.start, a.target_span.end)]
            } else {
                Seq::empty()
            },
            None => Seq::empty(),
        }
    }
}

/// The findings of the rule: nothing when no generic class has an
/// instance-only attribute; else the assignments the module lists, then what
/// each line shows.
pub open spec fn instance_attr_reports(
    source: Seq<char>,
    classes: Seq<AttrClass>,
    vars: Seq<VarSite>,
    asg: Seq<AttrTarget>,
) -> Seq<(Seq<char>, Seq<char>, u32, u32)> {
    let table = attr_table(classes);
    if table.len() == 0 {
        Seq::empty()
    } else {
        assignment_reports(asg, table) + scan_reports(
            lines(source),
            lines(source).len() as int,
            table,
            var_table(vars, table),
        )
    }
}

// ---------------------------------------------------------------------------
// The checks
// ---------------------------------------------------------------------------

proof fn lemma_take_bytes(s: Seq<char>, n: int)
    requires
        0 <= n <= s.len(),
    ensures
        utf8_len(s.take(n)) <= utf8_len(s),
{
    lemma_utf8_len_subrange(s, 0, n);
    assert(s.subrange(0, n) =~= s.take(n));
}

/// The statement part of a trimmed line that starts with neither a space nor
/// `#` is a prefix of the line.
proof fn lemma_stmt_prefix(t: Seq<char>)
    requires
        t.len() > 0,
        !is_ws(t[0]),
        t[0] != '#',
    ensures
        stmt_of(t).len() <= t.len(),
        stmt_of(t) == t.take(stmt_of(t).len() as int),
{
    lemma_find_char(t, '#');
    let b = before_char(t, '#');
    match find_char(t, '#') {
        Some(i) => {
            assert(i != 0);
            assert(b == t.take(i));
        },
        None => {
            assert(b == t);
        },
    }
    assert(b.len() > 0 && b[0] == t[0]);
    assert(trim_start(b) == b);
    crate::text::lemma_trim_end_is_prefix(b);
    let m = stmt_of(t).len() as int;
    assert(stmt_of(t) =~= t.take(m));
}

fn stop_ws_eq(s: &[char]) -> (r: usize)
    ensures
        r as int == stop_at(ws_or_eq(s@), s@.len() as int),
        r <= s@.len(),
{
    let mut i: usize = 0;
    while i < s.len()
        invariant
            i <= s@.len(),
            forall|j: int| 0 <= j < i ==> !#[trigger] ws_or_eq(s@)(j),
        decreases s.len() - i,
    {
        if is_whitespace(s[i]) || s[i] == '=' {
            proof {
                assert(ws_or_eq(s@)(i as int));
                lemma_first_where_at(ws_or_eq(s@), i as int, s@.len() as int);
            }
            return i;
        }
        i += 1;
    }
    proof {
        lemma_first_where_none(ws_or_eq(s@), s@.len() as int);
    }
    i
}

fn with_char(c: &[char], x: char) -> (r: Vec<char>)
    ensures
        r@ == c@.push(x),
{
    let mut v = copy_text(c);
    v.push(x);
    v
}

/// `check_subscript_class_attr_assign` for one class.
fn subscript_one(t: &[char], c: &[char], attrs: &Vec<Vec<char>>, ls: u32) -> (r: Option<InstanceAttrReport>)
    requires
        ls + utf8_len(t@) <= u32::MAX,
    ensures
        opt_report(r) == subscript_assign(t@, c@, views(attrs@), ls),
{
    let p = with_char(c, '[');
    if !starts_with_exec(t, p.as_slice()) {
        return None;
    }
    let rest = slice_of(t, p.len(), t.len());
    proof {
        assert(rest@ =~= t@.skip(p@.len() as int));
    }
    let close = match crate::tuple_index::find_matching_bracket(rest.as_slice()) {
        Some(k) => k,
        None => return None,
    };
    proof {
        crate::text::lemma_first_where_some(closing_sq(rest@), rest@.len() as int);
    }
    if !(close + 1 < rest.len() && rest[close + 1] == '.') {
        return None;
    }
    let ad = slice_of(rest.as_slice(), close + 2, rest.len());
    proof {
        assert(ad@ =~= rest@.skip(close + 2));
    }
    let n = stop_ws_eq(ad.as_slice());
    if n == 0 {
        return None;
    }
    let tail = slice_of(ad.as_slice(), n, ad.len());
    proof {
        assert(tail@ =~= ad@.skip(n as int));
    }
    let after = trim_start_chars(tail.as_slice());
    if !(after.len() > 0 && after[0] == '=' && !(after.len() > 1 && after[1] == '=')) {
        return None;
    }
    let attr = slice_of(ad.as_slice(), 0, n);
    proof {
        assert(attr@ =~= ad@.take(n as int));
    }
    if !contains_name(attrs, attr.as_slice()) {
        return None;
    }
    let cut = p.len() + close + 2 + n;
    proof {
        lemma_take_bytes(t@, cut as int);
        crate::position::lemma_utf8_len_bounds(t@);
    }
    let bytes = utf8_len_prefix(t, cut);
    let end = ls + bytes as u32;
    Some(InstanceAttrReport { object: copy_text(c), attr, span: Span { start: ls, end } })
}

/// `check_standalone_class_attr` for one class; `s` is the statement part of
/// the line.
fn standalone_one(t: &[char], s: &[char], c: &[char], attrs: &Vec<Vec<char>>, ls: u32) -> (r: Option<
    InstanceAttrReport,
>)
    requires
        t@.len() > 0,
        !is_ws(t@[0]),
        t@[0] != '#',
        s@ == stmt_of(t@),
        ls + utf8_len(t@) <= u32::MAX,
    ensures
        opt_report(r) == standalone(t@, c@, views(attrs@), ls),
{
    proof {
        lemma_stmt_prefix(t@);
        lemma_take_bytes(t@, s@.len() as int);
        crate::position::lemma_utf8_len_bounds(t@);
    }
    let dp = with_char(c, '.');
    if starts_with_exec(s, dp.as_slice()) {
        let ad = slice_of(s, dp.len(), s.len());
        proof {
            assert(ad@ =~= s@.skip(dp@.len() as int));
        }
        let n = word_len_exec(ad.as_slice());
        let attr = slice_of(ad.as_slice(), 0, n);
        let tail = slice_of(ad.as_slice(), n, ad.len());
        let rem = trim_chars(tail.as_slice());
        proof {
            assert(attr@ =~= ad@.take(n as int));
            assert(tail@ =~= ad@.skip(n as int));
        }
        if n > 0 && contains_name(attrs, attr.as_slice()) && rem.len() == 0 {
            let cut = dp.len() + n;
            proof {
                assert(s@.take(cut as int) =~= dp@ + attr@);
                assert(t@.take(cut as int) =~= s@.take(cut as int));
                crate::position::lemma_utf8_len_add(dp@, attr@);
                crate::literal_string::lemma_byte_char_index(t@, cut as int, utf8_len(dp@) + utf8_len(attr@));
                lemma_take_bytes(s@, cut as int);
                lemma_take_bytes(t@, cut as int);
            }
            if !is_assignment_target(t, dp.as_slice(), attr.as_slice()) {
                let bytes = utf8_len_prefix(s, cut);
                let end = ls + bytes as u32;
                return Some(InstanceAttrReport { object: copy_text(c), attr, span: Span { start: ls, end } });
            }
        }
        return None;
    }
    let bp = with_char(c, '[');
    if !starts_with_exec(s, bp.as_slice()) {
        return None;
    }
    let rest = slice_of(s, bp.len(), s.len());
    proof {
        assert(rest@ =~= s@.skip(bp@.len() as int));
    }
    let close = match crate::tuple_index::find_matching_bracket(rest.as_slice()) {
        Some(k) => k,
        None => return None,
    };
    proof {
        crate::text::lemma_first_where_some(closing_sq(rest@), rest@.len() as int);
    }
    if !(close + 1 < rest.len() && rest[close + 1] == '.') {
        return None;
    }
    let ad = slice_of(rest.as_slice(), close + 2, rest.len());
    proof {
        assert(ad@ =~= rest@.skip(close + 2));
    }
    let n = word_len_exec(ad.as_slice());
    let attr = slice_of(ad.as_slice(), 0, n);
    let tail = slice_of(ad.as_slice(), n, ad.len());
    let rem = trim_chars(tail.as_slice());
    proof {
        assert(attr@ =~= ad@.take(n as int));
        assert(tail@ =~= ad@.skip(n as int));
    }
    if !(n > 0 && contains_name(attrs, attr.as_slice()) && rem.len() == 0) {
        return None;
    }
    let cut = bp.len() + close + 2 + n;
    proof {
        lemma_take_bytes(s@, cut as int);
    }
    let bytes = utf8_len_prefix(s, cut);
    let end = ls + bytes as u32;
    Some(InstanceAttrReport { object: copy_text(c), attr, span: Span { start: ls, end } })
}

fn vtable_get<'a>(t: &'a Vec<(Vec<char>, Vec<char>)>, k: &[char]) -> (r: Option<&'a Vec<char>>)
    ensures
        match r {
            Some(v) => assoc_get(vtable_view(t@), k@) == Some(v@),
            None => assoc_get(vtable_view(t@), k@) is None,
        },
{
    let ghost tv = vtable_view(t@);
    let f = assoc_find(t, k);
    proof {
        assert forall|j: int| 0 <= j < t@.len() implies tv[j].0 == t@[j].0@ by {}
        lemma_found_index(t@, tv, k@, f);
    }
    match f {
        Some(i) => Some(&t[i].1),
        None => None,
    }
}

/// `check_type_call_attr`; `s` is the statement part of the line.
fn type_call_one(
    t: &[char],
    s: &[char],
    table: &Vec<(Vec<char>, Vec<Vec<char>>)>,
    vt: &Vec<(Vec<char>, Vec<char>)>,
    ls: u32,
) -> (r: Option<InstanceAttrReport>)
    requires
        t@.len() > 0,
        !is_ws(t@[0]),
        t@[0] != '#',
        s@ == stmt_of(t@),
        ls + utf8_len(t@) <= u32::MAX,
    ensures
        opt_report(r) == type_call(t@, table_view(table@), vtable_view(vt@), ls),
{
    proof {
        lemma_stmt_prefix(t@);
        lemma_take_bytes(t@, s@.len() as int);
        crate::position::lemma_utf8_len_bounds(t@);
        reveal_strlit("type(");
    }
    if !starts_with_lit(s, "type(") {
        return None;
    }
    let at = slice_of(s, 5, s.len());
    proof {
        assert(at@ =~= s@.skip(5));
        lemma_find_char(at@, ')');
    }
    let cp = match find_char_exec(at.as_slice(), ')') {
        Some(k) => k,
        None => return None,
    };
    let head = slice_of(at.as_slice(), 0, cp);
    let var = trim_chars(head.as_slice());
    let ap = slice_of(at.as_slice(), cp + 1, at.len());
    proof {
        assert(head@ =~= at@.take(cp as int));
        assert(ap@ =~= at@.skip(cp + 1));
    }
    if !(ap.len() > 0 && ap[0] == '.') {
        return None;
    }
    let ad = slice_of(ap.as_slice(), 1, ap.len());
    proof {
        assert(ad@ =~= ap@.skip(1));
    }
    let n = word_len_exec(ad.as_slice());
    let attr = slice_of(ad.as_slice(), 0, n);
    let tail = slice_of(ad.as_slice(), n, ad.len());
    let rem = trim_chars(tail.as_slice());
    proof {
        assert(attr@ =~= ad@.take(n as int));
        assert(tail@ =~= ad@.skip(n as int));
    }
    if n == 0 || rem.len() > 0 {
        return None;
    }
    let cls = match vtable_get(vt, var.as_slice()) {
        Some(c) => c,
        None => return None,
    };
    let attrs = match table_get(table, cls.as_slice()) {
        Some(a) => a,
        None => return None,
    };
    if !contains_name(attrs, attr.as_slice()) {
        return None;
    }
    let mut object = chars_of("type(");
    let mut q: usize = 0;
    let ghost o0 = object@;
    while q < var.len()
        invariant
            q <= var@.len(),
            object@ == o0 + var@.take(q as int),
        decreases var.len() - q,
    {
        object.push(var[q]);
        proof {
            assert(object@ =~= o0 + var@.take(q + 1));
        }
        q += 1;
    }
    object.push(')');
    proof {
        assert(var@.take(q as int) =~= var@);
        assert(s@.take(s@.len() as int) =~= s@);
    }
    let bytes = utf8_len_prefix(s, s.len());
    let end = ls + bytes as u32;
    Some(InstanceAttrReport { object, attr, span: Span { start: ls, end } })
}

fn push_opt(out: &mut Vec<InstanceAttrReport>, o: Option<InstanceAttrReport>)
    ensures
        reports_view(final(out)@) == reports_view(old(out)@) + opt_seq(opt_report(o)),
{
    let ghost before = reports_view(out@);
    match o {
        Some(x) => {
            let ghost xv = report_view(x);
            out.push(x);
            proof {
                assert(reports_view(out@) =~= before + seq![xv]);
            }
        },
        None => {
            assert(reports_view(out@) =~= before + Seq::empty());
        },
    }
}

/// Scans one non-blank, non-comment line `t` (trimmed) starting at byte `ls`.
fn scan_line(
    t: &[char],
    ls: u32,
    table: &Vec<(Vec<char>, Vec<Vec<char>>)>,
    vt: &Vec<(Vec<char>, Vec<char>)>,
    out: &mut Vec<InstanceAttrReport>,
)
    requires
        t@.len() > 0,
        !is_ws(t@[0]),
        t@[0] != '#',
        ls + utf8_len(t@) <= u32::MAX,
    ensures
        reports_view(final(out)@) == reports_view(old(out)@) + subscript_all(t@, table_view(table@), ls)
            + standalone_all(t@, table_view(table@), ls) + opt_seq(
            type_call(t@, table_view(table@), vtable_view(vt@), ls),
        ),
{
    let ghost tv = table_view(table@);
    let ghost start = reports_view(out@);
    let mut i: usize = 0;
    while i < table.len()
        invariant
            i <= table@.len(),
            tv == table_view(table@),
            ls + utf8_len(t@) <= u32::MAX,
            reports_view(out@) == start + subscript_all(t@, tv.take(i as int), ls),
        decreases table.len() - i,
    {
        proof {
            assert(tv.take(i + 1).drop_last() =~= tv.take(i as int));
            assert(tv.take(i + 1).last() == tv[i as int]);
            assert(tv[i as int] == (table@[i as int].0@, views(table@[i as int].1@)));
        }
        let ghost before = reports_view(out@);
        let o = subscript_one(t, table[i].0.as_slice(), &table[i].1, ls);
        push_opt(out, o);
        proof {
            assert(reports_view(out@) =~= start + subscript_all(t@, tv.take(i + 1), ls));
        }
        i += 1;
    }
    proof {
        assert(tv.take(i as int) =~= tv);
    }
    let ghost mid = reports_view(out@);
    let hashless = before_char_exec(t, '#');
    let stmt = trim_chars(hashless.as_slice());
    let mut i: usize = 0;
    while i < table.len()
        invariant
            i <= table@.len(),
            tv == table_view(table@),
            t@.len() > 0,
            !is_ws(t@[0]),
            t@[0] != '#',
            stmt@ == stmt_of(t@),
            ls + utf8_len(t@) <= u32::MAX,
            reports_view(out@) == mid + standalone_all(t@, tv.take(i as int), ls),
        decreases table.len() - i,
    {
        proof {
            assert(tv.take(i + 1).drop_last() =~= tv.take(i as int));
            assert(tv.take(i + 1).last() == tv[i as int]);
            assert(tv[i as int] == (table@[i as int].0@, views(table@[i as int].1@)));
        }
        let o = standalone_one(t, stmt.as_slice(), table[i].0.as_slice(), &table[i].1, ls);
        push_opt(out, o);
        proof {
            assert(reports_view(out@) =~= mid + standalone_all(t@, tv.take(i + 1), ls));
        }
        i += 1;
    }
    proof {
        assert(tv.take(i as int) =~= tv);
    }
    let o = type_call_one(t, stmt.as_slice(), table, vt, ls);
    push_opt(out, o);
    proof {
        assert(reports_view(out@) =~= start + subscript_all(t@, tv, ls) + standalone_all(t@, tv, ls)
            + opt_seq(type_call(t@, tv, vtable_view(vt@), ls)));
    }
}

/// The findings on the assignments the module lists.
fn check_assignments(
    asg: &Vec<AttrTarget>,
    table: &Vec<(Vec<char>, Vec<Vec<char>>)>,
    out: &mut Vec<InstanceAttrReport>,
)
    ensures
        reports_view(final(out)@) == reports_view(old(out)@) + assignment_reports(asg@, table_view(table@)),
{
    let ghost tv = table_view(table@);
    let ghost start = reports_view(out@);
    let mut i: usize = 0;
    while i < asg.len()
        invariant
            i <= asg@.len(),
            tv == table_view(table@),
            reports_view(out@) == start + assignment_reports(asg@.take(i as int), tv),
        decreases asg.len() - i,
    {
        proof {
            assert(asg@.take(i + 1).drop_last() =~= asg@.take(i as int));
            assert(asg@.take(i + 1).last() == asg@[i as int]);
        }
        let a = &asg[i];
        let ghost before = reports_view(out@);
        match table_get(table, a.object_name.as_slice()) {
            Some(attrs) => {
                if contains_name(attrs, a.attr_name.as_slice()) {
                    let r = InstanceAttrReport {
                        object: copy_text(a.object_name.as_slice()),
                        attr: copy_text(a.attr_name.as_slice()),
                        span: a.target_span,
                    };
                    let ghost rv = report_view(r);
                    out.push(r);
                    proof {
                        assert(reports_view(out@) =~= before + seq![rv]);
                    }
                } else {
                    assert(reports_view(out@) =~= before + Seq::empty());
                }
            },
            None => {
                assert(reports_view(out@) =~= before + Seq::empty());
            },
        }
        proof {
            assert(reports_view(out@) =~= start + assignment_reports(asg@.take(i + 1), tv));
        }
        i += 1;
    }
    proof {
        assert(asg@.take(i as int) =~= asg@);
    }
}

/// A trimmed text that is not empty starts with no whitespace.
proof fn lemma_trim_first(x: Seq<char>)
    ensures
        trim(x).len() > 0 ==> !is_ws(trim(x)[0]),
        utf8_len(trim(x)) <= utf8_len(trim_start(x)),
        utf8_len(trim_start(x)) <= utf8_len(x),
{
    crate::text::lemma_trim_start_is_suffix(x);
    crate::text::lemma_trim_end_is_prefix(trim_start(x));
    crate::position::lemma_trim_lens(x);
    crate::position::lemma_trim_lens(trim_start(x));
    if trim(x).len() > 0 {
        assert(trim(x)[0] == trim_start(x)[0]);
    }
}

/// Instance-only attributes accessed on a class object.
pub struct InstanceAttrOnClass;

impl InstanceAttrOnClass {
    /// The findings of a module, as `instance_attr_reports` states: the
    /// classes, the module-level variables with the text assigned to them,
    /// and the `object.attr = ...` assignments the module lists.
    pub fn check(
        &self,
        source: &[char],
        classes: &Vec<AttrClass>,
        vars: &Vec<VarSite>,
        assigns: &Vec<AttrTarget>,
    ) -> (r: Vec<InstanceAttrReport>)
        requires
            utf8_len(source@) < u32::MAX,
        ensures
            reports_view(r@) == instance_attr_reports(source@, classes@, vars@, assigns@),
    {
        let mut out: Vec<InstanceAttrReport> = Vec::new();
        let table = build_table(classes);
        if table.len() == 0 {
            proof {
                assert(reports_view(out@) =~= Seq::empty());
            }
            return out;
        }
        let vt = build_var_table(vars, &table);
        check_assignments(assigns, &table, &mut out);
        let ghost mid = reports_view(out@);
        let ghost tv = table_view(table@);
        let ghost vv = vtable_view(vt@);
        let ls = lines_exec(source);
        let ghost lv = views(ls@);
        proof {
            crate::position::lemma_line_sum_bound(source@);
            crate::position::lemma_lines_utf8_len(source@);
            assert(line_sum(lv, 0) == 0);
        }
        let mut off: u64 = 0;
        let mut k: usize = 0;
        while k < ls.len()
            invariant
                k <= ls@.len(),
                lv == views(ls@),
                lv == lines(source@),
                tv == table_view(table@),
                vv == vtable_view(vt@),
                utf8_len(source@) < u32::MAX,
                off == line_sum(lv, k as int),
                k < ls@.len() ==> off + utf8_len(lv[k as int]) <= utf8_len(source@),
                forall|q: int| 0 <= q < lv.len() ==> line_sum(lv, q) + utf8_len(#[trigger] lv[q]) <= utf8_len(source@),
                reports_view(out@) == mid + scan_reports(lv, k as int, tv, vv),
            decreases ls.len() - k,
        {
            let line = ls[k].as_slice();
            proof {
                assert(lv[k as int] == line@);
                crate::position::lemma_line_sum_step(lv, k as int);
                lemma_trim_first(line@);
            }
            let t = trim_chars(line);
            let ghost before = reports_view(out@);
            if t.len() == 0 || t[0] == '#' {
                proof {
                    assert(line_reports(lv[k as int], off as nat, tv, vv) =~= Seq::empty());
                    assert(reports_view(out@) =~= before + line_reports(lv[k as int], off as nat, tv, vv));
                }
            } else {
                let lead = leading_indent(line);
                let start = (off + lead as u64) as u32;
                proof {
                    assert(start == (off + indent_of(line@)) as u32);
                }
                scan_line(t.as_slice(), start, &table, &vt, &mut out);
            }
            proof {
                assert(reports_view(out@) =~= mid + scan_reports(lv, k + 1, tv, vv));
                crate::position::lemma_utf8_len_bounds(line@);
                assert(line@.take(line@.len() as int) =~= line@);
            }
            let width = utf8_len_prefix(line, line.len());
            off = off + width as u64 + 1;
            k += 1;
        }
        out
    }
}

} // verus!
