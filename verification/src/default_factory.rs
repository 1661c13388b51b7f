//! A dataclass field `x: T = field(default_factory=F)` where the built-in
//! type `F` builds values of a type incompatible with `T`.
use vstd::prelude::*;

use crate::module::copy_text;
use crate::position::Span;
use crate::text::{
    all_alnum_or_underscore, before_char, before_char_exec, eq_str, find_char, find_char_exec,
    find_str, find_str_exec, is_alnum_underscore_word, lemma_find_char, lemma_find_str, slice_of,
    starts_with, starts_with_lit, trim, trim_chars, trim_start, trim_start_chars,
};

verus! {

/// `extract_default_factory_type`: in `field(... default_factory=F ...)`,
/// `F` up to the next `,` (else the next `)`, else the end), trimmed, when it
/// is made of letters, digits and `_` only.
pub open spec fn factory_type(rhs: Seq<char>) -> Option<Seq<char>> {
    let t = trim(rhs);
    if !starts_with(t, "field("@) {
        None
    } else {
        let inner = trim_start(t.skip(6));
        match find_str(inner, "default_factory="@) {
            None => None,
            Some(idx) => {
                let after = inner.skip(idx + 16);
                let end = match find_char(after, ',') {
                    Some(e) => e,
                    None => match find_char(after, ')') {
                        Some(e) => e,
                        None => after.len() as int,
                    },
                };
                let val = trim(after.take(end));
                if val.len() > 0 && all_alnum_or_underscore(val) {
                    Some(val)
                } else {
                    None
                }
            },
        }
    }
}

pub fn extract_default_factory_type(rhs: &[char]) -> (r: Option<Vec<char>>)
    ensures
        match r {
            Some(v) => factory_type(rhs@) == Some(v@),
            None => factory_type(rhs@) is None,
        },
{
    let t = trim_chars(rhs);
    if !starts_with_lit(t.as_slice(), "field(") {
        return None;
    }
    proof {
        reveal_strlit("field(");
        reveal_strlit("default_factory=");
    }
    let rest = slice_of(t.as_slice(), 6, t.len());
    proof {
        assert(rest@ =~= t@.skip(6));
    }
    let inner = trim_start_chars(rest.as_slice());
    let pat = crate::text::chars_of("default_factory=");
    proof {
        lemma_find_str(inner@, pat@);
    }
    let idx = match find_str_exec(inner.as_slice(), pat.as_slice()) {
        Some(i) => i,
        None => return None,
    };
    assert(idx + 16 <= inner.len());
    let after = slice_of(inner.as_slice(), idx + 16, inner.len());
    proof {
        assert(after@ =~= inner@.skip(idx + 16));
        lemma_find_char(after@, ',');
        lemma_find_char(after@, ')');
    }
    let end = match find_char_exec(after.as_slice(), ',') {
        Some(e) => e,
        None => match find_char_exec(after.as_slice(), ')') {
            Some(e) => e,
            None => after.len(),
        },
    };
    let head = slice_of(after.as_slice(), 0, end);
    proof {
        assert(head@ =~= after@.take(end as int));
    }
    let val = trim_chars(head.as_slice());
    if val.len() > 0 && is_alnum_underscore_word(val.as_slice()) {
        Some(val)
    } else {
        None
    }
}

pub open spec fn known_primitive(t: Seq<char>) -> bool {
    t == "str"@ || t == "int"@ || t == "float"@ || t == "bool"@ || t == "bytes"@
}

/// `is_factory_incompatible_with_annotation`: both the factory and the
/// first `|` alternative of the annotation are built-in primitives, and a
/// `str` or `bytes` factory meets another type, or a numeric factory meets
/// `str` or `bytes`.
pub open spec fn factory_incompatible(ft: Seq<char>, ann: Seq<char>) -> bool {
    let primary = trim(before_char(ann, '|'));
    known_primitive(ft) && known_primitive(primary) && if ft == "str"@ {
        primary != "str"@
    } else if ft == "bytes"@ {
        primary != "bytes"@
    } else {
        primary == "str"@ || primary == "bytes"@
    }
}

fn known_primitive_exec(t: &[char]) -> (r: bool)
    ensures
        r == known_primitive(t@),
{
    eq_str(t, "str") || eq_str(t, "int") || eq_str(t, "float") || eq_str(t, "bool") || eq_str(t, "bytes")
}

pub fn is_factory_incompatible_with_annotation(ft: &[char], ann: &[char]) -> (r: bool)
    ensures
        r == factory_incompatible(ft@, ann@),
{
    let first = before_char_exec(ann, '|');
    let primary = trim_chars(first.as_slice());
    if !known_primitive_exec(ft) || !known_primitive_exec(primary.as_slice()) {
        return false;
    }
    if eq_str(ft, "str") {
        !eq_str(primary.as_slice(), "str")
    } else if eq_str(ft, "bytes") {
        !eq_str(primary.as_slice(), "bytes")
    } else {
        eq_str(primary.as_slice(), "str") || eq_str(primary.as_slice(), "bytes")
    }
}

/// A class attribute as the rule reads it: its name and where it is,
/// whether it is assigned, and the source texts of its annotation and of the
/// assigned value when they could be read.
pub struct FieldSite {
    pub name: Vec<char>,
    pub name_span: Span,
    pub has_value: bool,
    pub annotation: Option<Vec<char>>,
    pub rhs: Option<Vec<char>>,
}

pub struct DataclassSite {
    pub is_dataclass: bool,
    pub attributes: Vec<FieldSite>,
}

/// Field `field`, annotated `annotation` (trimmed), has a default factory
/// `factory` building incompatible values; the span is that of the name.
pub struct FactoryMismatch {
    pub field: Vec<char>,
    pub annotation: Vec<char>,
    pub factory: Vec<char>,
    pub span: Span,
}

impl FactoryMismatch {
    /// The finding's message.
    pub fn message(&self) -> (r: Vec<char>)
        ensures
            r@ == "Field `"@ + self.field@ + "` is annotated as `"@ + self.annotation@ + "` but `default_factory="@ + self.factory@ + "` produces `"@ + self.factory@ + "` values"@,
    {
        let mut m = crate::text::chars_of("Field `");
        crate::text::push_chars(&mut m, self.field.as_slice());
        crate::text::push_lit(&mut m, "` is annotated as `");
        crate::text::push_chars(&mut m, self.annotation.as_slice());
        crate::text::push_lit(&mut m, "` but `default_factory=");
        crate::text::push_chars(&mut m, self.factory.as_slice());
        crate::text::push_lit(&mut m, "` produces `");
        crate::text::push_chars(&mut m, self.factory.as_slice());
        crate::text::push_lit(&mut m, "` values");
        m
    }
}

impl View for FactoryMismatch {
    type V = (Seq<char>, Seq<char>, Seq<char>, Span);

    open spec fn view(&self) -> Self::V {
        (self.field@, self.annotation@, self.factory@, self.span)
    }
}

pub open spec fn field_finding(a: FieldSite) -> Option<(Seq<char>, Seq<char>, Seq<char>, Span)> {
    if !a.has_value {
        None
    } else {
        match (a.annotation, a.rhs) {
            (Some(ann), Some(rhs)) => match factory_type(rhs@) {
                Some(ft) => if factory_incompatible(ft, trim(ann@)) {
                    Some((a.name@, trim(ann@), ft, a.name_span))
                } else {
                    None
                },
                None => None,
            },
            _ => None,
        }
    }
}

pub open spec fn fields_findings(fs: Seq<FieldSite>) -> Seq<(Seq<char>, Seq<char>, Seq<char>, Span)>
    decreases fs.len(),
{
    if fs.len() == 0 {
        Seq::empty()
    } else {
        fields_findings(fs.drop_last()) + match field_finding(fs.last()) {
            Some(x) => seq![x],
            None => Seq::empty(),
        }
    }
}

pub open spec fn classes_findings(cs: Seq<DataclassSite>) -> Seq<(Seq<char>, Seq<char>, Seq<char>, Span)>
    decreases cs.len(),
{
    if cs.len() == 0 {
        Seq::empty()
    } else {
        classes_findings(cs.drop_last()) + if cs.last().is_dataclass {
            fields_findings(cs.last().attributes@)
        } else {
            Seq::empty()
        }
    }
}

fn check_field(a: &FieldSite) -> (r: Option<FactoryMismatch>)
    ensures
        match r {
            Some(m) => field_finding(*a) == Some(m@),
            None => field_finding(*a) is None,
        },
{
    if !a.has_value {
        return None;
    }
    let (ann, rhs) = match (&a.annotation, &a.rhs) {
        (Some(x), Some(y)) => (x, y),
        _ => return None,
    };
    let ft = match extract_default_factory_type(rhs.as_slice()) {
        Some(f) => f,
        None => return None,
    };
    let t = trim_chars(ann.as_slice());
    if is_factory_incompatible_with_annotation(ft.as_slice(), t.as_slice()) {
        Some(FactoryMismatch { field: copy_text(a.name.as_slice()), annotation: t, factory: ft, span: a.name_span })
    } else {
        None
    }
}

/// Dataclass field default-factory mismatch.
pub struct DataclassFieldDefaultFactoryMismatch;

impl DataclassFieldDefaultFactoryMismatch {
    /// The finding of each field of each dataclass, in order, as
    /// `classes_findings` states.
    pub fn check(&self, classes: &Vec<DataclassSite>) -> (r: Vec<FactoryMismatch>)
        ensures
            r@.map_values(|m: FactoryMismatch| m@) == classes_findings(classes@),
    {
        let mut out: Vec<FactoryMismatch> = Vec::new();
        let mut k: usize = 0;
        while k < classes.len()
            invariant
                k <= classes@.len(),
                out@.map_values(|m: FactoryMismatch| m@) == classes_findings(classes@.take(k as int)),
            decreases classes.len() - k,
        {
            proof {
                assert(classes@.take(k + 1).drop_last() =~= classes@.take(k as int));
                assert(classes@.take(k + 1).last() == classes@[k as int]);
            }
            let c = &classes[k];
            if c.is_dataclass {
                let ghost before = out@.map_values(|m: FactoryMismatch| m@);
                let ghost fs = c.attributes@;
                let mut j: usize = 0;
                while j < c.attributes.len()
                    invariant
                        j <= fs.len(),
                        fs == c.attributes@,
                        out@.map_values(|m: FactoryMismatch| m@) == before + fields_findings(fs.take(j as int)),
                    decreases c.attributes.len() - j,
                {
                    proof {
                        assert(fs.take(j + 1).drop_last() =~= fs.take(j as int));
                        assert(fs.take(j + 1).last() == fs[j as int]);
                    }
                    let ghost mid = out@.map_values(|m: FactoryMismatch| m@);
                    let ghost extra = match field_finding(fs[j as int]) {
                        Some(x) => seq![x],
                        None => Seq::empty(),
                    };
                    proof {
                        assert(fields_findings(fs.take(j + 1)) == fields_findings(fs.take(j as int)) + extra);
                    }
                    if let Some(m) = check_field(&c.attributes[j]) {
                        out.push(m);
                    }
                    proof {
                        assert(out@.map_values(|m: FactoryMismatch| m@) =~= mid + extra);
                    }
                    j += 1;
                }
                proof {
                    assert(fs.take(j as int) =~= fs);
                }
            }
            proof {
                assert(out@.map_values(|m: FactoryMismatch| m@) =~= classes_findings(classes@.take(k + 1)));
            }
            k += 1;
        }
        proof {
            assert(classes@.take(k as int) =~= classes@);
        }
        out
    }
}

} // verus!
