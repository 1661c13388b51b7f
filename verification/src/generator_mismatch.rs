//! Generators whose yields, `yield from` delegations or returns do not fit
//! their `Generator[Y, S, R]` / `Iterator[Y]` / `Iterable[Y]` annotation.
use vstd::prelude::*;

use crate::generator::{
    annotation_view, body_end, call_name, constructor_name, expr_type_name, expr_type_name_exec,
    expr_type_of, extract_call_name, find_body_end, find_yield_expressions, generator_annotation,
    get_constructor_name, infer_expr_type, infer_list_element_type, is_send_type_compatible,
    is_type_compatible, lemma_body_end_bounds, list_element_type, parse_generator_annotation,
    send_compatible, type_compatible, yield_view, yields_from, yields_view, ExprType,
    GeneratorAnnotation, GeneratorAnnotationV, YieldExpr, YieldV,
};
use crate::module::copy_text;
use crate::position::{
    byte_boundary, char_at_byte, char_index_at_byte, char_width, lemma_char_at_byte, lemma_utf8_len_add,
    lemma_utf8_len_subrange, utf8_len, utf8_len_prefix, Span,
};
use crate::text::{
    eq_chars, eq_str, find_char, find_char_exec, lemma_find_char, lemma_rfind_char, rfind_char,
    rfind_char_exec, slice_of, trim, trim_chars,
};

verus! {

/// What the rule reads of a function.
pub struct GeneratorFunction {
    pub name: Vec<char>,
    /// The span of the `def` statement, in bytes.
    pub def_span: Span,
    /// The source text of the return annotation.
    pub return_annotation: Option<Vec<char>>,
    /// For each `return` statement: whether it has a value, and whether that
    /// value is a call.
    pub return_stmts: Vec<(bool, bool)>,
}

/// A mismatch in a generator.
pub enum GeneratorFinding {
    /// `yield value` where the value's simple type does not fit the yield
    /// type; `offset` is that of the `yield`.
    YieldType { offset: u32, expected: Vec<char>, got: Vec<char> },
    /// `yield from callee()` where the callee yields an unfitting type.
    YieldFromType { offset: u32, callee: Vec<char>, callee_yield: Vec<char>, expected: Vec<char> },
    /// `yield from callee()` where the send types do not fit.
    YieldFromSend { offset: u32, callee: Vec<char>, inner_send: Vec<char>, outer_send: Vec<char> },
    /// `yield from [...]` whose elements do not fit the yield type.
    YieldFromList { offset: u32, element: ExprType, expected: Vec<char> },
    /// A generator that returns `R` but whose returns give no value that could
    /// be one; reported at the `def`.
    MissingReturn { def_span: Span, return_type: Vec<char> },
}

/// A finding in the named function.
pub struct GeneratorReport {
    pub function: Vec<char>,
    pub finding: GeneratorFinding,
}

pub enum FindingV {
    YieldType(nat, Seq<char>, Seq<char>),
    YieldFromType(nat, Seq<char>, Seq<char>, Seq<char>),
    YieldFromSend(nat, Seq<char>, Seq<char>, Seq<char>),
    YieldFromList(nat, ExprType, Seq<char>),
    MissingReturn(Span, Seq<char>),
}

pub open spec fn finding_view(f: GeneratorFinding) -> FindingV {
    match f {
        GeneratorFinding::YieldType { offset, expected, got } => FindingV::YieldType(
            offset as nat,
            expected@,
            got@,
        ),
        GeneratorFinding::YieldFromType { offset, callee, callee_yield, expected } =>
            FindingV::YieldFromType(offset as nat, callee@, callee_yield@, expected@),
        GeneratorFinding::YieldFromSend { offset, callee, inner_send, outer_send } =>
            FindingV::YieldFromSend(offset as nat, callee@, inner_send@, outer_send@),
        GeneratorFinding::YieldFromList { offset, element, expected } => FindingV::YieldFromList(
            offset as nat,
            element,
            expected@,
        ),
        GeneratorFinding::MissingReturn { def_span, return_type } => FindingV::MissingReturn(
            def_span,
            return_type@,
        ),
    }
}

pub open spec fn findings_view(v: Seq<GeneratorFinding>) -> Seq<FindingV> {
    v.map_values(|f: GeneratorFinding| finding_view(f))
}

/// The text of a finding in function `f`.
pub open spec fn generator_message(f: Seq<char>, x: FindingV) -> Seq<char> {
    match x {
        FindingV::YieldType(_, expected, got) => "Incompatible yield type in `"@ + f + "`: expected `"@ + expected
            + "`, got `"@ + got + "`"@,
        FindingV::YieldFromType(_, callee, callee_yield, expected) => "Incompatible `yield from` in `"@ + f
            + "`: `"@ + callee + "` yields `"@ + callee_yield + "` but `"@ + expected + "` expected"@,
        FindingV::YieldFromSend(_, callee, inner_send, outer_send) => "Incompatible send type in `yield from` in `"@
            + f + "`: `"@ + callee + "` expects send type `"@ + inner_send + "` but outer generator sends `"@
            + outer_send + "`"@,
        FindingV::YieldFromList(_, element, expected) => "Incompatible `yield from` in `"@ + f
            + "`: list elements are `"@ + crate::generator::expr_type_name(element) + "` but `"@ + expected
            + "` expected"@,
        FindingV::MissingReturn(_, return_type) => "Generator `"@ + f + "` is annotated to return `"@ + return_type
            + "` but has no valid return path"@,
    }
}

impl GeneratorReport {
    /// The finding's message, naming the function.
    pub fn message(&self) -> (r: Vec<char>)
        ensures
            r@ == generator_message(self.function@, finding_view(self.finding)),
    {
        let f = self.function.as_slice();
        match &self.finding {
            GeneratorFinding::YieldType { expected, got, .. } => {
                let mut m = crate::text::chars_of("Incompatible yield type in `");
                crate::text::push_chars(&mut m, f);
                crate::text::push_lit(&mut m, "`: expected `");
                crate::text::push_chars(&mut m, expected.as_slice());
                crate::text::push_lit(&mut m, "`, got `");
                crate::text::push_chars(&mut m, got.as_slice());
                crate::text::push_lit(&mut m, "`");
                m
            },
            GeneratorFinding::YieldFromType { callee, callee_yield, expected, .. } => {
                let mut m = crate::text::chars_of("Incompatible `yield from` in `");
                crate::text::push_chars(&mut m, f);
                crate::text::push_lit(&mut m, "`: `");
                crate::text::push_chars(&mut m, callee.as_slice());
                crate::text::push_lit(&mut m, "` yields `");
                crate::text::push_chars(&mut m, callee_yield.as_slice());
                crate::text::push_lit(&mut m, "` but `");
                crate::text::push_chars(&mut m, expected.as_slice());
                crate::text::push_lit(&mut m, "` expected");
                m
            },
            GeneratorFinding::YieldFromSend { callee, inner_send, outer_send, .. } => {
                let mut m = crate::text::chars_of("Incompatible send type in `yield from` in `");
                crate::text::push_chars(&mut m, f);
                crate::text::push_lit(&mut m, "`: `");
                crate::text::push_chars(&mut m, callee.as_slice());
                crate::text::push_lit(&mut m, "` expects send type `");
                crate::text::push_chars(&mut m, inner_send.as_slice());
                crate::text::push_lit(&mut m, "` but outer generator sends `");
                crate::text::push_chars(&mut m, outer_send.as_slice());
                crate::text::push_lit(&mut m, "`");
                m
            },
            GeneratorFinding::YieldFromList { element, expected, .. } => {
                let mut m = crate::text::chars_of("Incompatible `yield from` in `");
                crate::text::push_chars(&mut m, f);
                crate::text::push_lit(&mut m, "`: list elements are `");
                let t = crate::generator::expr_type_name_exec(*element);
                crate::text::push_chars(&mut m, t.as_slice());
                crate::text::push_lit(&mut m, "` but `");
                crate::text::push_chars(&mut m, expected.as_slice());
                crate::text::push_lit(&mut m, "` expected");
                m
            },
            GeneratorFinding::MissingReturn { return_type, .. } => {
                let mut m = crate::text::chars_of("Generator `");
                crate::text::push_chars(&mut m, f);
                crate::text::push_lit(&mut m, "` is annotated to return `");
                crate::text::push_chars(&mut m, return_type.as_slice());
                crate::text::push_lit(&mut m, "` but has no valid return path");
                m
            },
        }
    }
}

pub open spec fn reports_view(v: Seq<GeneratorReport>) -> Seq<(Seq<char>, FindingV)> {
    v.map_values(|r: GeneratorReport| (r.function@, finding_view(r.finding)))
}

// ---------------------------------------------------------------------------
// One yield
// ---------------------------------------------------------------------------

/// `check_yield_value`: a yielded value whose inferred type, or else whose
/// constructor, does not fit the yield type (`Any` accepts anything, `None`
/// accepts a bare `yield`).
pub open spec fn yield_value_findings(y: YieldV, g: GeneratorAnnotationV) -> Seq<FindingV> {
    let expected = g.yield_type;
    if expected == "Any"@ || (expected == "None"@ && y.text.len() == 0) {
        Seq::empty()
    } else {
        let mismatch = match expr_type_of(y.text) {
            Some(t) => !type_compatible(expr_type_name(t), expected),
            None => match constructor_name(y.text) {
                Some(c) => !type_compatible(c, expected),
                None => false,
            },
        };
        if mismatch {
            seq![FindingV::YieldType(y.offset, expected, y.text)]
        } else {
            Seq::empty()
        }
    }
}

/// The findings for one `yield value` against the generator's declared yield type.
pub fn check_yield_value(y: &YieldExpr, g: &GeneratorAnnotation) -> (r: Vec<GeneratorFinding>)
    ensures
        findings_view(r@) == yield_value_findings(yield_view(*y), annotation_view(*g)),
{
    let mut out: Vec<GeneratorFinding> = Vec::new();
    let expected = &g.yield_type;
    let text = &y.expr_text;
    if eq_str(expected.as_slice(), "Any") || (eq_str(expected.as_slice(), "None") && text.len()
        == 0) {
        proof {
            assert(findings_view(out@) =~= Seq::<FindingV>::empty());
        }
        return out;
    }
    let mismatch = match infer_expr_type(text.as_slice()) {
        Some(t) => {
            let name = expr_type_name_exec(t);
            !is_type_compatible(name.as_slice(), expected.as_slice())
        },
        None => match get_constructor_name(text.as_slice()) {
            Some(c) => !is_type_compatible(c.as_slice(), expected.as_slice()),
            None => false,
        },
    };
    if mismatch {
        out.push(
            GeneratorFinding::YieldType {
                offset: y.offset,
                expected: expected.clone(),
                got: text.clone(),
            },
        );
    }
    proof {
        assert(findings_view(out@) =~= yield_value_findings(yield_view(*y), annotation_view(*g)));
    }
    out
}

/// The trimmed return annotation the last function named `name` has, among
/// those with one (`func_return_annotations`).
pub open spec fn callee_annotation(fs: Seq<GeneratorFunction>, name: Seq<char>) -> Option<Seq<char>>
    decreases fs.len(),
{
    if fs.len() == 0 {
        None
    } else if fs.last().name@ == name && fs.last().return_annotation is Some {
        Some(trim(fs.last().return_annotation.unwrap()@))
    } else {
        callee_annotation(fs.drop_last(), name)
    }
}

fn find_callee_annotation(fs: &Vec<GeneratorFunction>, name: &[char]) -> (r: Option<Vec<char>>)
    ensures
        match r {
            Some(a) => callee_annotation(fs@, name@) == Some(a@),
            None => callee_annotation(fs@, name@) is None,
        },
{
    let mut i: usize = fs.len();
    assert(fs@.take(i as int) =~= fs@);
    while i > 0
        invariant
            i <= fs@.len(),
            callee_annotation(fs@, name@) == callee_annotation(fs@.take(i as int), name@),
        decreases i,
    {
        proof {
            assert(fs@.take(i as int).drop_last() =~= fs@.take(i - 1));
            assert(fs@.take(i as int).last() == fs@[i - 1]);
        }
        let f = &fs[i - 1];
        if eq_chars(f.name.as_slice(), name) {
            if let Some(a) = &f.return_annotation {
                return Some(trim_chars(a.as_slice()));
            }
        }
        i -= 1;
    }
    None
}

/// `yield from [...]` whose element type does not fit.
pub open spec fn list_findings(y: YieldV, g: GeneratorAnnotationV) -> Seq<FindingV> {
    match list_element_type(y.text) {
        Some(et) => if !type_compatible(expr_type_name(et), g.yield_type) {
            seq![FindingV::YieldFromList(y.offset, et, g.yield_type)]
        } else {
            Seq::empty()
        },
        None => Seq::empty(),
    }
}

/// `check_yield_from`: for `yield from callee()` with a generator-annotated
/// callee, its yield type and then its send type; otherwise, for a list
/// literal, its element type.
pub open spec fn yield_from_findings(y: YieldV, g: GeneratorAnnotationV, fs: Seq<GeneratorFunction>) -> Seq<
    FindingV,
> {
    let delegated = match call_name(y.text) {
        Some(callee) => match callee_annotation(fs, callee) {
            Some(ca) => match generator_annotation(ca) {
                Some(cg) => Some(
                    (if !type_compatible(cg.yield_type, g.yield_type) {
                        seq![FindingV::YieldFromType(y.offset, callee, cg.yield_type, g.yield_type)]
                    } else {
                        Seq::empty()
                    }) + match (g.send_type, cg.send_type) {
                        (Some(outer), Some(inner)) => if !send_compatible(outer, inner) {
                            seq![FindingV::YieldFromSend(y.offset, callee, inner, outer)]
                        } else {
                            Seq::empty()
                        },
                        _ => Seq::empty(),
                    },
                ),
                None => None,
            },
            None => None,
        },
        None => None,
    };
    match delegated {
        Some(fds) => fds,
        None => list_findings(y, g),
    }
}

/// The findings for one `yield from` whose delegate's yield or send type does not fit the generator's.
pub fn check_yield_from(y: &YieldExpr, g: &GeneratorAnnotation, fs: &Vec<GeneratorFunction>) -> (r:
    Vec<GeneratorFinding>)
    ensures
        findings_view(r@) == yield_from_findings(yield_view(*y), annotation_view(*g), fs@),
{
    let mut out: Vec<GeneratorFinding> = Vec::new();
    let text = &y.expr_text;
    if let Some(callee) = extract_call_name(text.as_slice()) {
        if let Some(ca) = find_callee_annotation(fs, callee.as_slice()) {
            if let Some(cg) = parse_generator_annotation(ca.as_slice()) {
                if !is_type_compatible(cg.yield_type.as_slice(), g.yield_type.as_slice()) {
                    out.push(
                        GeneratorFinding::YieldFromType {
                            offset: y.offset,
                            callee: callee.clone(),
                            callee_yield: cg.yield_type.clone(),
                            expected: g.yield_type.clone(),
                        },
                    );
                }
                if let (Some(outer), Some(inner)) = (&g.send_type, &cg.send_type) {
                    if !is_send_type_compatible(outer.as_slice(), inner.as_slice()) {
                        out.push(
                            GeneratorFinding::YieldFromSend {
                                offset: y.offset,
                                callee: callee.clone(),
                                inner_send: inner.clone(),
                                outer_send: outer.clone(),
                            },
                        );
                    }
                }
                proof {
                    assert(findings_view(out@) =~= yield_from_findings(
                        yield_view(*y),
                        annotation_view(*g),
                        fs@,
                    ));
                }
                return out;
            }
        }
    }
    if let Some(et) = infer_list_element_type(text.as_slice()) {
        let name = expr_type_name_exec(et);
        if !is_type_compatible(name.as_slice(), g.yield_type.as_slice()) {
            out.push(
                GeneratorFinding::YieldFromList {
                    offset: y.offset,
                    element: et,
                    expected: g.yield_type.clone(),
                },
            );
        }
    }
    proof {
        assert(findings_view(out@) =~= yield_from_findings(yield_view(*y), annotation_view(*g), fs@));
    }
    out
}

/// The findings of each yield, in order.
pub open spec fn yields_findings(ys: Seq<YieldV>, g: GeneratorAnnotationV, fs: Seq<GeneratorFunction>) -> Seq<
    FindingV,
>
    decreases ys.len(),
{
    if ys.len() == 0 {
        Seq::empty()
    } else {
        yields_findings(ys.drop_last(), g, fs) + if ys.last().is_from {
            yield_from_findings(ys.last(), g, fs)
        } else {
            yield_value_findings(ys.last(), g)
        }
    }
}

/// Some `return` gives a value that is a call.
pub open spec fn has_valid_return(rs: Seq<(bool, bool)>) -> bool {
    exists|k: int| 0 <= k < rs.len() && (#[trigger] rs[k]).0 && rs[k].1
}

/// `check_missing_generator_return`: a generator with yields, annotated to
/// return something other than `None` or `Any`, whose `return` statements
/// (there are some) give no call.
pub open spec fn missing_return_findings(f: GeneratorFunction, g: GeneratorAnnotationV, yield_count: nat) -> Seq<
    FindingV,
> {
    if yield_count == 0 {
        Seq::empty()
    } else {
        match g.return_type {
            Some(rt) => if rt == "None"@ || rt == "Any"@ {
                Seq::empty()
            } else if !has_valid_return(f.return_stmts@) && f.return_stmts@.len() > 0 {
                seq![FindingV::MissingReturn(f.def_span, rt)]
            } else {
                Seq::empty()
            },
            None => Seq::empty(),
        }
    }
}

/// Reports a generator whose declared return type is neither `None` nor `Any` but that returns no value.
pub fn check_missing_generator_return(f: &GeneratorFunction, g: &GeneratorAnnotation, yield_count: usize) -> (r:
    Vec<GeneratorFinding>)
    ensures
        findings_view(r@) == missing_return_findings(*f, annotation_view(*g), yield_count as nat),
{
    let mut out: Vec<GeneratorFinding> = Vec::new();
    if yield_count == 0 {
        proof {
            assert(findings_view(out@) =~= Seq::<FindingV>::empty());
        }
        return out;
    }
    if let Some(rt) = &g.return_type {
        if !(eq_str(rt.as_slice(), "None") || eq_str(rt.as_slice(), "Any")) {
            let mut valid = false;
            let mut k: usize = 0;
            while k < f.return_stmts.len()
                invariant
                    k <= f.return_stmts@.len(),
                    valid == exists|j: int|
                        0 <= j < k && (#[trigger] f.return_stmts@[j]).0 && f.return_stmts@[j].1,
                decreases f.return_stmts.len() - k,
            {
                let (has_value, is_call) = f.return_stmts[k];
                if has_value && is_call {
                    valid = true;
                }
                proof {
                    if has_value && is_call {
                        assert(f.return_stmts@[k as int].0 && f.return_stmts@[k as int].1);
                    }
                }
                k += 1;
            }
            if !valid && f.return_stmts.len() > 0 {
                out.push(GeneratorFinding::MissingReturn { def_span: f.def_span, return_type: rt.clone() });
            }
        }
    }
    proof {
        assert(findings_view(out@) =~= missing_return_findings(
            *f,
            annotation_view(*g),
            yield_count as nat,
        ));
    }
    out
}

// ---------------------------------------------------------------------------
// One function
// ---------------------------------------------------------------------------

/// Where the body of a function whose `def` starts at byte `def_start`
/// begins, as (character index, byte offset): just after the first `:` from
/// the `def` on.
pub open spec fn body_start(source: Seq<char>, def_start: nat) -> Option<(int, nat)> {
    let k = char_at_byte(source, def_start);
    match find_char(source.skip(k), ':') {
        Some(c) => Some((k + c + 1, def_start + utf8_len(source.skip(k).take(c)) + 1)),
        None => None,
    }
}

/// How many bytes the `def` line is indented by.
pub open spec fn def_indent(source: Seq<char>, def_start: nat) -> nat {
    let k = char_at_byte(source, def_start);
    match rfind_char(source.take(k), '\n') {
        Some(p) => utf8_len(source.subrange(p + 1, k)),
        None => def_start,
    }
}

/// The yields of the function's body.
pub open spec fn body_yields(source: Seq<char>, def_start: nat) -> Seq<YieldV> {
    match body_start(source, def_start) {
        Some((bs, bs_byte)) => {
            let be = body_end(source, bs, def_indent(source, def_start));
            yields_from(source.subrange(bs, be), 0, bs_byte)
        },
        None => Seq::empty(),
    }
}

/// The function's return annotation, trimmed and read as a generator type.
pub open spec fn function_annotation(f: GeneratorFunction) -> Option<GeneratorAnnotationV> {
    match f.return_annotation {
        Some(a) => generator_annotation(trim(a@)),
        None => None,
    }
}

/// `check_function`: for a generator-annotated function, the findings of its
/// yields in order, then the missing-return finding.
pub open spec fn function_findings(f: GeneratorFunction, source: Seq<char>, fs: Seq<GeneratorFunction>) -> Seq<
    FindingV,
> {
    match function_annotation(f) {
        Some(g) => match body_start(source, f.def_span.start as nat) {
            Some(_) => {
                let ys = body_yields(source, f.def_span.start as nat);
                yields_findings(ys, g, fs) + missing_return_findings(f, g, ys.len())
            },
            None => Seq::empty(),
        },
        None => Seq::empty(),
    }
}

/// The `def` of a generator-annotated function starts on a character of the
/// source (the source is sliced there).
pub open spec fn def_on_boundary(f: GeneratorFunction, source: Seq<char>) -> bool {
    function_annotation(f) is Some ==> byte_boundary(source, f.def_span.start as nat)
}

fn push_all(out: &mut Vec<GeneratorFinding>, more: Vec<GeneratorFinding>)
    ensures
        findings_view(final(out)@) == findings_view(old(out)@) + findings_view(more@),
{
    let ghost start = out@;
    let mut more = more;
    let ghost m = more@;
    out.append(&mut more);
    proof {
        assert(out@ == start + m);
        assert(findings_view(out@) =~= findings_view(start) + findings_view(m));
    }
}

/// Where the body of the function starts (character index and byte offset)
/// and how far its `def` line is indented, as `body_start` and `def_indent`
/// state.
fn locate_body(source: &[char], def_start: usize) -> (r: Option<(usize, usize, usize)>)
    requires
        utf8_len(source@) <= u32::MAX,
        byte_boundary(source@, def_start as nat),
    ensures
        match r {
            Some((bs, bs_byte, indent)) => body_start(source@, def_start as nat) == Some(
                (bs as int, bs_byte as nat),
            ) && indent == def_indent(source@, def_start as nat) && bs <= source@.len()
                && bs_byte == utf8_len(source@.take(bs as int)),
            None => body_start(source@, def_start as nat) is None,
        },
{
    let ghost ds = def_start as nat;
    let k = match char_index_at_byte(source, def_start) {
        Some(k) => k,
        None => {
            proof {
                let w = choose|i: int| 0 <= i <= source@.len() && utf8_len(source@.take(i)) == ds;
                assert(utf8_len(source@.take(w)) != def_start);
            }
            return None;
        },
    };
    proof {
        lemma_char_at_byte(source@, k as int, ds);
    }
    let rest = slice_of(source, k, source.len());
    proof {
        assert(rest@ =~= source@.skip(k as int));
        lemma_find_char(rest@, ':');
        lemma_utf8_len_subrange(source@, k as int, source@.len() as int);
        assert(source@.subrange(k as int, source@.len() as int) =~= rest@);
    }
    let c = match find_char_exec(rest.as_slice(), ':') {
        Some(c) => c,
        None => {
            return None;
        },
    };
    proof {
        lemma_utf8_len_subrange(source@, 0, k + c + 1);
        assert(source@.subrange(0, k + c + 1) =~= source@.take(k + c + 1));
        assert(source@.take(k + c + 1) =~= source@.take(k as int) + rest@.take(c as int) + seq![':']);
        lemma_utf8_len_add(source@.take(k as int), rest@.take(c as int));
        lemma_utf8_len_add(source@.take(k as int) + rest@.take(c as int), seq![':']);
        assert(utf8_len(seq![':']) == 1) by {
            reveal_with_fuel(utf8_len, 2);
            assert(seq![':'].drop_last() =~= Seq::<char>::empty());
            assert(seq![':'].last() == ':');
            assert(char_width(':') == 1);
        }
    }
    let colon_bytes = utf8_len_prefix(rest.as_slice(), c);
    let bs = k + c + 1;
    let bs_byte = def_start + colon_bytes + 1;
    let head = slice_of(source, 0, k);
    proof {
        assert(head@ =~= source@.take(k as int));
        lemma_rfind_char(head@, '\n');
    }
    let indent = match rfind_char_exec(head.as_slice(), '\n') {
        Some(p) => {
            proof {
                lemma_utf8_len_subrange(source@, 0, k as int);
                lemma_utf8_len_add(source@.subrange(0, p + 1), source@.subrange(p + 1, k as int));
                assert(source@.subrange(0, p + 1) + source@.subrange(p + 1, k as int)
                    =~= source@.take(k as int));
                assert(source@.subrange(0, p + 1) =~= source@.take(p + 1));
                assert(source@.subrange(0, k as int) =~= source@.take(k as int));
            }
            let line_start = utf8_len_prefix(source, p + 1);
            def_start - line_start
        },
        None => def_start,
    };
    Some((bs, bs_byte, indent))
}

fn yields_loop(
    yields: &Vec<YieldExpr>,
    g: &GeneratorAnnotation,
    fs: &Vec<GeneratorFunction>,
    out: &mut Vec<GeneratorFinding>,
)
    ensures
        findings_view(final(out)@) == findings_view(old(out)@) + yields_findings(
            yields_view(yields@),
            annotation_view(*g),
            fs@,
        ),
{
    let ghost start = findings_view(out@);
    let ghost ys = yields_view(yields@);
    let ghost gv = annotation_view(*g);
    let mut i: usize = 0;
    while i < yields.len()
        invariant
            i <= yields@.len(),
            ys == yields_view(yields@),
            gv == annotation_view(*g),
            findings_view(out@) == start + yields_findings(ys.take(i as int), gv, fs@),
        decreases yields.len() - i,
    {
        proof {
            assert(ys.take(i + 1).drop_last() =~= ys.take(i as int));
            assert(ys.take(i + 1).last() == yield_view(yields@[i as int]));
        }
        let y = &yields[i];
        let more = if y.is_yield_from {
            check_yield_from(y, g, fs)
        } else {
            check_yield_value(y, g)
        };
        push_all(out, more);
        i += 1;
    }
    proof {
        assert(ys.take(i as int) =~= ys);
    }
}

/// All generator findings for one function, in order: yields, delegations, then a missing return.
pub fn check_function(f: &GeneratorFunction, source: &[char], fs: &Vec<GeneratorFunction>) -> (r: Vec<
    GeneratorFinding,
>)
    requires
        utf8_len(source@) <= u32::MAX,
        def_on_boundary(*f, source@),
    ensures
        findings_view(r@) == function_findings(*f, source@, fs@),
{
    let mut out: Vec<GeneratorFinding> = Vec::new();
    let g = match &f.return_annotation {
        Some(a) => {
            let t = trim_chars(a.as_slice());
            match parse_generator_annotation(t.as_slice()) {
                Some(g) => g,
                None => {
                    proof {
                        assert(findings_view(out@) =~= function_findings(*f, source@, fs@));
                    }
                    return out;
                },
            }
        },
        None => {
            proof {
                assert(findings_view(out@) =~= function_findings(*f, source@, fs@));
            }
            return out;
        },
    };
    assert(function_annotation(*f) == Some(annotation_view(g)));
    let ghost ds = f.def_span.start as nat;
    let (bs, bs_byte, indent) = match locate_body(source, f.def_span.start as usize) {
        Some(t) => t,
        None => {
            proof {
                assert(findings_view(out@) =~= function_findings(*f, source@, fs@));
            }
            return out;
        },
    };
    proof {
        lemma_body_end_bounds(source@, bs as int, indent as nat);
    }
    let be = find_body_end(source, bs, indent);
    let body = slice_of(source, bs, be);
    proof {
        lemma_utf8_len_subrange(source@, bs as int, be as int);
        assert(source@.take(bs as int) + source@.subrange(bs as int, be as int) + source@.skip(
            be as int,
        ) =~= source@);
        lemma_utf8_len_add(source@.take(bs as int), source@.subrange(bs as int, be as int));
        lemma_utf8_len_add(
            source@.take(bs as int) + source@.subrange(bs as int, be as int),
            source@.skip(be as int),
        );
    }
    let yields = find_yield_expressions(body.as_slice(), bs_byte);
    assert(yields_view(yields@) == body_yields(source@, ds));
    yields_loop(&yields, &g, fs, &mut out);
    let tail = check_missing_generator_return(f, &g, yields.len());
    push_all(&mut out, tail);
    proof {
        assert(findings_view(out@) =~= function_findings(*f, source@, fs@));
    }
    out
}

// ---------------------------------------------------------------------------
// The rule
// ---------------------------------------------------------------------------

pub open spec fn module_findings(fs: Seq<GeneratorFunction>, source: Seq<char>, all: Seq<GeneratorFunction>) -> Seq<
    (Seq<char>, FindingV),
>
    decreases fs.len(),
{
    if fs.len() == 0 {
        Seq::empty()
    } else {
        let f = fs.last();
        module_findings(fs.drop_last(), source, all) + function_findings(f, source, all).map_values(
            |x: FindingV| (f.name@, x),
        )
    }
}

/// The rule: generator yield, send and return types against the
/// annotation.
pub struct GeneratorTypeMismatch;

impl GeneratorTypeMismatch {
    /// The findings of each function, in order, against the module source.
    pub fn check(&self, functions: &Vec<GeneratorFunction>, source: &[char]) -> (r: Vec<
        GeneratorReport,
    >)
        requires
            utf8_len(source@) <= u32::MAX,
            forall|i: int| 0 <= i < functions@.len() ==> def_on_boundary(#[trigger] functions@[i], source@),
        ensures
            reports_view(r@) == module_findings(functions@, source@, functions@),
    {
        let mut out: Vec<GeneratorReport> = Vec::new();
        let mut i: usize = 0;
        while i < functions.len()
            invariant
                i <= functions@.len(),
                utf8_len(source@) <= u32::MAX,
                forall|j: int| 0 <= j < functions@.len() ==> def_on_boundary(#[trigger] functions@[j], source@),
                reports_view(out@) == module_findings(functions@.take(i as int), source@, functions@),
            decreases functions.len() - i,
        {
            proof {
                assert(functions@.take(i + 1).drop_last() =~= functions@.take(i as int));
                assert(functions@.take(i + 1).last() == functions@[i as int]);
            }
            let f = &functions[i];
            let found = check_function(f, source, functions);
            let ghost before = reports_view(out@);
            let ghost fv = findings_view(found@);
            let ghost n = found@.len();
            let mut found = found;
            while found.len() > 0
                invariant
                    found@.len() <= n,
                    n == fv.len(),
                    findings_view(found@) == fv.skip(n - found@.len()),
                    reports_view(out@) == before + fv.take(n - found@.len()).map_values(
                        |x: FindingV| (f.name@, x),
                    ),
                decreases found.len(),
            {
                let ghost k = n - found@.len();
                let ghost old_found = found@;
                let x = found.remove(0);
                proof {
                    assert(finding_view(x) == findings_view(old_found)[0]);
                    assert(finding_view(x) == fv[k]);
                    assert(findings_view(found@) =~= findings_view(old_found).drop_first());
                    assert(fv.skip(n - old_found.len()).drop_first() =~= fv.skip(k + 1));
                }
                let ghost before_push = reports_view(out@);
                out.push(GeneratorReport { function: f.name.clone(), finding: x });
                proof {
                    assert(reports_view(out@) =~= before_push.push((f.name@, fv[k])));
                    assert(fv.take(k + 1) =~= fv.take(k).push(fv[k]));
                    assert(fv.take(k + 1).map_values(|x: FindingV| (f.name@, x)) =~= fv.take(
                        k,
                    ).map_values(|x: FindingV| (f.name@, x)).push((f.name@, fv[k])));
                    assert(reports_view(out@) =~= before + fv.take(k + 1).map_values(
                        |x: FindingV| (f.name@, x),
                    ));
                }
            }
            proof {
                assert(fv.take(n as int) =~= fv);
                assert(reports_view(out@) =~= module_findings(functions@.take(i + 1), source@, functions@));
            }
            i += 1;
        }
        proof {
            assert(functions@.take(i as int) =~= functions@);
        }
        out
    }
}

} // verus!
