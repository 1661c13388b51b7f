//! The `self` annotation of a generic class's `__init__` that lists the
//! class's own type variables in another order than the class declares them.
use vstd::prelude::*;

use crate::annotations::{resolve_string_annotation, unquoted};
use crate::module::copy_text;
use crate::names::contains_name;
use crate::position::Span;
use crate::text::{
    eq_chars, eq_str, find_char, find_char_exec, lemma_find_char, lemma_rfind_char, rfind_char,
    rfind_char_exec, slice_of, split_char, split_char_exec, trim, trim_chars, views,
};

verus! {

/// A generic class: its name and its type parameters' names, in order.
pub struct GenericClass {
    pub name: Vec<char>,
    pub generic_params: Vec<Vec<char>>,
}

/// A method as this check reads it.
pub struct InitSite {
    pub class_name: Option<Vec<char>>,
    pub name: Vec<char>,
    pub decorators: Vec<Vec<char>>,
    /// The source text of the first parameter's annotation.
    pub self_annotation: Option<Vec<char>>,
    pub def_span: Span,
}

/// `self: C[...]` in `__init__` of `C` lists `C`'s type variables (`args`) in
/// another order than `params`.
pub struct ScopedSelfReport {
    pub class: Vec<char>,
    pub params: Vec<Vec<char>>,
    pub args: Vec<Vec<char>>,
    pub span: Span,
}

impl ScopedSelfReport {
    /// The finding's message.
    pub fn message(&self) -> (r: Vec<char>)
        ensures
            r@ == "Class-scoped type variables should not be used in the `self` annotation of `__init__` in class `"@ + self.class@ + "`"@,
    {
        let mut m = crate::text::chars_of("Class-scoped type variables should not be used in the `self` annotation of `__init__` in class `");
        crate::text::push_chars(&mut m, self.class.as_slice());
        crate::text::push_lit(&mut m, "`");
        m
    }
}

pub open spec fn report_view(r: ScopedSelfReport) -> (Seq<char>, Seq<Seq<char>>, Seq<Seq<char>>, Span) {
    (r.class@, views(r.params@), views(r.args@), r.span)
}

pub open spec fn reports_view(v: Seq<ScopedSelfReport>) -> Seq<
    (Seq<char>, Seq<Seq<char>>, Seq<Seq<char>>, Span),
> {
    v.map_values(|r: ScopedSelfReport| report_view(r))
}

/// The annotation, trimmed and unquoted.
pub open spec fn resolved(a: Seq<char>) -> Seq<char> {
    unquoted(trim(a))
}

/// The brackets of the resolved annotation are in order: a `[` comes before
/// the last `]` (the text between them is sliced).
pub open spec fn brackets_ordered(a: Seq<char>) -> bool {
    let r = resolved(a);
    match (find_char(r, '['), rfind_char(r, ']')) {
        (Some(b), Some(e)) => b < e,
        _ => true,
    }
}

/// An `__init__` of `class` that is not an `@overload`.
pub open spec fn is_checked_init(f: InitSite, class: Seq<char>) -> bool {
    &&& f.class_name matches Some(c) && c@ == class
    &&& f.name@ == "__init__"@
    &&& !views(f.decorators@).contains("overload"@)
}

/// Every checked `__init__` of a generic class has its annotation's brackets
/// in order.
pub open spec fn annotations_sliceable(cs: Seq<GenericClass>, fs: Seq<InitSite>) -> bool {
    forall|i: int, j: int|
        0 <= i < cs.len() && 0 <= j < fs.len() && cs[i].generic_params@.len() > 0
            && is_checked_init(#[trigger] fs[j], #[trigger] cs[i].name@) ==> (
        fs[j].self_annotation matches Some(a) ==> brackets_ordered(a@))
}

/// The annotation's type arguments (split at commas, trimmed) when it
/// subscripts the class itself.
pub open spec fn self_args(a: Seq<char>, class: Seq<char>) -> Option<Seq<Seq<char>>> {
    let r = resolved(a);
    match (find_char(r, '['), rfind_char(r, ']')) {
        (Some(b), Some(e)) => if trim(r.take(b)) == class {
            Some(split_char(r.subrange(b + 1, e), ',').map_values(|x: Seq<char>| trim(x)))
        } else {
            None
        },
        _ => None,
    }
}

/// The arguments are all the class's own type variables and also
/// module-level `TypeVar`s, as many as its parameters, in another order.
pub open spec fn misordered(args: Seq<Seq<char>>, params: Seq<Seq<char>>, typevars: Seq<Seq<char>>) -> bool {
    &&& forall|k: int| 0 <= k < args.len() ==> params.contains(#[trigger] args[k]) && typevars.contains(args[k])
    &&& args.len() == params.len()
    &&& exists|k: int| 0 <= k < args.len() && #[trigger] args[k] != params[k]
}

pub open spec fn init_findings(f: InitSite, c: GenericClass, typevars: Seq<Seq<char>>) -> Seq<
    (Seq<char>, Seq<Seq<char>>, Seq<Seq<char>>, Span),
> {
    if is_checked_init(f, c.name@) {
        match f.self_annotation {
            Some(a) => match self_args(a@, c.name@) {
                Some(args) => if misordered(args, views(c.generic_params@), typevars) {
                    seq![(c.name@, views(c.generic_params@), args, f.def_span)]
                } else {
                    Seq::empty()
                },
                None => Seq::empty(),
            },
            None => Seq::empty(),
        }
    } else {
        Seq::empty()
    }
}

pub open spec fn inits_findings(fs: Seq<InitSite>, c: GenericClass, typevars: Seq<Seq<char>>) -> Seq<
    (Seq<char>, Seq<Seq<char>>, Seq<Seq<char>>, Span),
>
    decreases fs.len(),
{
    if fs.len() == 0 {
        Seq::empty()
    } else {
        inits_findings(fs.drop_last(), c, typevars) + init_findings(fs.last(), c, typevars)
    }
}

/// `check_class_scoped_typevars_in_self`: for each generic class, its
/// non-overload `__init__` methods in order.
pub open spec fn scoped_findings(cs: Seq<GenericClass>, fs: Seq<InitSite>, typevars: Seq<Seq<char>>, n: int) -> Seq<
    (Seq<char>, Seq<Seq<char>>, Seq<Seq<char>>, Span),
>
    decreases n,
{
    if n <= 0 {
        Seq::empty()
    } else {
        let c = cs[n - 1];
        scoped_findings(cs, fs, typevars, n - 1) + if c.generic_params@.len() == 0 {
            Seq::empty()
        } else {
            inits_findings(fs, c, typevars)
        }
    }
}

fn is_misordered(args: &Vec<Vec<char>>, params: &Vec<Vec<char>>, typevars: &Vec<Vec<char>>) -> (r: bool)
    ensures
        r == misordered(views(args@), views(params@), views(typevars@)),
{
    let ghost a = views(args@);
    let ghost p = views(params@);
    let mut i: usize = 0;
    while i < args.len()
        invariant
            i <= args@.len(),
            a == views(args@),
            p == views(params@),
            forall|k: int| 0 <= k < i ==> p.contains(#[trigger] a[k]) && views(typevars@).contains(a[k]),
        decreases args.len() - i,
    {
        if !(contains_name(params, args[i].as_slice()) && contains_name(typevars, args[i].as_slice())) {
            assert(!(p.contains(a[i as int]) && views(typevars@).contains(a[i as int])));
            return false;
        }
        i += 1;
    }
    if args.len() != params.len() {
        return false;
    }
    let mut k: usize = 0;
    while k < args.len()
        invariant
            k <= args@.len(),
            args@.len() == params@.len(),
            a == views(args@),
            p == views(params@),
            forall|m: int| 0 <= m < args@.len() ==> p.contains(#[trigger] a[m]) && views(typevars@).contains(a[m]),
            forall|m: int| 0 <= m < k ==> #[trigger] a[m] == p[m],
        decreases args.len() - k,
    {
        if !eq_chars(args[k].as_slice(), params[k].as_slice()) {
            assert(a[k as int] != p[k as int]);
            return true;
        }
        k += 1;
    }
    false
}

fn self_args_exec(a: &[char], class: &[char]) -> (r: Option<Vec<Vec<char>>>)
    requires
        brackets_ordered(a@),
    ensures
        match r {
            Some(v) => self_args(a@, class@) == Some(views(v@)),
            None => self_args(a@, class@) is None,
        },
{
    let t = trim_chars(a);
    let r = resolve_string_annotation(t.as_slice());
    proof {
        lemma_find_char(r@, '[');
        lemma_rfind_char(r@, ']');
    }
    let b = match find_char_exec(r.as_slice(), '[') {
        Some(b) => b,
        None => return None,
    };
    let e = match rfind_char_exec(r.as_slice(), ']') {
        Some(e) => e,
        None => return None,
    };
    let head = slice_of(r.as_slice(), 0, b);
    let name = trim_chars(head.as_slice());
    proof {
        assert(head@ =~= r@.take(b as int));
    }
    if !eq_chars(name.as_slice(), class) {
        return None;
    }
    let inner = slice_of(r.as_slice(), b + 1, e);
    let parts = split_char_exec(inner.as_slice(), ',');
    let mut args: Vec<Vec<char>> = Vec::new();
    let mut k: usize = 0;
    while k < parts.len()
        invariant
            k <= parts@.len(),
            views(args@) == views(parts@).take(k as int).map_values(|x: Seq<char>| trim(x)),
        decreases parts.len() - k,
    {
        let ghost before = views(args@);
        args.push(trim_chars(parts[k].as_slice()));
        proof {
            assert(views(parts@).take(k + 1) =~= views(parts@).take(k as int).push(parts@[k as int]@));
            assert(views(args@) =~= before.push(trim(parts@[k as int]@)));
            assert(views(args@) =~= views(parts@).take(k + 1).map_values(|x: Seq<char>| trim(x)));
        }
        k += 1;
    }
    proof {
        assert(views(parts@).take(k as int) =~= views(parts@));
    }
    Some(args)
}

fn check_inits(
    fs: &Vec<InitSite>,
    c: &GenericClass,
    typevars: &Vec<Vec<char>>,
    out: &mut Vec<ScopedSelfReport>,
)
    requires
        forall|j: int|
            0 <= j < fs@.len() && is_checked_init(#[trigger] fs@[j], c.name@) ==> (
            fs@[j].self_annotation matches Some(a) ==> brackets_ordered(a@)),
    ensures
        reports_view(final(out)@) == reports_view(old(out)@) + inits_findings(
            fs@,
            *c,
            views(typevars@),
        ),
{
    let ghost start = reports_view(out@);
    let overload = crate::text::chars_of("overload");
    let mut j: usize = 0;
    while j < fs.len()
        invariant
            j <= fs@.len(),
            overload@ == "overload"@,
            forall|m: int|
                0 <= m < fs@.len() && is_checked_init(#[trigger] fs@[m], c.name@) ==> (
                fs@[m].self_annotation matches Some(a) ==> brackets_ordered(a@)),
            reports_view(out@) == start + inits_findings(fs@.take(j as int), *c, views(typevars@)),
        decreases fs.len() - j,
    {
        proof {
            assert(fs@.take(j + 1).drop_last() =~= fs@.take(j as int));
            assert(fs@.take(j + 1).last() == fs@[j as int]);
        }
        let ghost mid = reports_view(out@);
        let f = &fs[j];
        let checked = match &f.class_name {
            Some(cn) => eq_chars(cn.as_slice(), c.name.as_slice()) && eq_str(
                f.name.as_slice(),
                "__init__",
            ) && !contains_name(&f.decorators, overload.as_slice()),
            None => false,
        };
        assert(checked == is_checked_init(fs@[j as int], c.name@));
        if checked {
            if let Some(a) = &f.self_annotation {
                if let Some(args) = self_args_exec(a.as_slice(), c.name.as_slice()) {
                    if is_misordered(&args, &c.generic_params, typevars) {
                        let mut params: Vec<Vec<char>> = Vec::new();
                        let mut k: usize = 0;
                        while k < c.generic_params.len()
                            invariant
                                k <= c.generic_params@.len(),
                                views(params@) == views(c.generic_params@).take(k as int),
                            decreases c.generic_params.len() - k,
                        {
                            let ghost pb = views(params@);
                            params.push(copy_text(c.generic_params[k].as_slice()));
                            assert(views(params@) =~= pb.push(c.generic_params@[k as int]@));
                            assert(views(params@) =~= views(c.generic_params@).take(k + 1));
                            k += 1;
                        }
                        assert(views(c.generic_params@).take(k as int) =~= views(c.generic_params@));
                        let ghost av = views(args@);
                        out.push(
                            ScopedSelfReport {
                                class: copy_text(c.name.as_slice()),
                                params,
                                args,
                                span: f.def_span,
                            },
                        );
                        proof {
                            assert(reports_view(out@) =~= mid.push(
                                (c.name@, views(c.generic_params@), av, f.def_span),
                            ));
                        }
                    }
                }
            }
        }
        proof {
            assert(reports_view(out@) =~= mid + init_findings(fs@[j as int], *c, views(typevars@)));
        }
        j += 1;
    }
    proof {
        assert(fs@.take(j as int) =~= fs@);
    }
}

/// `check_class_scoped_typevars_in_self`: the findings of each generic
/// class, in order. `typevars` are the module-level `TypeVar` names.
pub fn check_class_scoped_typevars_in_self(
    classes: &Vec<GenericClass>,
    functions: &Vec<InitSite>,
    typevars: &Vec<Vec<char>>,
) -> (r: Vec<ScopedSelfReport>)
    requires
        annotations_sliceable(classes@, functions@),
    ensures
        reports_view(r@) == scoped_findings(
            classes@,
            functions@,
            views(typevars@),
            classes@.len() as int,
        ),
{
    let mut out: Vec<ScopedSelfReport> = Vec::new();
    let mut i: usize = 0;
    while i < classes.len()
        invariant
            i <= classes@.len(),
            annotations_sliceable(classes@, functions@),
            reports_view(out@) == scoped_findings(classes@, functions@, views(typevars@), i as int),
        decreases classes.len() - i,
    {
        let c = &classes[i];
        if c.generic_params.len() > 0 {
            proof {
                assert forall|j: int|
                    0 <= j < functions@.len() && is_checked_init(#[trigger] functions@[j], c.name@)
                        implies (functions@[j].self_annotation matches Some(a) ==> brackets_ordered(
                    a@,
                )) by {
                    assert(classes@[i as int].name@ == c.name@);
                }
            }
            check_inits(functions, c, typevars, &mut out);
        } else {
            proof {
                assert(reports_view(out@) =~= reports_view(out@) + Seq::empty());
            }
        }
        i += 1;
    }
    out
}

} // verus!
