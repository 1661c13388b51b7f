//! Annotated module-level assignments `x: P = C()` where the class `C` does
//! not conform to the protocol `P`, or where `P` inherits from a protocol
//! without being one itself.
use vstd::prelude::*;

use crate::module::{copy_text, VarSite};
use crate::names::{add_all, contains_name, insert_all, insert_name, minus, minus_names};
use crate::position::Span;
use crate::text::{
    all_alnum_or_underscore, chars_of, eq_chars, eq_str, find_char, find_char_exec,
    is_alnum_underscore_word, lemma_find_char, slice_of, trim, trim_chars, views,
};

verus! {

/// What the rule reads of a class.
pub struct ClassInfo {
    pub name: Vec<char>,
    pub bases: Vec<Vec<char>>,
    /// Names of the class-level attributes (dataclass and named-tuple fields
    /// among them).
    pub attributes: Vec<Vec<char>>,
    pub method_names: Vec<Vec<char>>,
    /// Each method definition with its decorator names, in order; a
    /// `@name.setter` definition carries the decorator `setter`.
    pub method_decorators: Vec<(Vec<char>, Vec<Vec<char>>)>,
    pub is_dataclass_frozen: bool,
}

/// The class a name looks up: the last class of that name, as a map built by
/// inserting the classes in order holds it.
pub open spec fn class_index(cs: Seq<ClassInfo>, name: Seq<char>) -> Option<int>
    decreases cs.len(),
{
    if cs.len() == 0 {
        None
    } else if cs.last().name@ == name {
        Some(cs.len() - 1)
    } else {
        class_index(cs.drop_last(), name)
    }
}

pub proof fn lemma_class_index(cs: Seq<ClassInfo>, name: Seq<char>)
    ensures
        match class_index(cs, name) {
            Some(i) => 0 <= i < cs.len() && cs[i].name@ == name && forall|j: int|
                i < j < cs.len() ==> cs[j].name@ != name,
            None => forall|j: int| 0 <= j < cs.len() ==> cs[j].name@ != name,
        },
    decreases cs.len(),
{
    if cs.len() > 0 {
        lemma_class_index(cs.drop_last(), name);
        assert(forall|j: int| 0 <= j < cs.len() - 1 ==> cs.drop_last()[j] == cs[j]);
    }
}

/// The index `class_index` gives.
pub fn find_class(cs: &Vec<ClassInfo>, name: &[char]) -> (r: Option<usize>)
    ensures
        match r {
            Some(i) => i < cs@.len() && class_index(cs@, name@) == Some(i as int),
            None => class_index(cs@, name@) is None,
        },
{
    proof {
        lemma_class_index(cs@, name@);
    }
    let mut i: usize = cs.len();
    while i > 0
        invariant
            i <= cs@.len(),
            forall|j: int| i <= j < cs@.len() ==> cs@[j].name@ != name@,
            match class_index(cs@, name@) {
                Some(k) => 0 <= k < cs@.len() && cs@[k].name@ == name@ && forall|j: int|
                    k < j < cs@.len() ==> cs@[j].name@ != name@,
                None => forall|j: int| 0 <= j < cs@.len() ==> cs@[j].name@ != name@,
            },
        decreases i,
    {
        i -= 1;
        if eq_chars(cs[i].name.as_slice(), name) {
            return Some(i);
        }
    }
    None
}

/// `Protocol` is among the class's bases.
pub open spec fn is_protocol_class(c: ClassInfo) -> bool {
    views(c.bases@).contains("Protocol"@)
}

/// `known_protocol_methods`: the dunder methods of the standard protocols.
pub open spec fn known_methods(name: Seq<char>) -> Option<Seq<Seq<char>>> {
    if name == "Sized"@ {
        Some(seq!["__len__"@])
    } else if name == "Hashable"@ {
        Some(seq!["__hash__"@])
    } else if name == "Iterable"@ {
        Some(seq!["__iter__"@])
    } else if name == "Iterator"@ {
        Some(seq!["__iter__"@, "__next__"@])
    } else if name == "Reversible"@ {
        Some(seq!["__reversed__"@])
    } else if name == "Container"@ {
        Some(seq!["__contains__"@])
    } else if name == "Collection"@ {
        Some(seq!["__contains__"@, "__iter__"@, "__len__"@])
    } else if name == "Callable"@ {
        Some(seq!["__call__"@])
    } else if name == "Awaitable"@ {
        Some(seq!["__await__"@])
    } else if name == "ContextManager"@ {
        Some(seq!["__enter__"@, "__exit__"@])
    } else if name == "AsyncContextManager"@ {
        Some(seq!["__aenter__"@, "__aexit__"@])
    } else if name == "SupportsInt"@ {
        Some(seq!["__int__"@])
    } else if name == "SupportsFloat"@ {
        Some(seq!["__float__"@])
    } else if name == "SupportsComplex"@ {
        Some(seq!["__complex__"@])
    } else if name == "SupportsBytes"@ {
        Some(seq!["__bytes__"@])
    } else if name == "SupportsAbs"@ {
        Some(seq!["__abs__"@])
    } else if name == "SupportsRound"@ {
        Some(seq!["__round__"@])
    } else if name == "Buffer"@ {
        Some(seq!["__buffer__"@])
    } else {
        None
    }
}

fn one(a: &str) -> (r: Option<Vec<Vec<char>>>)
    ensures
        r matches Some(v) && views(v@) == seq![a@],
{
    let v = vec![chars_of(a)];
    proof {
        assert(views(v@) =~= seq![a@]);
    }
    Some(v)
}

fn two(a: &str, b: &str) -> (r: Option<Vec<Vec<char>>>)
    ensures
        r matches Some(v) && views(v@) == seq![a@, b@],
{
    let v = vec![chars_of(a), chars_of(b)];
    proof {
        assert(views(v@) =~= seq![a@, b@]);
    }
    Some(v)
}

fn three(a: &str, b: &str, c: &str) -> (r: Option<Vec<Vec<char>>>)
    ensures
        r matches Some(v) && views(v@) == seq![a@, b@, c@],
{
    let v = vec![chars_of(a), chars_of(b), chars_of(c)];
    proof {
        assert(views(v@) =~= seq![a@, b@, c@]);
    }
    Some(v)
}

/// The methods required by a standard protocol known by name (`Iterable`, `Sized`, ...); `None` for any other name.
pub fn known_protocol_methods(name: &[char]) -> (r: Option<Vec<Vec<char>>>)
    ensures
        match r {
            Some(v) => known_methods(name@) == Some(views(v@)),
            None => known_methods(name@) is None,
        },
{
    if eq_str(name, "Sized") {
        one("__len__")
    } else if eq_str(name, "Hashable") {
        one("__hash__")
    } else if eq_str(name, "Iterable") {
        one("__iter__")
    } else if eq_str(name, "Iterator") {
        two("__iter__", "__next__")
    } else if eq_str(name, "Reversible") {
        one("__reversed__")
    } else if eq_str(name, "Container") {
        one("__contains__")
    } else if eq_str(name, "Collection") {
        three("__contains__", "__iter__", "__len__")
    } else if eq_str(name, "Callable") {
        one("__call__")
    } else if eq_str(name, "Awaitable") {
        one("__await__")
    } else if eq_str(name, "ContextManager") {
        two("__enter__", "__exit__")
    } else if eq_str(name, "AsyncContextManager") {
        two("__aenter__", "__aexit__")
    } else if eq_str(name, "SupportsInt") {
        one("__int__")
    } else if eq_str(name, "SupportsFloat") {
        one("__float__")
    } else if eq_str(name, "SupportsComplex") {
        one("__complex__")
    } else if eq_str(name, "SupportsBytes") {
        one("__bytes__")
    } else if eq_str(name, "SupportsAbs") {
        one("__abs__")
    } else if eq_str(name, "SupportsRound") {
        one("__round__")
    } else if eq_str(name, "Buffer") {
        one("__buffer__")
    } else {
        None
    }
}

// ---------------------------------------------------------------------------
// Nominal subclassing
// ---------------------------------------------------------------------------

/// `x` reaches `t` through at most `n` steps of the base-class walk.
pub open spec fn sub_within(cs: Seq<ClassInfo>, x: Seq<char>, t: Seq<char>, n: nat) -> bool
    decreases n, 0nat,
{
    match class_index(cs, x) {
        None => false,
        Some(i) => n > 0 && reach_any(cs, views(cs[i].bases@), t, (n - 1) as nat),
    }
}

/// One of the bases `bs` is `t` or reaches it within `m` steps.
pub open spec fn reach_any(cs: Seq<ClassInfo>, bs: Seq<Seq<char>>, t: Seq<char>, m: nat) -> bool
    decreases m, bs.len(),
{
    if bs.len() == 0 {
        false
    } else {
        reach_any(cs, bs.drop_last(), t, m) || bs.last() == t || sub_within(cs, bs.last(), t, m)
    }
}

/// The base-class walk from `x` ends within `n` steps.
pub open spec fn chain_free(cs: Seq<ClassInfo>, x: Seq<char>, n: nat) -> bool
    decreases n, 0nat,
{
    match class_index(cs, x) {
        None => true,
        Some(i) => n > 0 && all_free(cs, views(cs[i].bases@), (n - 1) as nat),
    }
}

/// The walk from each of `bs` ends within `m` steps.
pub open spec fn all_free(cs: Seq<ClassInfo>, bs: Seq<Seq<char>>, m: nat) -> bool
    decreases m, bs.len(),
{
    bs.len() == 0 || (all_free(cs, bs.drop_last(), m) && chain_free(cs, bs.last(), m))
}

proof fn lemma_all_free(cs: Seq<ClassInfo>, bs: Seq<Seq<char>>, m: nat)
    requires
        all_free(cs, bs, m),
    ensures
        forall|k: int| 0 <= k < bs.len() ==> chain_free(cs, #[trigger] bs[k], m),
    decreases bs.len(),
{
    if bs.len() > 0 {
        lemma_all_free(cs, bs.drop_last(), m);
        assert forall|k: int| 0 <= k < bs.len() implies chain_free(cs, #[trigger] bs[k], m) by {
            if k < bs.len() - 1 {
                assert(bs.drop_last()[k] == bs[k]);
            }
        }
    }
}

proof fn lemma_reach_prefix(cs: Seq<ClassInfo>, bs: Seq<Seq<char>>, t: Seq<char>, m: nat, k: int)
    requires
        0 <= k <= bs.len(),
        reach_any(cs, bs.take(k), t, m),
    ensures
        reach_any(cs, bs, t, m),
    decreases bs.len() - k,
{
    if k < bs.len() {
        assert(bs.take(k + 1).drop_last() =~= bs.take(k));
        lemma_reach_prefix(cs, bs, t, m, k + 1);
    } else {
        assert(bs.take(k) =~= bs);
    }
}

/// No class inherits from itself: the base-class walk from every class ends
/// within as many steps as there are classes.
pub open spec fn inheritance_acyclic(cs: Seq<ClassInfo>) -> bool {
    forall|i: int| 0 <= i < cs.len() ==> chain_free(cs, #[trigger] cs[i].name@, cs.len())
}

/// `is_nominal_subclass`: `t` is a base of `x`, directly or through the
/// bases of its bases.
pub open spec fn nominal_subclass(cs: Seq<ClassInfo>, x: Seq<char>, t: Seq<char>) -> bool {
    sub_within(cs, x, t, cs.len())
}

fn nominal_sub_fuel(cs: &Vec<ClassInfo>, x: &[char], t: &[char], Ghost(n): Ghost<nat>) -> (r: bool)
    requires
        chain_free(cs@, x@, n),
    ensures
        r == sub_within(cs@, x@, t@, n),
    decreases n,
{
    match find_class(cs, x) {
        None => false,
        Some(i) => {
            let ghost bs = views(cs@[i as int].bases@);
            proof {
                lemma_all_free(cs@, bs, (n - 1) as nat);
                assert(bs.take(0) =~= Seq::<Seq<char>>::empty());
            }
            let mut j: usize = 0;
            while j < cs[i].bases.len()
                invariant
                    i < cs@.len(),
                    class_index(cs@, x@) == Some(i as int),
                    n > 0,
                    bs == views(cs@[i as int].bases@),
                    j <= bs.len(),
                    forall|k: int| 0 <= k < bs.len() ==> chain_free(cs@, #[trigger] bs[k], (n - 1) as nat),
                    !reach_any(cs@, bs.take(j as int), t@, (n - 1) as nat),
                decreases bs.len() - j,
            {
                let b = &cs[i].bases[j];
                proof {
                    assert(bs.take(j + 1).drop_last() =~= bs.take(j as int));
                    assert(bs.take(j + 1).last() == b@);
                    assert(chain_free(cs@, bs[j as int], (n - 1) as nat));
                }
                if eq_chars(b.as_slice(), t) {
                    proof {
                        lemma_reach_prefix(cs@, bs, t@, (n - 1) as nat, j + 1);
                    }
                    return true;
                }
                if nominal_sub_fuel(cs, b.as_slice(), t, Ghost((n - 1) as nat)) {
                    proof {
                        lemma_reach_prefix(cs@, bs, t@, (n - 1) as nat, j + 1);
                    }
                    return true;
                }
                j += 1;
            }
            proof {
                assert(bs.take(j as int) =~= bs);
            }
            false
        },
    }
}

/// `is_nominal_subclass`. The walk follows base classes from `rhs`, so it
/// must end.
pub fn is_nominal_subclass(rhs: &[char], target: &[char], cs: &Vec<ClassInfo>) -> (r: bool)
    requires
        chain_free(cs@, rhs@, cs@.len()),
    ensures
        r == nominal_subclass(cs@, rhs@, target@),
{
    nominal_sub_fuel(cs, rhs, target, Ghost(cs@.len()))
}


// ---------------------------------------------------------------------------
// Protocol inheritance and required members
// ---------------------------------------------------------------------------

/// A base that makes a class a protocol's descendant: `Protocol` itself, a
/// protocol class of the module, or a standard protocol.
pub open spec fn protocol_base(cs: Seq<ClassInfo>, b: Seq<char>) -> bool {
    b == "Protocol"@ || (match class_index(cs, b) {
        Some(k) => is_protocol_class(cs[k]),
        None => false,
    }) || known_methods(b) is Some
}

/// One of `bs` is a protocol base.
pub open spec fn any_protocol_base(cs: Seq<ClassInfo>, bs: Seq<Seq<char>>) -> bool
    decreases bs.len(),
{
    bs.len() > 0 && (any_protocol_base(cs, bs.drop_last()) || protocol_base(cs, bs.last()))
}

proof fn lemma_any_protocol_base_prefix(cs: Seq<ClassInfo>, bs: Seq<Seq<char>>, k: int)
    requires
        0 <= k <= bs.len(),
        any_protocol_base(cs, bs.take(k)),
    ensures
        any_protocol_base(cs, bs),
    decreases bs.len() - k,
{
    if k < bs.len() {
        assert(bs.take(k + 1).drop_last() =~= bs.take(k));
        lemma_any_protocol_base_prefix(cs, bs, k + 1);
    } else {
        assert(bs.take(k) =~= bs);
    }
}

/// `class_inherits_protocol`: one of the class's direct bases is a protocol.
pub open spec fn inherits_protocol(cs: Seq<ClassInfo>, name: Seq<char>) -> bool {
    match class_index(cs, name) {
        None => false,
        Some(i) => any_protocol_base(cs, views(cs[i].bases@)),
    }
}

fn is_protocol_base(cs: &Vec<ClassInfo>, b: &[char]) -> (r: bool)
    ensures
        r == protocol_base(cs@, b@),
{
    if eq_str(b, "Protocol") {
        return true;
    }
    if let Some(k) = find_class(cs, b) {
        let proto = chars_of("Protocol");
        if contains_name(&cs[k].bases, proto.as_slice()) {
            return true;
        }
    }
    known_protocol_methods(b).is_some()
}

/// Whether the class of that name has a protocol among its direct bases.
pub fn class_inherits_protocol(name: &[char], cs: &Vec<ClassInfo>) -> (r: bool)
    ensures
        r == inherits_protocol(cs@, name@),
{
    match find_class(cs, name) {
        None => false,
        Some(i) => {
            let ghost bs = views(cs@[i as int].bases@);
            proof {
                assert(bs.take(0) =~= Seq::<Seq<char>>::empty());
            }
            let mut j: usize = 0;
            while j < cs[i].bases.len()
                invariant
                    i < cs@.len(),
                    class_index(cs@, name@) == Some(i as int),
                    bs == views(cs@[i as int].bases@),
                    j <= bs.len(),
                    !any_protocol_base(cs@, bs.take(j as int)),
                decreases bs.len() - j,
            {
                proof {
                    assert(bs.take(j + 1).drop_last() =~= bs.take(j as int));
                    assert(bs.take(j + 1).last() == cs@[i as int].bases@[j as int]@);
                }
                if is_protocol_base(cs, cs[i].bases[j].as_slice()) {
                    proof {
                        lemma_any_protocol_base_prefix(cs@, bs, j + 1);
                    }
                    return true;
                }
                j += 1;
            }
            proof {
                assert(bs.take(j as int) =~= bs);
            }
            false
        },
    }
}

/// What one base adds to the required members gathered so far.
pub open spec fn base_requirements(cs: Seq<ClassInfo>, acc: Seq<Seq<char>>, b: Seq<char>) -> Seq<
    Seq<char>,
> {
    if b == "Protocol"@ || b == "object"@ || b == "Generic"@ {
        acc
    } else {
        match known_methods(b) {
            Some(req) => add_all(acc, req),
            None => match class_index(cs, b) {
                Some(k) => if is_protocol_class(cs[k]) {
                    add_all(acc, views(cs[k].method_names@))
                } else {
                    acc
                },
                None => acc,
            },
        }
    }
}

pub open spec fn requirements_from(cs: Seq<ClassInfo>, acc: Seq<Seq<char>>, bases: Seq<Seq<char>>) -> Seq<
    Seq<char>,
>
    decreases bases.len(),
{
    if bases.len() == 0 {
        acc
    } else {
        base_requirements(cs, requirements_from(cs, acc, bases.drop_last()), bases.last())
    }
}

/// `collect_protocol_required_methods`: the protocol's own methods, then
/// those of its standard and module protocol bases not yet listed.
pub open spec fn required_methods(cs: Seq<ClassInfo>, p: ClassInfo) -> Seq<Seq<char>> {
    requirements_from(cs, views(p.method_names@), views(p.bases@))
}

/// The methods a protocol requires: its own, then those of its protocol bases not yet listed.
pub fn collect_protocol_required_methods(p: &ClassInfo, cs: &Vec<ClassInfo>) -> (r: Vec<Vec<char>>)
    ensures
        views(r@) == required_methods(cs@, *p),
{
    let mut methods: Vec<Vec<char>> = p.method_names.clone();
    let proto = chars_of("Protocol");
    let mut i: usize = 0;
    proof {
        assert(views(p.bases@).take(0) =~= Seq::<Seq<char>>::empty());
    }
    while i < p.bases.len()
        invariant
            i <= p.bases@.len(),
            proto@ == "Protocol"@,
            views(methods@) == requirements_from(cs@, views(p.method_names@), views(p.bases@).take(i as int)),
        decreases p.bases.len() - i,
    {
        let b = &p.bases[i];
        proof {
            let t = views(p.bases@).take(i + 1);
            assert(t.drop_last() =~= views(p.bases@).take(i as int));
            assert(t.last() == b@);
        }
        if eq_str(b.as_slice(), "Protocol") || eq_str(b.as_slice(), "object") || eq_str(
            b.as_slice(),
            "Generic",
        ) {
        } else {
            match known_protocol_methods(b.as_slice()) {
                Some(req) => insert_all(&mut methods, &req),
                None => {
                    if let Some(k) = find_class(cs, b.as_slice()) {
                        if contains_name(&cs[k].bases, proto.as_slice()) {
                            insert_all(&mut methods, &cs[k].method_names);
                        }
                    }
                },
            }
        }
        i += 1;
    }
    proof {
        assert(views(p.bases@).take(i as int) =~= views(p.bases@));
    }
    methods
}

// ---------------------------------------------------------------------------
// Read-write properties
// ---------------------------------------------------------------------------

pub open spec fn decorators_view(md: Seq<(Vec<char>, Vec<Vec<char>>)>) -> Seq<
    (Seq<char>, Seq<Seq<char>>),
> {
    md.map_values(|e: (Vec<char>, Vec<Vec<char>>)| (e.0@, views(e.1@)))
}

/// Some definition of `name` carries the decorator `d`.
pub open spec fn decorated(md: Seq<(Seq<char>, Seq<Seq<char>>)>, name: Seq<char>, d: Seq<char>) -> bool {
    exists|k: int| 0 <= k < md.len() && (#[trigger] md[k]).0 == name && md[k].1.contains(d)
}

/// The first `n` definitions' read-write properties: a `property` whose name
/// also has a `setter`, each once.
pub open spec fn rw_members_upto(md: Seq<(Seq<char>, Seq<Seq<char>>)>, n: int) -> Seq<Seq<char>>
    decreases n,
{
    if n <= 0 {
        Seq::empty()
    } else {
        let prev = rw_members_upto(md, n - 1);
        let e = md[n - 1];
        if e.1.contains("property"@) && decorated(md, e.0, "setter"@) && !prev.contains(e.0) {
            prev.push(e.0)
        } else {
            prev
        }
    }
}

/// The read-write properties of a class: each `property` whose name also has a `setter`, once.
pub open spec fn rw_members(c: ClassInfo) -> Seq<Seq<char>> {
    let md = decorators_view(c.method_decorators@);
    rw_members_upto(md, md.len() as int)
}

fn has_decorator(md: &Vec<(Vec<char>, Vec<Vec<char>>)>, name: &[char], d: &[char]) -> (r: bool)
    ensures
        r == decorated(decorators_view(md@), name@, d@),
{
    let ghost v = decorators_view(md@);
    let mut k: usize = 0;
    while k < md.len()
        invariant
            k <= md@.len(),
            v == decorators_view(md@),
            forall|j: int| 0 <= j < k ==> !((#[trigger] v[j]).0 == name@ && v[j].1.contains(d@)),
        decreases md.len() - k,
    {
        let e = &md[k];
        if eq_chars(e.0.as_slice(), name) && contains_name(&e.1, d) {
            assert(v[k as int].0 == name@ && v[k as int].1.contains(d@));
            return true;
        }
        assert(!(v[k as int].0 == name@ && v[k as int].1.contains(d@)));
        k += 1;
    }
    false
}

/// Lists the class's read-write properties (see `rw_members`).
pub fn readwrite_property_members(c: &ClassInfo) -> (r: Vec<Vec<char>>)
    ensures
        views(r@) == rw_members(*c),
{
    let md = &c.method_decorators;
    let ghost v = decorators_view(md@);
    let property = chars_of("property");
    let setter = chars_of("setter");
    let mut members: Vec<Vec<char>> = Vec::new();
    let mut i: usize = 0;
    while i < md.len()
        invariant
            i <= md@.len(),
            v == decorators_view(md@),
            property@ == "property"@,
            setter@ == "setter"@,
            views(members@) == rw_members_upto(v, i as int),
        decreases md.len() - i,
    {
        let e = &md[i];
        assert(v[i as int] == (e.0@, views(e.1@)));
        if contains_name(&e.1, property.as_slice()) && has_decorator(
            md,
            e.0.as_slice(),
            setter.as_slice(),
        ) && !contains_name(&members, e.0.as_slice()) {
            let ghost before = views(members@);
            members.push(e.0.clone());
            assert(views(members@) =~= before.push(e.0@));
        }
        i += 1;
    }
    members
}

/// Why a member cannot stand for a writable protocol property.
#[derive(Clone, Copy, PartialEq, Eq, Structural, Debug)]
pub enum WriteReason {
    NamedTupleField,
    FrozenDataclassField,
    ReadOnlyProperty,
}

/// `readwrite_property_violation`: none when the class lacks the member or
/// can write it.
pub open spec fn rw_violation(c: ClassInfo, member: Seq<char>) -> Option<WriteReason> {
    let md = decorators_view(c.method_decorators@);
    if !views(c.attributes@).contains(member) && !views(c.method_names@).contains(member) {
        None
    } else if views(c.bases@).contains("NamedTuple"@) {
        Some(WriteReason::NamedTupleField)
    } else if c.is_dataclass_frozen {
        Some(WriteReason::FrozenDataclassField)
    } else if decorated(md, member, "property"@) && !decorated(md, member, "setter"@) {
        Some(WriteReason::ReadOnlyProperty)
    } else {
        None
    }
}

/// Why the class cannot write a member that a protocol needs writable; `None` when it lacks the member or can write it.
pub fn readwrite_property_violation(c: &ClassInfo, member: &[char]) -> (r: Option<WriteReason>)
    ensures
        r == rw_violation(*c, member@),
{
    if !contains_name(&c.attributes, member) && !contains_name(&c.method_names, member) {
        return None;
    }
    let nt = chars_of("NamedTuple");
    if contains_name(&c.bases, nt.as_slice()) {
        return Some(WriteReason::NamedTupleField);
    }
    if c.is_dataclass_frozen {
        return Some(WriteReason::FrozenDataclassField);
    }
    let property = chars_of("property");
    let setter = chars_of("setter");
    if has_decorator(&c.method_decorators, member, property.as_slice()) && !has_decorator(
        &c.method_decorators,
        member,
        setter.as_slice(),
    ) {
        return Some(WriteReason::ReadOnlyProperty);
    }
    None
}

// ---------------------------------------------------------------------------
// Findings
// ---------------------------------------------------------------------------

/// What is wrong with an assignment.
pub enum ConformanceFinding {
    /// The class lacks members the protocol requires.
    MissingMembers { rhs_class: Vec<char>, protocol: Vec<char>, missing: Vec<Vec<char>> },
    /// The class has a member the protocol needs writable, but cannot write it.
    NotWritable { rhs_class: Vec<char>, protocol: Vec<char>, member: Vec<char>, reason: WriteReason },
    /// The annotation inherits from a protocol without being one.
    NotAProtocol { rhs_class: Vec<char>, annotation: Vec<char> },
}

/// A finding at the assigned variable's name.
pub struct ConformanceReport {
    pub span: Span,
    pub finding: ConformanceFinding,
}

pub enum FindingV {
    Missing(Seq<char>, Seq<char>, Seq<Seq<char>>),
    NotWritable(Seq<char>, Seq<char>, Seq<char>, WriteReason),
    NotAProtocol(Seq<char>, Seq<char>),
}

/// How a message says why a member cannot be written.
pub open spec fn reason_text(r: WriteReason) -> Seq<char> {
    match r {
        WriteReason::NamedTupleField => "named tuple fields are immutable"@,
        WriteReason::FrozenDataclassField => "frozen dataclass fields are immutable"@,
        WriteReason::ReadOnlyProperty => "a read-only property cannot satisfy a writable protocol member"@,
    }
}

/// The text of a finding.
pub open spec fn conformance_message(f: FindingV) -> Seq<char> {
    match f {
        FindingV::Missing(rhs, protocol, missing) => "Class `"@ + rhs + "` is incompatible with protocol `"@
            + protocol + "`: missing method"@ + (if missing.len() == 1 {
            ""@
        } else {
            "s"@
        }) + " `"@ + crate::text::join_sep(missing, "`, `"@) + "`"@,
        FindingV::NotWritable(rhs, protocol, member, reason) => "Class `"@ + rhs
            + "` is incompatible with protocol `"@ + protocol + "`: `"@ + member + "` must be writable but "@
            + reason_text(reason),
        FindingV::NotAProtocol(rhs, annotation) => "Cannot assign `"@ + rhs + "()` to type `"@ + annotation
            + "`: `"@ + annotation + "` is not a protocol and does not support structural subtyping"@,
    }
}

impl ConformanceReport {
    /// The finding's message.
    pub fn message(&self) -> (r: Vec<char>)
        ensures
            r@ == conformance_message(finding_view(self.finding)),
    {
        match &self.finding {
            ConformanceFinding::MissingMembers { rhs_class, protocol, missing } => {
                let mut m = chars_of("Class `");
                crate::text::push_chars(&mut m, rhs_class.as_slice());
                crate::text::push_lit(&mut m, "` is incompatible with protocol `");
                crate::text::push_chars(&mut m, protocol.as_slice());
                if missing.len() == 1 {
                    crate::text::push_lit(&mut m, "`: missing method `");
                } else {
                    crate::text::push_lit(&mut m, "`: missing methods `");
                }
                crate::text::push_joined_sep(&mut m, missing, "`, `");
                crate::text::push_lit(&mut m, "`");
                proof {
                    reveal_strlit("`: missing method `");
                    reveal_strlit("`: missing methods `");
                    reveal_strlit("`: missing method");
                    reveal_strlit("s");
                    reveal_strlit("");
                    reveal_strlit(" `");
                }
                m
            },
            ConformanceFinding::NotWritable { rhs_class, protocol, member, reason } => {
                let mut m = chars_of("Class `");
                crate::text::push_chars(&mut m, rhs_class.as_slice());
                crate::text::push_lit(&mut m, "` is incompatible with protocol `");
                crate::text::push_chars(&mut m, protocol.as_slice());
                crate::text::push_lit(&mut m, "`: `");
                crate::text::push_chars(&mut m, member.as_slice());
                crate::text::push_lit(&mut m, "` must be writable but ");
                match reason {
                    WriteReason::NamedTupleField => crate::text::push_lit(&mut m, "named tuple fields are immutable"),
                    WriteReason::FrozenDataclassField => crate::text::push_lit(
                        &mut m,
                        "frozen dataclass fields are immutable",
                    ),
                    WriteReason::ReadOnlyProperty => crate::text::push_lit(
                        &mut m,
                        "a read-only property cannot satisfy a writable protocol member",
                    ),
                }
                m
            },
            ConformanceFinding::NotAProtocol { rhs_class, annotation } => {
                let mut m = chars_of("Cannot assign `");
                crate::text::push_chars(&mut m, rhs_class.as_slice());
                crate::text::push_lit(&mut m, "()` to type `");
                crate::text::push_chars(&mut m, annotation.as_slice());
                crate::text::push_lit(&mut m, "`: `");
                crate::text::push_chars(&mut m, annotation.as_slice());
                crate::text::push_lit(&mut m, "` is not a protocol and does not support structural subtyping");
                m
            },
        }
    }
}

pub open spec fn finding_view(f: ConformanceFinding) -> FindingV {
    match f {
        ConformanceFinding::MissingMembers { rhs_class, protocol, missing } => FindingV::Missing(
            rhs_class@,
            protocol@,
            views(missing@),
        ),
        ConformanceFinding::NotWritable { rhs_class, protocol, member, reason } => FindingV::NotWritable(
            rhs_class@,
            protocol@,
            member@,
            reason,
        ),
        ConformanceFinding::NotAProtocol { rhs_class, annotation } => FindingV::NotAProtocol(
            rhs_class@,
            annotation@,
        ),
    }
}

pub open spec fn reports_view(v: Seq<ConformanceReport>) -> Seq<(Span, FindingV)> {
    v.map_values(|r: ConformanceReport| (r.span, finding_view(r.finding)))
}

/// The methods, then the attributes, of the class a name looks up.
pub open spec fn methods_of(cs: Seq<ClassInfo>, name: Seq<char>) -> Seq<Seq<char>> {
    match class_index(cs, name) {
        Some(k) => views(cs[k].method_names@),
        None => Seq::empty(),
    }
}

pub open spec fn attributes_of(cs: Seq<ClassInfo>, name: Seq<char>) -> Seq<Seq<char>> {
    match class_index(cs, name) {
        Some(k) => views(cs[k].attributes@),
        None => Seq::empty(),
    }
}

/// The required members that `rhs` provides neither as a method nor as an
/// attribute.
pub open spec fn missing_members(cs: Seq<ClassInfo>, p: ClassInfo, rhs: Seq<char>) -> Seq<Seq<char>> {
    minus(minus(required_methods(cs, p), methods_of(cs, rhs)), attributes_of(cs, rhs))
}

/// A member is reported missing exactly when the protocol requires it and
/// the class provides it neither as a method nor as an attribute.
pub proof fn law_missing_members(cs: Seq<ClassInfo>, p: ClassInfo, rhs: Seq<char>, m: Seq<char>)
    ensures
        missing_members(cs, p, rhs).contains(m) <==> (required_methods(cs, p).contains(m)
            && !methods_of(cs, rhs).contains(m) && !attributes_of(cs, rhs).contains(m)),
{
    crate::names::law_minus(
        minus(required_methods(cs, p), methods_of(cs, rhs)),
        attributes_of(cs, rhs),
        m,
    );
    crate::names::law_minus(required_methods(cs, p), methods_of(cs, rhs), m);
}

pub open spec fn rw_findings(
    impl_cls: ClassInfo,
    members: Seq<Seq<char>>,
    rhs: Seq<char>,
    protocol: Seq<char>,
    span: Span,
) -> Seq<(Span, FindingV)>
    decreases members.len(),
{
    if members.len() == 0 {
        Seq::empty()
    } else {
        rw_findings(impl_cls, members.drop_last(), rhs, protocol, span) + match rw_violation(
            impl_cls,
            members.last(),
        ) {
            Some(reason) => seq![(span, FindingV::NotWritable(rhs, protocol, members.last(), reason))],
            None => Seq::empty(),
        }
    }
}

/// The not-writable findings for one assignment of a class to a protocol with settable properties.
pub open spec fn readwrite_findings(
    cs: Seq<ClassInfo>,
    protocol: Seq<char>,
    p: ClassInfo,
    rhs: Seq<char>,
    span: Span,
) -> Seq<(Span, FindingV)> {
    let rw = rw_members(p);
    if rw.len() == 0 {
        Seq::empty()
    } else {
        match class_index(cs, rhs) {
            Some(k) => rw_findings(cs[k], rw, rhs, protocol, span),
            None => Seq::empty(),
        }
    }
}

/// `check_protocol_conformance`: missing members, then read-write
/// properties the class cannot write.
pub open spec fn conformance_findings(
    cs: Seq<ClassInfo>,
    protocol: Seq<char>,
    p: ClassInfo,
    rhs: Seq<char>,
    span: Span,
) -> Seq<(Span, FindingV)> {
    let missing = missing_members(cs, p, rhs);
    (if missing.len() > 0 {
        seq![(span, FindingV::Missing(rhs, protocol, missing))]
    } else {
        Seq::empty()
    }) + readwrite_findings(cs, protocol, p, rhs, span)
}

fn check_readwrite_property_conformance(
    protocol: &[char],
    p: &ClassInfo,
    rhs: &[char],
    cs: &Vec<ClassInfo>,
    span: Span,
    out: &mut Vec<ConformanceReport>,
)
    ensures
        reports_view(final(out)@) == reports_view(old(out)@) + readwrite_findings(
            cs@,
            protocol@,
            *p,
            rhs@,
            span,
        ),
{
    let ghost start = reports_view(out@);
    let rw = readwrite_property_members(p);
    if rw.len() == 0 {
        proof {
            assert(reports_view(out@) =~= start + Seq::empty());
        }
        return ;
    }
    let k = match find_class(cs, rhs) {
        Some(k) => k,
        None => {
            proof {
                assert(reports_view(out@) =~= start + Seq::empty());
            }
            return ;
        },
    };
    let impl_cls = &cs[k];
    let mut i: usize = 0;
    while i < rw.len()
        invariant
            i <= rw@.len(),
            k < cs@.len(),
            *impl_cls == cs@[k as int],
            reports_view(out@) == start + rw_findings(
                *impl_cls,
                views(rw@).take(i as int),
                rhs@,
                protocol@,
                span,
            ),
        decreases rw.len() - i,
    {
        proof {
            let t = views(rw@).take(i + 1);
            assert(t.drop_last() =~= views(rw@).take(i as int));
            assert(t.last() == rw@[i as int]@);
        }
        let ghost mid = reports_view(out@);
        match readwrite_property_violation(impl_cls, rw[i].as_slice()) {
            Some(reason) => {
                out.push(
                    ConformanceReport {
                        span,
                        finding: ConformanceFinding::NotWritable {
                            rhs_class: copy_text(rhs),
                            protocol: copy_text(protocol),
                            member: rw[i].clone(),
                            reason,
                        },
                    },
                );
                proof {
                    assert(reports_view(out@) =~= mid + seq![
                        (span, FindingV::NotWritable(rhs@, protocol@, rw@[i as int]@, reason)),
                    ]);
                }
            },
            None => {
                proof {
                    assert(reports_view(out@) =~= mid + Seq::empty());
                }
            },
        }
        i += 1;
    }
    proof {
        assert(views(rw@).take(i as int) =~= views(rw@));
    }
}

/// Appends the findings for assigning class `rhs` where `protocol` is expected: missing members first, then members it cannot write.
pub fn check_protocol_conformance(
    protocol: &[char],
    p: &ClassInfo,
    rhs: &[char],
    cs: &Vec<ClassInfo>,
    span: Span,
    out: &mut Vec<ConformanceReport>,
)
    ensures
        reports_view(final(out)@) == reports_view(old(out)@) + conformance_findings(
            cs@,
            protocol@,
            *p,
            rhs@,
            span,
        ),
{
    let ghost start = reports_view(out@);
    let required = collect_protocol_required_methods(p, cs);
    let rhs_methods: Vec<Vec<char>>;
    let rhs_attrs: Vec<Vec<char>>;
    match find_class(cs, rhs) {
        Some(k) => {
            rhs_methods = cs[k].method_names.clone();
            rhs_attrs = cs[k].attributes.clone();
            proof {
                assert(views(rhs_methods@) =~= methods_of(cs@, rhs@));
                assert(views(rhs_attrs@) =~= attributes_of(cs@, rhs@));
            }
        },
        None => {
            rhs_methods = Vec::new();
            rhs_attrs = Vec::new();
            proof {
                assert(views(rhs_methods@) =~= methods_of(cs@, rhs@));
                assert(views(rhs_attrs@) =~= attributes_of(cs@, rhs@));
            }
        },
    }
    let first = minus_names(&required, &rhs_methods);
    let missing = minus_names(&first, &rhs_attrs);
    if missing.len() > 0 {
        out.push(
            ConformanceReport {
                span,
                finding: ConformanceFinding::MissingMembers {
                    rhs_class: copy_text(rhs),
                    protocol: copy_text(protocol),
                    missing,
                },
            },
        );
    }
    let ghost mid = reports_view(out@);
    proof {
        assert(mid =~= start + (if missing_members(cs@, *p, rhs@).len() > 0 {
            seq![(span, FindingV::Missing(rhs@, protocol@, missing_members(cs@, *p, rhs@)))]
        } else {
            Seq::empty()
        }));
    }
    check_readwrite_property_conformance(protocol, p, rhs, cs, span, out);
    proof {
        assert(reports_view(out@) =~= start + conformance_findings(cs@, protocol@, *p, rhs@, span));
    }
}

// ---------------------------------------------------------------------------
// The rule
// ---------------------------------------------------------------------------

/// The class constructed by a right-hand side `Name(...)`: the trimmed text
/// before its first `(`, when that is a nonempty word.
pub open spec fn constructed_class(rhs: Seq<char>) -> Option<Seq<char>> {
    let t = trim(rhs);
    match find_char(t, '(') {
        Some(p) => {
            let name = trim(t.take(p));
            if name.len() > 0 && all_alnum_or_underscore(name) {
                Some(name)
            } else {
                None
            }
        },
        None => None,
    }
}

/// The findings for one module-level variable.
pub open spec fn var_findings(cs: Seq<ClassInfo>, ann: Option<Seq<char>>, rhs: Option<Seq<char>>, span: Span) -> Seq<
    (Span, FindingV),
> {
    match (ann, rhs) {
        (Some(a), Some(r)) => {
            let ann_name = trim(a);
            match constructed_class(r) {
                Some(rc) => if ann_name == rc || nominal_subclass(cs, rc, ann_name) {
                    Seq::empty()
                } else {
                    match class_index(cs, ann_name) {
                        Some(k) => if is_protocol_class(cs[k]) {
                            conformance_findings(cs, ann_name, cs[k], rc, span)
                        } else if inherits_protocol(cs, ann_name) {
                            seq![(span, FindingV::NotAProtocol(rc, ann_name))]
                        } else {
                            Seq::empty()
                        },
                        None => Seq::empty(),
                    }
                },
                None => Seq::empty(),
            }
        },
        _ => Seq::empty(),
    }
}

pub open spec fn opt_view(o: Option<Vec<char>>) -> Option<Seq<char>> {
    match o {
        Some(v) => Some(v@),
        None => None,
    }
}

pub open spec fn module_findings(cs: Seq<ClassInfo>, vars: Seq<VarSite>) -> Seq<(Span, FindingV)>
    decreases vars.len(),
{
    if vars.len() == 0 {
        Seq::empty()
    } else {
        let v = vars.last();
        module_findings(cs, vars.drop_last()) + var_findings(
            cs,
            opt_view(v.annotation),
            opt_view(v.rhs),
            v.name_span,
        )
    }
}

fn constructed_class_exec(rhs: &[char]) -> (r: Option<Vec<char>>)
    ensures
        opt_view(r) == constructed_class(rhs@),
{
    let t = trim_chars(rhs);
    match find_char_exec(t.as_slice(), '(') {
        Some(p) => {
            proof {
                lemma_find_char(t@, '(');
            }
            let head = slice_of(t.as_slice(), 0, p);
            let name = trim_chars(head.as_slice());
            proof {
                assert(head@ =~= t@.take(p as int));
            }
            if name.len() > 0 && is_alnum_underscore_word(name.as_slice()) {
                Some(name)
            } else {
                None
            }
        },
        None => None,
    }
}

/// The walk the rule takes for one variable ends: that from the class
/// constructed on the right, when it differs from the annotation.
pub open spec fn var_walk_ends(cs: Seq<ClassInfo>, ann: Option<Seq<char>>, rhs: Option<Seq<char>>) -> bool {
    match (ann, rhs) {
        (Some(a), Some(r)) => match constructed_class(r) {
            Some(rc) => trim(a) == rc || chain_free(cs, rc, cs.len()),
            None => true,
        },
        _ => true,
    }
}

/// Every walk the rule takes over the variables ends.
pub open spec fn conformance_walks_end(cs: Seq<ClassInfo>, vars: Seq<VarSite>) -> bool {
    forall|i: int|
        0 <= i < vars.len() ==> var_walk_ends(cs, opt_view(#[trigger] vars[i].annotation), opt_view(vars[i].rhs))
}

fn check_var(
    cs: &Vec<ClassInfo>,
    var: &VarSite,
    out: &mut Vec<ConformanceReport>,
)
    requires
        var_walk_ends(cs@, opt_view(var.annotation), opt_view(var.rhs)),
    ensures
        reports_view(final(out)@) == reports_view(old(out)@) + var_findings(
            cs@,
            opt_view(var.annotation),
            opt_view(var.rhs),
            var.name_span,
        ),
{
    let ghost start = reports_view(out@);
    if let (Some(a), Some(r)) = (&var.annotation, &var.rhs) {
        let ann_name = trim_chars(a.as_slice());
        if let Some(rc) = constructed_class_exec(r.as_slice()) {
            if eq_chars(ann_name.as_slice(), rc.as_slice()) || is_nominal_subclass(
                rc.as_slice(),
                ann_name.as_slice(),
                cs,
            ) {
            } else if let Some(k) = find_class(cs, ann_name.as_slice()) {
                let proto = chars_of("Protocol");
                if contains_name(&cs[k].bases, proto.as_slice()) {
                    check_protocol_conformance(
                        ann_name.as_slice(),
                        &cs[k],
                        rc.as_slice(),
                        cs,
                        var.name_span,
                        out,
                    );
                    return ;
                } else if class_inherits_protocol(ann_name.as_slice(), cs) {
                    out.push(
                        ConformanceReport {
                            span: var.name_span,
                            finding: ConformanceFinding::NotAProtocol {
                                rhs_class: rc.clone(),
                                annotation: ann_name.clone(),
                            },
                        },
                    );
                    proof {
                        assert(reports_view(out@) =~= start + seq![
                            (var.name_span, FindingV::NotAProtocol(rc@, ann_name@)),
                        ]);
                    }
                    return ;
                }
            }
        }
    }
    proof {
        assert(reports_view(out@) =~= start + var_findings(
            cs@,
            opt_view(var.annotation),
            opt_view(var.rhs),
            var.name_span,
        ));
    }
}

/// The rule: annotated module-level assignments of a constructed class to
/// a protocol it does not conform to.
pub struct ProtocolAssignmentConformance;

impl ProtocolAssignmentConformance {
    /// The findings of each variable, in order. The class walk follows base
    /// classes, so the walks it takes must end.
    pub fn check(&self, classes: &Vec<ClassInfo>, vars: &Vec<VarSite>) -> (r: Vec<ConformanceReport>)
        requires
            conformance_walks_end(classes@, vars@),
        ensures
            reports_view(r@) == module_findings(classes@, vars@),
    {
        let mut out: Vec<ConformanceReport> = Vec::new();
        let mut i: usize = 0;
        while i < vars.len()
            invariant
                i <= vars@.len(),
                conformance_walks_end(classes@, vars@),
                reports_view(out@) == module_findings(classes@, vars@.take(i as int)),
            decreases vars.len() - i,
        {
            proof {
                assert(vars@.take(i + 1).drop_last() =~= vars@.take(i as int));
                assert(vars@.take(i + 1).last() == vars@[i as int]);
                assert(var_walk_ends(classes@, opt_view(vars@[i as int].annotation), opt_view(vars@[i as int].rhs)));
            }
            check_var(classes, &vars[i], &mut out);
            i += 1;
        }
        proof {
            assert(vars@.take(i as int) =~= vars@);
        }
        out
    }
}

} // verus!

verus! {

fn chain_free_exec(cs: &Vec<ClassInfo>, x: &[char], n: usize) -> (r: bool)
    ensures
        r == chain_free(cs@, x@, n as nat),
    decreases n,
{
    match find_class(cs, x) {
        None => true,
        Some(i) => {
            if n == 0 {
                return false;
            }
            let bs = &cs[i].bases;
            let ghost bv = views(bs@);
            let mut j: usize = 0;
            proof {
                assert(bv.take(0) =~= Seq::<Seq<char>>::empty());
            }
            while j < bs.len()
                invariant
                    j <= bs@.len(),
                    n > 0,
                    i < cs@.len(),
                    class_index(cs@, x@) == Some(i as int),
                    bv == views(bs@),
                    bv == views(cs@[i as int].bases@),
                    all_free(cs@, bv.take(j as int), (n - 1) as nat),
                decreases bs.len() - j,
            {
                proof {
                    assert(bv.take(j + 1).drop_last() =~= bv.take(j as int));
                    assert(bv.take(j + 1).last() == bs@[j as int]@);
                }
                if !chain_free_exec(cs, bs[j].as_slice(), n - 1) {
                    proof {
                        lemma_all_free_prefix(cs@, bv, (n - 1) as nat, j + 1);
                    }
                    return false;
                }
                j += 1;
            }
            proof {
                assert(bv.take(j as int) =~= bv);
            }
            true
        },
    }
}

/// A prefix of a walk that does not end makes the whole walk not end.
proof fn lemma_all_free_prefix(cs: Seq<ClassInfo>, bs: Seq<Seq<char>>, m: nat, k: int)
    requires
        0 <= k <= bs.len(),
        !all_free(cs, bs.take(k), m),
    ensures
        !all_free(cs, bs, m),
    decreases bs.len() - k,
{
    if k < bs.len() {
        assert(bs.take(k + 1).drop_last() =~= bs.take(k));
        lemma_all_free_prefix(cs, bs, m, k + 1);
    } else {
        assert(bs.take(k) =~= bs);
    }
}

/// Whether no class inherits from itself (which lets `check` run on any
/// variables: `law_acyclic_walks_end`).
pub fn inheritance_is_acyclic(cs: &Vec<ClassInfo>) -> (r: bool)
    ensures
        r == inheritance_acyclic(cs@),
{
    let mut i: usize = 0;
    while i < cs.len()
        invariant
            i <= cs@.len(),
            forall|k: int| 0 <= k < i ==> chain_free(cs@, #[trigger] cs@[k].name@, cs@.len()),
        decreases cs.len() - i,
    {
        if !chain_free_exec(cs, cs[i].name.as_slice(), cs.len()) {
            return false;
        }
        i += 1;
    }
    true
}

/// With no class inheriting from itself, every walk the rule takes ends,
/// whatever the variables.
pub proof fn law_acyclic_walks_end(cs: Seq<ClassInfo>, vars: Seq<VarSite>)
    requires
        inheritance_acyclic(cs),
    ensures
        conformance_walks_end(cs, vars),
{
    assert forall|i: int| 0 <= i < vars.len() implies var_walk_ends(
        cs,
        opt_view(#[trigger] vars[i].annotation),
        opt_view(vars[i].rhs),
    ) by {
        if let (Some(a), Some(r)) = (opt_view(vars[i].annotation), opt_view(vars[i].rhs)) {
            if let Some(rc) = constructed_class(r) {
                lemma_class_index(cs, rc);
                if let Some(k) = class_index(cs, rc) {
                    assert(chain_free(cs, cs[k].name@, cs.len()));
                }
            }
        }
    }
}

/// Whether `ProtocolAssignmentConformance::check` may be called on the
/// variables: each walk it takes ends.
pub fn walks_end(cs: &Vec<ClassInfo>, vars: &Vec<VarSite>) -> (r: bool)
    ensures
        r == conformance_walks_end(cs@, vars@),
{
    let mut i: usize = 0;
    while i < vars.len()
        invariant
            i <= vars@.len(),
            forall|k: int|
                0 <= k < i ==> var_walk_ends(cs@, opt_view(#[trigger] vars@[k].annotation), opt_view(vars@[k].rhs)),
        decreases vars.len() - i,
    {
        let v = &vars[i];
        let ok = match (&v.annotation, &v.rhs) {
            (Some(a), Some(r)) => match constructed_class_exec(r.as_slice()) {
                Some(rc) => {
                    let ann_name = trim_chars(a.as_slice());
                    eq_chars(ann_name.as_slice(), rc.as_slice()) || chain_free_exec(cs, rc.as_slice(), cs.len())
                },
                None => true,
            },
            _ => true,
        };
        if !ok {
            return false;
        }
        i += 1;
    }
    true
}

impl ProtocolAssignmentConformance {
    /// `check` where the walks it takes end, `None` where one does not.
    pub fn check_if_walks_end(&self, classes: &Vec<ClassInfo>, vars: &Vec<VarSite>) -> (r: Option<
        Vec<ConformanceReport>,
    >)
        ensures
            r is None <==> !conformance_walks_end(classes@, vars@),
            r matches Some(v) ==> reports_view(v@) == module_findings(classes@, vars@),
    {
        if walks_end(classes, vars) {
            Some(self.check(classes, vars))
        } else {
            None
        }
    }
}

} // verus!
