use basilisk_checker::arity::{ArityDiagnostic, ArityIssue};
use basilisk_checker::base_variance::{BaseVarianceReport, VarianceMismatch};
use basilisk_checker::constructor::{CtorFinding, CtorReport};
use basilisk_checker::deprecated::{DeprecatedKind, Report};
use basilisk_checker::generic_calls::CallMismatch;
use basilisk_checker::generic_text::LiteralType;
use basilisk_checker::position::Span;
use basilisk_checker::self_location::{SelfContext, SelfDiagnostic, SelfIssue};
use basilisk_checker::tuple_index::TupleIndexDiagnostic;
use basilisk_checker::typeguard::GuardDiagnostic;
use basilisk_checker::typevar_defaults::{DefaultDiagnostic, DefaultIssue};
use basilisk_checker::typevar_order::InconsistentOrder;
use basilisk_checker::typevar_scope::{ScopeViolation, ScopeViolationKind};
use basilisk_checker::variance::Variance;
use basilisk_checker::callable_calls::{CallFinding, CallableCallReport};
use basilisk_checker::conformance::{ConformanceFinding, ConformanceReport};
use basilisk_checker::default_references::{DefaultIssue as RefIssue, DefaultReport};
use basilisk_checker::generator_mismatch::{GeneratorFinding, GeneratorReport};
use basilisk_checker::initvar::{PostInitIssue, PostInitReport};
use basilisk_checker::protocol_overlap::{OverlapFinding, OverlapReport, TypeTest};
use basilisk_checker::slots::SlotAssignment;
use basilisk_checker::typed_dict::{TdDetail, TdFinding, TdReport};

fn c(s: &str) -> Vec<char> {
    s.chars().collect()
}

fn text(v: Vec<char>) -> String {
    v.into_iter().collect()
}

fn sp() -> Span {
    Span { start: 0, end: 1 }
}

#[test]
fn order_message_names_ancestor_and_class() {
    let r = InconsistentOrder { class: c("C"), ancestor: c("Base"), span: sp() };
    assert_eq!(text(r.message()), "Inconsistent TypeVar ordering for `Base` in base classes of `C`");
}

#[test]
fn scope_messages_by_kind() {
    let v = ScopeViolation {
        kind: ScopeViolationKind::UnboundAtModuleLevel,
        typevar: c("T"),
        line: 3,
        span: sp(),
    };
    assert_eq!(text(v.message()), "TypeVar `T` is not bound in this scope");
    let w = ScopeViolation {
        kind: ScopeViolationKind::ClassTypeVarInTypeAlias,
        typevar: c("T"),
        line: 3,
        span: sp(),
    };
    assert_eq!(
        text(w.message()),
        "TypeVar `T` from enclosing class is not accessible in a TypeAlias definition"
    );
}

#[test]
fn call_mismatch_message_lists_bindings() {
    let m = CallMismatch {
        line: 4,
        span: sp(),
        arg: c("\"x\""),
        actual: LiteralType::Str,
        param_name: c("item"),
        expected: c("int"),
        typevar: c("T"),
        var_name: c("box"),
        class_name: c("Box"),
        bindings: vec![(c("T"), c("int")), (c("U"), c("str"))],
    };
    assert_eq!(
        text(m.message()),
        "Argument `\"x\"` of type `str` is not compatible with parameter `item: int` (TypeVar `T` is bound to `int` for instance `box: Box[T=int, U=str]`)"
    );
}

#[test]
fn arity_messages_count_arguments() {
    let d = ArityDiagnostic { issue: ArityIssue::Builtin { base: c("type"), exact: 1, count: 2 }, span: sp() };
    assert_eq!(text(d.message()), "`type` accepts exactly 1 type argument, but 2 were provided");
    let e = ArityDiagnostic { issue: ArityIssue::TooMany { base: c("int"), max: 0, count: 1 }, span: sp() };
    assert_eq!(text(e.message()), "`int` cannot be subscripted; it has no free type parameters");
    let f = ArityDiagnostic { issue: ArityIssue::TooFew { base: c("Pair"), min: 2, count: 1 }, span: sp() };
    assert_eq!(text(f.message()), "Too few type arguments for `Pair`; expected at least 2, got 1");
}

#[test]
fn constructor_messages() {
    let r = CtorReport { class: c("P"), finding: CtorFinding::TooManyArgs { accepted: 1, given: 2 }, span: sp() };
    assert_eq!(text(r.message()), "`P` accepts at most 1 positional argument, but 2 were given");
    let s = CtorReport { class: c("D"), finding: CtorFinding::DataclassUnknownField { field: c("z") }, span: sp() };
    assert_eq!(text(s.message()), "Unknown field `z` in constructor of dataclass `D`");
}

#[test]
fn deprecated_message_and_help() {
    let r = Report { span: sp(), kind: DeprecatedKind::PropertySetter, name: c("C.x"), message: Some(c("use y")) };
    assert_eq!(text(r.message()), "Use of deprecated property setter `C.x`");
    assert_eq!(text(r.help().unwrap()), "Deprecated: use y");
    let s = Report { span: sp(), kind: DeprecatedKind::Class, name: c("Old"), message: None };
    assert!(s.help().is_none());
}

#[test]
fn self_location_message_names_context() {
    let d = SelfDiagnostic {
        issue: SelfIssue::Param { context: SelfContext::StaticMethod, param: c("x"), function: c("f") },
        span: sp(),
    };
    assert_eq!(text(d.message()), "`Self` is not valid in a static method; parameter `x` of `f` uses `Self`");
}

#[test]
fn guard_message_depends_on_expected_kind() {
    let d = GuardDiagnostic {
        arg_name: c("is_str"),
        callee: c("apply"),
        guard_return: c("TypeGuard[str]"),
        expected_return: c("str"),
        span: sp(),
    };
    assert_eq!(
        text(d.message()),
        "Function `is_str` returns `TypeGuard[str]` (subtype of `bool`), but `apply` expects return type `str`"
    );
}

#[test]
fn default_message_joins_constraints() {
    let d = DefaultDiagnostic {
        issue: DefaultIssue::ConstraintsNotSuperset {
            name: c("T"),
            constraints: vec![c("int")],
            default: c("U"),
            default_constraints: vec![c("int"), c("str")],
        },
        span: sp(),
    };
    assert_eq!(
        text(d.message()),
        "TypeVar `T`'s constraints `{int}` are not a superset of default TypeVar `U`'s constraints `{int, str}`"
    );
}

#[test]
fn base_variance_message_joins_details() {
    let r = BaseVarianceReport {
        base_name: c("Box"),
        violations: vec![
            VarianceMismatch { arg_name: c("T_co"), arg_variance: Variance::Covariant, expected_variance: Variance::Invariant },
            VarianceMismatch { arg_name: c("U"), arg_variance: Variance::Contravariant, expected_variance: Variance::Covariant },
        ],
        span: sp(),
    };
    assert_eq!(
        text(r.message()),
        "Variance incompatibility in base class `Box`: `T_co` is covariant but the corresponding type parameter is invariant; `U` is contravariant but the corresponding type parameter is covariant"
    );
}

#[test]
fn tuple_index_message_has_signed_index() {
    let d = TupleIndexDiagnostic { index: -4, tuple_len: 3, span: sp() };
    assert_eq!(text(d.message()), "Tuple index -4 is out of range for `tuple` of length 3");
}

#[test]
fn conformance_message_lists_missing_members() {
    let r = ConformanceReport {
        span: sp(),
        finding: ConformanceFinding::MissingMembers { rhs_class: c("Dog"), protocol: c("Animal"), missing: vec![c("speak"), c("eat")] },
    };
    assert_eq!(text(r.message()), "Class `Dog` is incompatible with protocol `Animal`: missing methods `speak`, `eat`");
}

#[test]
fn typed_dict_message_explains_requiredness() {
    let r = TdReport {
        target: c("B"),
        source: c("A"),
        finding: TdFinding::Incompatible(TdDetail::Requiredness { key: c("k"), target_requires: true }),
        span: sp(),
    };
    assert_eq!(
        text(r.message()),
        "TypedDict `A` is not assignable to `B`: key `k` is non-required in source but required in target"
    );
    let d = TdReport { target: c("dict[str, int]"), source: c("A"), finding: TdFinding::DictTarget, span: sp() };
    assert_eq!(text(d.message()), "TypedDict `A` is not assignable to `dict[str, int]`");
}

#[test]
fn callable_call_message_counts_from_one() {
    let r = CallableCallReport {
        param: c("cb"),
        finding: CallFinding::ArgumentType { position: 2, actual: c("str"), expected: c("int") },
        span: sp(),
    };
    assert_eq!(text(r.message()), "Argument 2 to `cb` has incompatible type `str`; expected `int`");
}

#[test]
fn post_init_message_agrees_in_number() {
    let r = PostInitReport { span: sp(), issue: PostInitIssue::ParamCount { class: c("D"), params: 1, initvars: 2 } };
    assert_eq!(
        text(r.message()),
        "`__post_init__` in `D` has 1 parameter after `self`, but 2 `InitVar` fields declared"
    );
}

#[test]
fn slot_assignment_message_and_help() {
    let a = SlotAssignment { class: c("P"), attr: c("z"), span: sp(), fields_list: c("[`x`, `y`]") };
    assert_eq!(text(a.message()), "Cannot assign to attribute `z` on `P`: `z` is not defined in `__slots__`");
    assert_eq!(
        text(a.help()),
        "Only attributes declared in `__slots__` can be assigned; `P` defines slots [`x`, `y`]"
    );
}

#[test]
fn overlap_message_names_the_test() {
    let r = OverlapReport { protocol: c("P"), test: TypeTest::IsInstance, finding: OverlapFinding::NotRuntimeCheckable, span: sp() };
    assert_eq!(
        text(r.message()),
        "Protocol `P` cannot be used with `isinstance()` because it is not decorated with `@runtime_checkable`"
    );
}

#[test]
fn default_reference_message_out_of_order() {
    let r = DefaultReport { issue: RefIssue::OutOfOrder, typevar: c("T"), default_name: c("U"), span: sp() };
    assert_eq!(
        text(r.message()),
        "`TypeVar` `T` has `default=U` but `U` must appear before `T` in the parameter list"
    );
}

#[test]
fn generator_missing_return_message() {
    let r = GeneratorReport {
        function: c("gen"),
        finding: GeneratorFinding::MissingReturn { def_span: sp(), return_type: c("int") },
    };
    assert_eq!(text(r.message()), "Generator `gen` is annotated to return `int` but has no valid return path");
}
