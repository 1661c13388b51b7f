use basilisk_checker::annotations::{
    extract_initvar_inner, extract_super_call_method, find_matching_paren, is_assignment_target,
    parse_base_subscript, parse_mapping_value_type, resolve_string_annotation, unwrap_required,
};
use basilisk_checker::default_factory::{
    extract_default_factory_type, is_factory_incompatible_with_annotation,
    DataclassFieldDefaultFactoryMismatch, DataclassSite, FieldSite,
};
use basilisk_checker::default_references::{
    format_constraints, is_constraint_subset, is_subtype_for_bound, DefaultIssue, DefaultTypeVar,
    TypeVarDefaultReferential,
};
use basilisk_checker::position::Span;

fn chars(s: &str) -> Vec<char> {
    s.chars().collect()
}

fn text(v: &[char]) -> String {
    v.iter().collect()
}

fn tv(name: &str, at: u32) -> DefaultTypeVar {
    DefaultTypeVar {
        name: chars(name),
        span: Span { start: at, end: at + 10 },
        is_typevartuple: false,
        is_paramspec: false,
        has_default: false,
        default_type_name: None,
        has_bound: false,
        bound_type_name: None,
        constraint_type_names: vec![],
    }
}

fn with_default(mut t: DefaultTypeVar, d: &str) -> DefaultTypeVar {
    t.has_default = true;
    t.default_type_name = Some(chars(d));
    t
}

fn with_bound(mut t: DefaultTypeVar, b: &str) -> DefaultTypeVar {
    t.has_bound = true;
    t.bound_type_name = Some(chars(b));
    t
}

fn with_constraints(mut t: DefaultTypeVar, cs: &[&str]) -> DefaultTypeVar {
    t.constraint_type_names = cs.iter().map(|c| chars(c)).collect();
    t
}

#[test]
fn default_typevar_must_come_first() {
    // T2 = TypeVar("T2", default=T1); T1 = TypeVar("T1")
    let tvs = vec![with_default(tv("T2", 0), "T1"), tv("T1", 20)];
    let r = TypeVarDefaultReferential.check(&tvs);
    assert_eq!(r.len(), 1);
    assert!(matches!(r[0].issue, DefaultIssue::OutOfOrder));
    assert_eq!(text(&r[0].typevar), "T2");
    assert_eq!(text(&r[0].default_name), "T1");
    assert_eq!((r[0].span.start, r[0].span.end), (0, 10));
}

#[test]
fn default_bound_must_be_subtype() {
    let tvs = vec![with_bound(tv("T1", 0), "int"), with_default(with_bound(tv("T2", 20), "str"), "T1")];
    let r = TypeVarDefaultReferential.check(&tvs);
    assert_eq!(r.len(), 1);
    match &r[0].issue {
        DefaultIssue::BoundNotSubtype { default_bound, bound } => {
            assert_eq!((text(default_bound), text(bound)), ("int".to_string(), "str".to_string()));
        }
        _ => panic!("expected a bound finding"),
    }
    // bool <: int: no finding.
    let ok = vec![with_bound(tv("T1", 0), "bool"), with_default(with_bound(tv("T2", 20), "int"), "T1")];
    assert!(TypeVarDefaultReferential.check(&ok).is_empty());
}

#[test]
fn default_constraints_must_be_subset_and_fit_bound() {
    let tvs = vec![
        with_constraints(tv("T1", 0), &["int", "str"]),
        with_default(with_constraints(tv("T2", 20), &["int", "bytes"]), "T1"),
        with_default(with_bound(tv("T3", 40), "float"), "T1"),
    ];
    let r = TypeVarDefaultReferential.check(&tvs);
    assert_eq!(r.len(), 2);
    match &r[0].issue {
        DefaultIssue::ConstraintsNotSubset { default_constraints, constraints } => {
            assert_eq!(text(default_constraints), "`int`, `str`");
            assert_eq!(text(constraints), "`int`, `bytes`");
        }
        _ => panic!("expected a constraint-subset finding"),
    }
    match &r[1].issue {
        DefaultIssue::ConstraintsVsBound { default_constraints, bound } => {
            assert_eq!(text(default_constraints), "`int`, `str`");
            assert_eq!(text(bound), "float");
        }
        _ => panic!("expected a constraints-vs-bound finding"),
    }
    assert_eq!(text(&r[1].typevar), "T3");
}

#[test]
fn default_bound_against_constraints() {
    let tvs = vec![
        with_bound(tv("T1", 0), "str"),
        with_default(with_constraints(tv("T2", 20), &["int", "float"]), "T1"),
    ];
    let r = TypeVarDefaultReferential.check(&tvs);
    assert_eq!(r.len(), 1);
    match &r[0].issue {
        DefaultIssue::BoundVsConstraints { default_bound, constraints } => {
            assert_eq!(text(default_bound), "str");
            assert_eq!(text(constraints), "`int`, `float`");
        }
        _ => panic!("expected a bound-vs-constraints finding"),
    }
}

#[test]
fn default_reference_helpers() {
    assert!(is_subtype_for_bound(&chars("int"), &chars("complex")));
    assert!(!is_subtype_for_bound(&chars("float"), &chars("int")));
    let a = vec![chars("int")];
    let b = vec![chars("int"), chars("str")];
    assert!(is_constraint_subset(&a, &b));
    assert!(!is_constraint_subset(&b, &a));
    assert_eq!(text(&format_constraints(&b)), "`int`, `str`");
    assert_eq!(text(&format_constraints(&vec![])), "");
}

fn field(name: &str, ann: &str, rhs: &str, at: u32) -> FieldSite {
    FieldSite {
        name: chars(name),
        name_span: Span { start: at, end: at + name.len() as u32 },
        has_value: true,
        annotation: Some(chars(ann)),
        rhs: Some(chars(rhs)),
    }
}

#[test]
fn default_factory_mismatches() {
    let dc = DataclassSite {
        is_dataclass: true,
        attributes: vec![
            field("a", "int", "field(default_factory=str)", 10),
            field("b", "str", "field(default_factory=str)", 40),
            field("c", "str | None", "field(default_factory=int)", 70),
            field("d", "list[int]", "field(default_factory=list)", 100),
            field("e", "float", "field(default_factory=bool)", 130),
        ],
    };
    let r = DataclassFieldDefaultFactoryMismatch.check(&vec![dc]);
    assert_eq!(r.len(), 2);
    assert_eq!((text(&r[0].field), text(&r[0].annotation), text(&r[0].factory)), ("a".into(), "int".into(), "str".into()));
    assert_eq!((r[0].span.start, r[0].span.end), (10, 11));
    assert_eq!((text(&r[1].field), text(&r[1].factory)), ("c".into(), "int".into()));
    let not_dc = DataclassSite { is_dataclass: false, attributes: vec![field("a", "int", "field(default_factory=str)", 0)] };
    assert!(DataclassFieldDefaultFactoryMismatch.check(&vec![not_dc]).is_empty());
}

#[test]
fn default_factory_helpers() {
    assert_eq!(text(&extract_default_factory_type(&chars("field(default_factory=str)")).unwrap()), "str");
    assert_eq!(text(&extract_default_factory_type(&chars(" field( repr=False, default_factory=dict , init=True)")).unwrap()), "dict");
    assert!(extract_default_factory_type(&chars("field(default_factory=lambda: 1)")).is_none());
    assert!(extract_default_factory_type(&chars("field(default_factory=a.b)")).is_none());
    assert!(extract_default_factory_type(&chars("field(default=1)")).is_none());
    assert!(extract_default_factory_type(&chars("other(default_factory=str)")).is_none());
    assert!(is_factory_incompatible_with_annotation(&chars("bytes"), &chars("str")));
    assert!(!is_factory_incompatible_with_annotation(&chars("bool"), &chars("int")));
    assert!(!is_factory_incompatible_with_annotation(&chars("list"), &chars("int")));
    assert!(!is_factory_incompatible_with_annotation(&chars("str"), &chars("List[int]")));
}

#[test]
fn annotation_text_helpers() {
    assert_eq!(text(&extract_initvar_inner(&chars(" InitVar[ int ] ")).unwrap()), "int");
    assert_eq!(text(&extract_initvar_inner(&chars("dataclasses.InitVar[list[str]]")).unwrap()), "list[str]");
    assert!(extract_initvar_inner(&chars("InitVar[int")).is_none());
    assert!(extract_initvar_inner(&chars("int")).is_none());
    assert_eq!(text(&parse_mapping_value_type(&chars("Mapping[str, dict[str, int]]")).unwrap()), "dict[str, int]");
    assert_eq!(text(&parse_mapping_value_type(&chars("Mapping[tuple[int, int], str]")).unwrap()), "str");
    assert!(parse_mapping_value_type(&chars("Mapping[str]")).is_none());
    assert!(parse_mapping_value_type(&chars("Dict[str, int]")).is_none());
    assert_eq!(text(&unwrap_required(&chars("Required[int]"))), "int");
    assert_eq!(text(&unwrap_required(&chars("NotRequired[list[str]]"))), "list[str]");
    assert_eq!(text(&unwrap_required(&chars("Required[int"))), "Required[int");
    assert_eq!(text(&unwrap_required(&chars("int"))), "int");
    assert_eq!(text(&resolve_string_annotation(&chars("\"Foo\""))), "Foo");
    assert_eq!(text(&resolve_string_annotation(&chars("'Bar'"))), "Bar");
    assert_eq!(text(&resolve_string_annotation(&chars("'Bar\""))), "'Bar\"");
    assert_eq!(text(&resolve_string_annotation(&chars("\""))), "\"");
}

#[test]
fn super_calls_and_base_subscripts() {
    assert_eq!(text(&extract_super_call_method(&chars("        super().method(x)")).unwrap()), "method");
    assert_eq!(text(&extract_super_call_method(&chars("return super(). go ()")).unwrap()), "go");
    assert!(extract_super_call_method(&chars("super().x.y()")).is_none());
    assert!(extract_super_call_method(&chars("super(A, self).m()")).is_none());
    assert!(extract_super_call_method(&chars("self.m()")).is_none());
    let (name, args) = parse_base_subscript(&chars(" Generic[T, Dict[K, V]] ")).unwrap();
    assert_eq!(text(&name), "Generic");
    assert_eq!(args.iter().map(|a| text(a)).collect::<Vec<_>>(), vec!["T", "Dict[K, V]"]);
    let (name, args) = parse_base_subscript(&chars("Base")).unwrap();
    assert_eq!(text(&name), "Base");
    assert!(args.is_empty());
    assert!(parse_base_subscript(&chars("metaclass=ABCMeta")).is_none());
    assert!(parse_base_subscript(&chars("   ")).is_none());
}

#[test]
fn assignment_targets_and_parens() {
    assert!(is_assignment_target(&chars("self.x = 1"), &chars("self."), &chars("x")));
    assert!(is_assignment_target(&chars("self.x=1"), &chars("self."), &chars("x")));
    assert!(!is_assignment_target(&chars("self.x == 1"), &chars("self."), &chars("x")));
    assert!(!is_assignment_target(&chars("self.x"), &chars("self."), &chars("x")));
    assert!(!is_assignment_target(&chars("self.x.y = 1"), &chars("self."), &chars("x")));
    assert_eq!(find_matching_paren(&chars("a, (b, c)) + d")), Some(9));
    assert_eq!(find_matching_paren(&chars("x)")), Some(1));
    assert_eq!(find_matching_paren(&chars("(x)")), None);
}
